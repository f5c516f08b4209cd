use hrpc::messages::ErrorMessage;
use hrpc::next::{register_outbound, route_inbound, Body, Inbound, Message, RpcError};
use hrpc::schema::{AddRequest, CalcResponse, SquareRequest, UpperRequest, UpperResponse};
use hrpc::sessions::InnerSessions;
use hrpc::decode::Parser;
use hrpc::message::MessageType;

#[test]
fn demo_calc_scenario() {
    // add 2 + 13 answered with 15
    let mut req: Message<AddRequest, CalcResponse> = Message::request(AddRequest { a: 2, b: 13 });
    req.set_request_id(1);
    let q = req.as_request().unwrap();
    let reply = req.reply(Ok(CalcResponse { result: q.a + q.b })).unwrap();
    assert_eq!(reply.request_id(), 1);
    assert_eq!(reply.into_response().unwrap(), CalcResponse { result: 15 });

    // squaring zero answered with a remote error
    let mut req: Message<SquareRequest, CalcResponse> = Message::request(SquareRequest { num: 0 });
    req.set_request_id(2);
    let err = RpcError::Remote(ErrorMessage::new("dont square the zero"));
    let reply = req.reply(Err(err)).unwrap();
    assert_eq!(reply.request_id(), 2);
    match reply.into_response() {
        Err(RpcError::Remote(e)) => assert_eq!(&e.message, "dont square the zero"),
        _ => panic!("expected error, got ok"),
    }
}

#[test]
fn reply_to_non_request_is_mismatch() {
    let res: Message<UpperRequest, UpperResponse> = Message::response(UpperResponse { text: "A".to_string() });
    assert!(matches!(res.reply(Ok(UpperResponse::default())), Err(RpcError::MessageMismatch)));
    assert!(matches!(res.as_request(), Err(RpcError::MessageMismatch)));
    assert_eq!(res.as_response().unwrap().text, "A");
}

#[test]
fn into_response_of_request_is_mismatch() {
    let req: Message<UpperRequest, UpperResponse> = Message::request(UpperRequest { text: "a".to_string() });
    assert!(matches!(req.as_response(), Err(RpcError::MessageMismatch)));
    assert!(matches!(req.into_response(), Err(RpcError::MessageMismatch)));
}

#[test]
fn kinds_and_codes() {
    let mut m: Message<AddRequest, CalcResponse> = Message::request(AddRequest::default());
    assert!(m.is_request() && !m.is_response());
    assert_eq!(m.typ(), 0);
    m.convert_to_response(CalcResponse { result: 1 });
    assert!(m.is_response() && !m.is_request());
    assert_eq!(m.typ(), 1);
    m.replace_body(Body::Error(RpcError::MethodNotImplemented));
    assert!(m.is_response());
    assert_eq!(m.typ(), 2);
    assert!(matches!(m.body(), Body::Error(RpcError::MethodNotImplemented)));
    assert_eq!(m.header(3), 14);
    let f: Message<AddRequest, CalcResponse> = Message::from_body(9, Body::Response(CalcResponse { result: 2 }));
    assert_eq!(f.request_id(), 9);
    assert_eq!(f.typ(), 1);
}

#[test]
fn error_texts() {
    assert_eq!(RpcError::MessageMismatch.to_message().message, "Message does not match");
    assert_eq!(RpcError::MethodNotImplemented.to_message().message, "Method not implemented");
    let io = RpcError::Io(std::sync::Arc::new(std::io::Error::new(std::io::ErrorKind::Other, "x")));
    assert_eq!(io.to_message().message, "IO error");
    let remote = RpcError::Remote(ErrorMessage::new("far away"));
    assert_eq!(remote.to_message().message, "far away");
}

#[test]
fn typed_frame_decodes_as_plain_message() {
    let mut m: Message<AddRequest, CalcResponse> = Message::response(CalcResponse { result: 3 });
    m.set_request_id(6);
    let body = vec![8u8, 3];
    let len = m.encoded_len(0, 1, &body);
    assert_eq!(m.message_len(0, 1, &body), 5);
    assert_eq!(len, 6);
    let mut buf = vec![0u8; len];
    assert!(m.encode(&mut buf, 0, 1, &body).is_ok());
    assert_eq!(buf, vec![5, 1, 1, 6, 8, 3]);
    let mut p = Parser::new();
    let (msgs, err) = p.recv_all(&buf);
    assert!(err.is_none());
    assert_eq!(msgs[0].typ, MessageType::Response);
    assert_eq!(msgs[0].address(), (0, 1, 6));
    assert_eq!(msgs[0].body, body);
}

#[test]
fn inbound_routing() {
    let mut s: InnerSessions<&str> = InnerSessions::new();
    assert_eq!(register_outbound(&mut s, true, Some("tx")), Some(1));
    assert_eq!(register_outbound(&mut s, false, Some("dropped")), None);
    assert_eq!(register_outbound(&mut s, true, None), None);
    assert!(matches!(route_inbound(&mut s, false, 1), Inbound::Forward));
    assert!(matches!(route_inbound(&mut s, true, 1), Inbound::Deliver("tx")));
    assert!(matches!(route_inbound(&mut s, true, 1), Inbound::Unmatched));
    assert_eq!(register_outbound(&mut s, true, Some("again")), Some(1));
}

#[test]
fn error_message_becomes_remote_error() {
    let e: RpcError = ErrorMessage::new("gone").into();
    match e {
        RpcError::Remote(m) => assert_eq!(m.message, "gone"),
        _ => panic!("expected a remote error"),
    }
}

#[test]
fn errors_clone_with_their_cause() {
    #[allow(deprecated)]
    let d = RpcError::Decode(prost::DecodeError::new("bad tag"));
    let d2 = d.clone();
    match (d, d2) {
        (RpcError::Decode(a), RpcError::Decode(b)) => assert_eq!(a, b),
        _ => panic!("expected decode errors"),
    }
    let m: Message<AddRequest, CalcResponse> = Message::from_body(4, Body::Error(RpcError::MessageMismatch));
    let c = m.clone();
    assert_eq!(c.request_id(), 4);
    assert!(matches!(c.into_response(), Err(RpcError::MessageMismatch)));
}

#[test]
fn upcast_wraps_twice() {
    let m: Message<AddRequest, CalcResponse> = Message::from_body(5, Body::Request(AddRequest { a: 1, b: 2 }));
    let wrapped = hrpc::next::upcast(|id: u64| Some(id), |m: Message<AddRequest, CalcResponse>| m.request_id(), m);
    assert_eq!(wrapped, Some(5));
}

#[test]
fn outside_errors_convert_to_their_variants() {
    let e: RpcError = std::io::Error::new(std::io::ErrorKind::BrokenPipe, "closed").into();
    match e {
        RpcError::Io(a) => assert_eq!(a.kind(), std::io::ErrorKind::BrokenPipe),
        _ => panic!("expected an I/O error"),
    }
    let shared = std::sync::Arc::new(std::io::Error::new(std::io::ErrorKind::Other, "x"));
    let e: RpcError = shared.clone().into();
    match e {
        RpcError::Io(a) => assert!(std::sync::Arc::ptr_eq(&a, &shared)),
        _ => panic!("expected an I/O error"),
    }
    #[allow(deprecated)]
    let d = prost::DecodeError::new("bad tag");
    let e: RpcError = d.clone().into();
    match e {
        RpcError::Decode(a) => assert_eq!(a, d),
        _ => panic!("expected a decode error"),
    }
    let mut buf = [0u8; 1];
    let mut out: &mut [u8] = &mut buf[..];
    let enc = prost::Message::encode(&300u32, &mut out).unwrap_err();
    let e: RpcError = enc.clone().into();
    match e {
        RpcError::Encode(a) => assert_eq!(a, enc),
        _ => panic!("expected an encode error"),
    }
}
