use hrpc::message::{Message, MessageType};
use hrpc::rpc::{answer, register_request, route_incoming, Incoming, Request, Response, RouteError, ServiceOutcome};
use hrpc::sessions::InnerSessions;

#[test]
fn request_accessors() {
    let mut m = Message::request(3, 4, vec![5, 6]);
    m.set_request(7);
    let r = Request::from_message(m);
    assert_eq!(r.service(), 3);
    assert_eq!(r.method(), 4);
    assert_eq!(r.id(), 7);
    assert_eq!(r.body(), &[5, 6]);
    assert_eq!(r.address(), (3, 4, 7));
    let m = r.take_message();
    assert_eq!(m.body, vec![5, 6]);
    let r = Request::new(1, 2, vec![9]);
    assert_eq!(r.id(), 0);
    assert_eq!(r.take_message().typ, MessageType::Request);
}

#[test]
fn response_from_request() {
    let mut m = Message::request(3, 4, vec![]);
    m.set_request(8);
    let r = Response::from_request(Request::from_message(m), vec![1]);
    let m = r.take_message();
    assert_eq!(m.typ, MessageType::Response);
    assert_eq!(m.address(), (3, 4, 8));
    assert_eq!(m.body, vec![1]);
    let e = Response::error("nope").take_message();
    assert_eq!(e.typ, MessageType::Error);
    assert_eq!(e.body, b"nope".to_vec());
    let b = Response::from_body(vec![4]).take_message();
    assert_eq!(b.typ, MessageType::Response);
    assert_eq!(b.address(), (0, 0, 0));
}

#[test]
fn answer_of_request_without_id_is_none() {
    assert!(answer((1, 2, 0), ServiceOutcome::NotFound).is_none());
    let ok = Response::from_body(vec![1]);
    assert!(answer((1, 2, 0), ServiceOutcome::Handled(Ok(ok))).is_none());
}

#[test]
fn answer_to_missing_service() {
    let m = answer((1, 2, 3), ServiceOutcome::NotFound).unwrap();
    assert_eq!(m.typ, MessageType::Error);
    assert_eq!(m.address(), (1, 2, 3));
    assert_eq!(m.body, b"Service not implemented".to_vec());
}

#[test]
fn answer_with_response_and_error() {
    let ok = Response::from_body(vec![9]);
    let m = answer((5, 6, 7), ServiceOutcome::Handled(Ok(ok))).unwrap();
    assert_eq!(m.typ, MessageType::Response);
    assert_eq!(m.address(), (5, 6, 7));
    assert_eq!(m.body, vec![9]);
    let m = answer((5, 6, 7), ServiceOutcome::Handled(Err("Invalid method ID".to_string()))).unwrap();
    assert_eq!(m.typ, MessageType::Error);
    assert_eq!(m.address(), (5, 6, 7));
    assert_eq!(m.body, b"Invalid method ID".to_vec());
}

#[test]
fn outgoing_request_gets_fresh_id_and_reply_is_routed_back() {
    let mut sessions: InnerSessions<&str> = InnerSessions::new();
    let out = register_request(&mut sessions, Message::request(1, 2, vec![3]), "waiter");
    assert_eq!(out.id, 1);
    assert_eq!(out.typ, MessageType::Request);
    let out2 = register_request(&mut sessions, Message::request(1, 2, vec![]), "other");
    assert_eq!(out2.id, 2);

    let reply = Message::response(out, vec![4]);
    match route_incoming(&mut sessions, reply) {
        Ok(Incoming::Reply(tx, m)) => {
            assert_eq!(tx, "waiter");
            assert_eq!(m.body, vec![4]);
            assert_eq!(m.id, 1);
        }
        _ => panic!("expected a reply"),
    }
    // the same id is not waited on any more
    let again = Message::response(Message::request(1, 2, vec![]), vec![]);
    let mut again = again;
    again.id = 1;
    assert!(matches!(route_incoming(&mut sessions, again), Err(RouteError::InvalidRequestId)));
}

#[test]
fn incoming_request_goes_to_services() {
    let mut sessions: InnerSessions<u8> = InnerSessions::new();
    let mut m = Message::request(1, 2, vec![3]);
    m.set_request(5);
    match route_incoming(&mut sessions, m) {
        Ok(Incoming::Request(r)) => assert_eq!(r.address(), (1, 2, 5)),
        _ => panic!("expected a request"),
    }
}

#[test]
fn error_reply_is_routed_too() {
    let mut sessions: InnerSessions<u8> = InnerSessions::new();
    let out = register_request(&mut sessions, Message::request(1, 2, vec![]), 42);
    let err = Message::error(out, "boom");
    match route_incoming(&mut sessions, err) {
        Ok(Incoming::Reply(tx, m)) => {
            assert_eq!(tx, 42);
            assert!(m.is_error());
        }
        _ => panic!("expected a reply"),
    }
}

#[test]
fn response_from_message() {
    let r: Response = Message::prepare_response(vec![3]).into();
    let m = r.take_message();
    assert_eq!(m.body, vec![3]);
    assert_eq!(m.typ, MessageType::Response);
}
