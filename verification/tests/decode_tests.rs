use hrpc::decode::{Parser, VarintParser, WireError, MAX_MESSAGE_SIZE};
use hrpc::message::{Message, MessageType};

fn frame_of(m: &Message) -> Vec<u8> {
    let len = m.encoded_len();
    let mut buf = vec![0u8; len];
    m.encode(&mut buf).unwrap();
    buf
}

fn varint(v: u64) -> Vec<u8> {
    let mut buf = vec![0u8; varinteger::length(v)];
    varinteger::encode(v, &mut buf);
    buf
}

#[test]
fn roundtrip_request() {
    let m = Message::request(3, 7, vec![1, 2, 3]);
    let buf = frame_of(&m);
    let mut p = Parser::new();
    let (msgs, err) = p.recv_all(&buf);
    assert!(err.is_none());
    assert_eq!(msgs.len(), 1);
    assert_eq!(msgs[0].typ, MessageType::Request);
    assert_eq!(msgs[0].service, 3);
    assert_eq!(msgs[0].method, 7);
    assert_eq!(msgs[0].id, 0);
    assert_eq!(msgs[0].body, vec![1, 2, 3]);
}

#[test]
fn varint_parser_reads_multi_byte_value() {
    let mut v = VarintParser::default();
    assert_eq!(v.recv(&[0xac, 0x02, 0x07]), Ok((2, Some(300))));
    // the parser starts afresh after a complete varint
    assert_eq!(v.recv(&[0x07]), Ok((1, Some(7))));
}

#[test]
fn varint_parser_across_chunks() {
    let mut v = VarintParser::default();
    assert_eq!(v.recv(&[0xff]), Ok((1, None)));
    assert_eq!(v.recv(&[0xff]), Ok((1, None)));
    assert_eq!(v.recv(&[0x03]), Ok((1, Some(0xffff))));
    assert_eq!(v.recv(&[]), Ok((0, None)));
}

#[test]
fn varint_parser_max_value() {
    let mut v = VarintParser::default();
    let bytes = varint(u64::MAX);
    assert_eq!(bytes.len(), 10);
    assert_eq!(v.recv(&bytes), Ok((10, Some(u64::MAX))));
}

#[test]
fn varint_parser_rejects_overflow() {
    let mut v = VarintParser::default();
    let mut bytes = vec![0xffu8; 9];
    bytes.push(0x02);
    assert_eq!(v.recv(&bytes), Err(WireError::InvalidVarint));
}

#[test]
fn varint_parser_rejects_eleven_bytes() {
    let mut v = VarintParser::default();
    let mut bytes = vec![0x80u8; 10];
    bytes.push(0x00);
    assert_eq!(v.recv(&bytes), Err(WireError::InvalidVarint));
}

#[test]
fn recv_takes_one_part_at_a_time() {
    let m = Message::request(1, 2, vec![9, 8]);
    let buf = frame_of(&m);
    assert_eq!(buf, vec![5, 4, 2, 0, 9, 8]);
    let mut p = Parser::new();
    let mut ptr = 0;
    let mut counts = Vec::new();
    let mut got = None;
    while ptr < buf.len() {
        let (n, msg) = p.recv(&buf[ptr..]).unwrap();
        counts.push(n);
        ptr += n;
        if msg.is_some() {
            got = msg;
        }
    }
    // length, header, method, id, then the whole body
    assert_eq!(counts, vec![1, 1, 1, 1, 2]);
    let got = got.unwrap();
    assert_eq!(got.body, vec![9, 8]);
    assert_eq!(got.method, 2);
}

#[test]
fn empty_body_message_ends_at_id() {
    let m = Message::prepare_response(vec![]);
    let buf = frame_of(&m);
    assert_eq!(buf, vec![3, 1, 0, 0]);
    let mut p = Parser::new();
    assert!(p.recv(&buf[0..1]).unwrap().1.is_none());
    assert!(p.recv(&buf[1..2]).unwrap().1.is_none());
    assert!(p.recv(&buf[2..3]).unwrap().1.is_none());
    let (n, msg) = p.recv(&buf[3..]).unwrap();
    assert_eq!(n, 1);
    let msg = msg.unwrap();
    assert_eq!(msg.typ, MessageType::Response);
    assert!(msg.body.is_empty());
}

#[test]
fn frames_in_one_chunk_come_out_in_order() {
    let a = Message::request(1, 1, vec![1]);
    let mut b = Message::prepare_error("no");
    b.set_address((2, 3, 4));
    let c = Message::request(300, 70000, vec![7; 200]);
    let mut stream = frame_of(&a);
    stream.extend(frame_of(&b));
    stream.extend(frame_of(&c));
    let mut p = Parser::new();
    let (msgs, err) = p.recv_all(&stream);
    assert!(err.is_none());
    assert_eq!(msgs.len(), 3);
    assert_eq!(msgs[0].service, 1);
    assert_eq!(msgs[1].typ, MessageType::Error);
    assert_eq!(msgs[1].address(), (2, 3, 4));
    assert_eq!(msgs[1].body, b"no".to_vec());
    assert_eq!(msgs[2].service, 300);
    assert_eq!(msgs[2].method, 70000);
    assert_eq!(msgs[2].body, vec![7; 200]);
}

#[test]
fn decoding_does_not_depend_on_chunking() {
    let a = Message::request(5, 6, vec![1, 2, 3, 4, 5]);
    let mut b = Message::prepare_response(vec![0xff; 130]);
    b.set_address((9, 10, 11));
    let mut stream = frame_of(&a);
    stream.extend(frame_of(&b));
    for cut in 0..=stream.len() {
        let mut p = Parser::new();
        let (mut first, e1) = p.recv_all(&stream[..cut]);
        let (second, e2) = p.recv_all(&stream[cut..]);
        assert!(e1.is_none() && e2.is_none());
        first.extend(second);
        assert_eq!(first.len(), 2);
        assert_eq!(first[0].body, vec![1, 2, 3, 4, 5]);
        assert_eq!(first[1].body, vec![0xff; 130]);
        assert_eq!(first[1].id, 11);
    }
    // byte by byte
    let mut p = Parser::new();
    let mut all = Vec::new();
    for byte in &stream {
        let (msgs, err) = p.recv_all(&[*byte]);
        assert!(err.is_none());
        all.extend(msgs);
    }
    assert_eq!(all.len(), 2);
}

#[test]
fn too_long_frame_is_refused() {
    let mut p = Parser::new();
    let bytes = varint(MAX_MESSAGE_SIZE + 1);
    assert_eq!(p.recv(&bytes).err(), Some(WireError::MessageTooLong));
    // the parser waits for a new frame afterwards
    let m = Message::request(1, 1, vec![]);
    let (msgs, err) = p.recv_all(&frame_of(&m));
    assert!(err.is_none());
    assert_eq!(msgs.len(), 1);
}

#[test]
fn largest_frame_length_is_accepted() {
    let mut p = Parser::new();
    let bytes = varint(MAX_MESSAGE_SIZE);
    let (n, msg) = p.recv(&bytes).unwrap();
    assert_eq!(n, bytes.len());
    assert!(msg.is_none());
}

#[test]
fn short_length_prefix_is_refused() {
    // length 2, but header, method and id take three bytes
    let stream = vec![2u8, 4, 1, 0];
    let mut p = Parser::new();
    let (msgs, err) = p.recv_all(&stream);
    assert!(msgs.is_empty());
    assert_eq!(err, Some(WireError::InvalidMessage));
}

#[test]
fn type_code_three_is_refused() {
    // header 7: service 1, type 3
    let stream = vec![4u8, 7, 1, 0, 5];
    let mut p = Parser::new();
    let (msgs, err) = p.recv_all(&stream);
    assert!(msgs.is_empty());
    assert_eq!(err, Some(WireError::InvalidMessageType));
}

#[test]
fn messages_before_an_error_are_kept() {
    let a = Message::request(1, 2, vec![3]);
    let mut stream = frame_of(&a);
    stream.extend(vec![3u8, 3, 0, 0]);
    let mut p = Parser::new();
    let (msgs, err) = p.recv_all(&stream);
    assert_eq!(msgs.len(), 1);
    assert_eq!(msgs[0].body, vec![3]);
    assert_eq!(err, Some(WireError::InvalidMessageType));
}

#[test]
fn invalid_varint_in_stream() {
    let mut stream = vec![0x80u8; 11];
    stream.push(0);
    let mut p = Parser::new();
    let (msgs, err) = p.recv_all(&stream);
    assert!(msgs.is_empty());
    assert_eq!(err, Some(WireError::InvalidVarint));
}

#[test]
fn large_service_id_survives_below_62_bits() {
    let service = (1u64 << 62) - 1;
    let m = Message::request(service, u64::MAX, vec![]);
    let mut p = Parser::new();
    let (msgs, err) = p.recv_all(&frame_of(&m));
    assert!(err.is_none());
    assert_eq!(msgs[0].service, service);
    assert_eq!(msgs[0].method, u64::MAX);
}

#[test]
fn type_code_three_refuses_every_later_read() {
    // header 7: service 1, type 3, with a one-byte body
    let stream = vec![4u8, 7, 1, 0, 5];
    let mut p = Parser::new();
    let mut ptr = 0;
    let mut error = None;
    while ptr < stream.len() {
        match p.recv(&stream[ptr..]) {
            Ok((n, msg)) => {
                assert!(msg.is_none());
                ptr += n;
            }
            Err(e) => {
                error = Some(e);
                break;
            }
        }
    }
    assert_eq!(ptr, 4);
    assert_eq!(error, Some(WireError::InvalidMessageType));
    // the parser stays at the end of the refused frame
    assert_eq!(p.recv(&[3, 4, 0, 0]).err(), Some(WireError::InvalidMessageType));
    assert_eq!(p.recv(&[]).err(), Some(WireError::InvalidMessageType));
    let (msgs, err) = p.recv_all(&[3, 4, 0, 0]);
    assert!(msgs.is_empty());
    assert_eq!(err, Some(WireError::InvalidMessageType));
    // an empty read reports nothing
    let (msgs, err) = p.recv_all(&[]);
    assert!(msgs.is_empty());
    assert!(err.is_none());
}

#[test]
fn empty_body_of_type_three_is_refused_and_stays() {
    let stream = vec![3u8, 3, 0, 0];
    let mut p = Parser::new();
    let (msgs, err) = p.recv_all(&stream);
    assert!(msgs.is_empty());
    assert_eq!(err, Some(WireError::InvalidMessageType));
    assert_eq!(p.recv(&[1]).err(), Some(WireError::InvalidMessageType));
}
