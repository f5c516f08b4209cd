//! The messages of the wire protocol and their framing.
use vstd::prelude::*;
use crate::decode::WireError;
use vstd::utf8::encode_utf8;
use crate::varint::{lemma_varint_bytes_len, varint_bytes};

verus! {

#[verifier::external_type_specification]
#[verifier::external_body]
pub struct ExIoError(std::io::Error);

/// A message's body, in the encoded form in which it travels.
pub trait EncodeBody: Sized {
    fn encode_body(&self) -> Vec<u8>;
}

impl EncodeBody for Vec<u8> {
    fn encode_body(&self) -> (r: Vec<u8>)
        ensures
            r@ == self@,
    {
        copy_bytes(self.as_slice())
    }
}

/// The kind of a message, carried in the two low bits of its header.
#[derive(Debug, Clone, Copy, PartialEq, Eq, Structural)]
pub enum MessageType {
    Request,
    Response,
    Error,
}

/// The two-bit code of a message type on the wire.
pub open spec fn type_code(t: MessageType) -> u8 {
    match t {
        MessageType::Request => 0,
        MessageType::Response => 1,
        MessageType::Error => 2,
    }
}

/// The message type that a two-bit code stands for (`3` stands for none).
pub open spec fn type_of_code(c: u64) -> Option<MessageType> {
    if c == 0 {
        Some(MessageType::Request)
    } else if c == 1 {
        Some(MessageType::Response)
    } else if c == 2 {
        Some(MessageType::Error)
    } else {
        None
    }
}

/// The wire codes of the message types: a request is 0, a response 1, an
/// error 2; each code reads back as its own type, and the code 3 (or any
/// larger one) stands for none.
pub proof fn lemma_type_codes(t: MessageType, c: u64)
    ensures
        type_code(MessageType::Request) == 0,
        type_code(MessageType::Response) == 1,
        type_code(MessageType::Error) == 2,
        type_of_code(type_code(t) as u64) == Some(t),
        type_of_code(c) matches Some(u) ==> c == type_code(u) as u64,
        c >= 3 ==> type_of_code(c) is None,
{
}

/// The message type that a two-bit code stands for.
pub fn type_from_code(code: u8) -> (r: Option<MessageType>)
    ensures
        r == type_of_code(code as u64),
{
    match code {
        0 => Some(MessageType::Request),
        1 => Some(MessageType::Response),
        2 => Some(MessageType::Error),
        _ => None,
    }
}

/// Service, method, id.
pub type Address = (u64, u64, u64);

#[derive(Debug)]
pub struct Message {
    pub typ: MessageType,
    pub service: u64,
    pub method: u64,
    pub id: u64,
    pub body: Vec<u8>,
}

/// A message as a plain value.
pub struct MessageView {
    pub typ: MessageType,
    pub service: u64,
    pub method: u64,
    pub id: u64,
    pub body: Seq<u8>,
}

impl View for Message {
    type V = MessageView;

    open spec fn view(&self) -> MessageView {
        MessageView {
            typ: self.typ,
            service: self.service,
            method: self.method,
            id: self.id,
            body: self.body@,
        }
    }
}

/// The header of a message: the service id above the two bits of the type.
/// Bits of the service id above the 62nd are shifted out.
pub open spec fn spec_header(m: MessageView) -> u64 {
    (m.service << 2u64) | (type_code(m.typ) as u64)
}

/// The value of the length prefix of a frame: the bytes of header, method,
/// id and body.
pub open spec fn spec_body_len(m: MessageView) -> nat {
    varint_bytes(spec_header(m)).len() + varint_bytes(m.method).len() + varint_bytes(m.id).len()
        + m.body.len()
}

/// The frame of a message on the wire: `<len><header><method><id><body>`.
pub open spec fn spec_frame(m: MessageView) -> Seq<u8> {
    varint_bytes(spec_body_len(m) as u64) + varint_bytes(spec_header(m)) + varint_bytes(m.method)
        + varint_bytes(m.id) + m.body
}

/// The body is short enough for the frame's length to be counted in a `usize`.
pub open spec fn body_fits(m: MessageView) -> bool {
    m.body.len() + 40 <= usize::MAX
}

/// A copy of `s`.
pub fn copy_bytes(s: &[u8]) -> (r: Vec<u8>)
    ensures
        r@ == s@,
{
    let mut r: Vec<u8> = Vec::with_capacity(s.len());
    let mut i: usize = 0;
    while i < s.len()
        invariant
            i <= s.len(),
            r@ == s@.take(i as int),
        decreases s.len() - i,
    {
        r.push(s[i]);
        i += 1;
        assert(r@ =~= s@.take(i as int));
    }
    assert(s@.take(s.len() as int) =~= s@);
    r
}

/// The UTF-8 bytes of `s`.
pub fn str_bytes(s: &str) -> (r: Vec<u8>)
    ensures
        r@ == encode_utf8(s@),
{
    copy_bytes(s.as_bytes())
}

impl Message {
    /// A request to `method` of `service`, not yet given a request id.
    pub fn request(service: u64, method: u64, body: Vec<u8>) -> (r: Self)
        ensures
            r@ == (MessageView { typ: MessageType::Request, service, method, id: 0, body: body@ }),
    {
        Self { typ: MessageType::Request, service, method, id: 0, body }
    }

    /// The error answer to `request`: its address, the text as body.
    pub fn error(request: Message, body: &str) -> (r: Self)
        ensures
            r@ == (MessageView {
                typ: MessageType::Error,
                service: request.service,
                method: request.method,
                id: request.id,
                body: encode_utf8(body@),
            }),
    {
        Self {
            typ: MessageType::Error,
            id: request.id,
            service: request.service,
            method: request.method,
            body: str_bytes(body),
        }
    }

    /// The answer to this request: a response with the body, or an error
    /// with the error's text.
    pub fn into_response(self, body: Result<Vec<u8>, String>) -> (r: Self)
        ensures
            r.service == self.service,
            r.method == self.method,
            r.id == self.id,
            match body {
                Ok(b) => r.typ == MessageType::Response && r.body@ == b@,
                Err(e) => r.typ == MessageType::Error && r.body@ == encode_utf8(e@),
            },
    {
        match body {
            Err(error) => Message::error(self, error.as_str()),
            Ok(body) => Message::response(self, body),
        }
    }

    /// A response not yet addressed.
    pub fn prepare_response(body: Vec<u8>) -> (r: Self)
        ensures
            r@ == (MessageView { typ: MessageType::Response, service: 0, method: 0, id: 0, body: body@ }),
    {
        Self { typ: MessageType::Response, body, service: 0, method: 0, id: 0 }
    }

    /// An error not yet addressed, the text as body.
    pub fn prepare_error(body: &str) -> (r: Self)
        ensures
            r@ == (MessageView {
                typ: MessageType::Error,
                service: 0,
                method: 0,
                id: 0,
                body: encode_utf8(body@),
            }),
    {
        Self { typ: MessageType::Error, body: str_bytes(body), service: 0, method: 0, id: 0 }
    }

    /// The response to `request`: its address, the given body.
    pub fn response(request: Message, body: Vec<u8>) -> (r: Self)
        ensures
            r@ == (MessageView {
                typ: MessageType::Response,
                service: request.service,
                method: request.method,
                id: request.id,
                body: body@,
            }),
    {
        Self {
            typ: MessageType::Response,
            id: request.id,
            service: request.service,
            method: request.method,
            body,
        }
    }

    pub fn address(&self) -> (r: Address)
        ensures
            r == (self.service, self.method, self.id),
    {
        (self.service, self.method, self.id)
    }

    pub fn set_address(&mut self, address: Address)
        ensures
            final(self)@ == (MessageView {
                service: address.0,
                method: address.1,
                id: address.2,
                ..old(self)@
            }),
    {
        self.service = address.0;
        self.method = address.1;
        self.id = address.2;
    }

    /// The message that a decoded header, method, id and body stand for: the
    /// type is `header & 3`, the service `header >> 2`; the type code `3` is
    /// refused.
    pub fn from_raw(header: u64, method: u64, id: u64, body: Vec<u8>) -> (r: Result<Self, WireError>)
        ensures
            match type_of_code(header & 3) {
                Some(typ) => r matches Ok(m) && m@ == (MessageView {
                    typ,
                    service: header >> 2u64,
                    method,
                    id,
                    body: body@,
                }),
                None => r == Err::<Self, WireError>(WireError::InvalidMessageType),
            },
    {
        let typ = header & 3;
        let service = header >> 2;
        let typ = if typ == 0 {
            MessageType::Request
        } else if typ == 1 {
            MessageType::Response
        } else if typ == 2 {
            MessageType::Error
        } else {
            return Err(WireError::InvalidMessageType);
        };
        Ok(Message { typ, service, method, id, body })
    }

    pub fn is_request(&self) -> (r: bool)
        ensures
            r == (self.typ == MessageType::Request),
    {
        match self.typ {
            MessageType::Request => true,
            _ => false,
        }
    }

    pub fn is_response(&self) -> (r: bool)
        ensures
            r == (self.typ == MessageType::Response),
    {
        match self.typ {
            MessageType::Response => true,
            _ => false,
        }
    }

    pub fn is_error(&self) -> (r: bool)
        ensures
            r == (self.typ == MessageType::Error),
    {
        match self.typ {
            MessageType::Error => true,
            _ => false,
        }
    }

    /// Turns the message into a request with the given request id.
    pub fn set_request(&mut self, id: u64)
        ensures
            final(self)@ == (MessageView { id, typ: MessageType::Request, ..old(self)@ }),
    {
        self.id = id;
        self.typ = MessageType::Request;
    }

    pub fn typ(&self) -> (r: MessageType)
        ensures
            r == self.typ,
    {
        self.typ
    }

    pub fn typ_u8(&self) -> (r: u8)
        ensures
            r == type_code(self.typ),
    {
        match self.typ {
            MessageType::Request => 0,
            MessageType::Response => 1,
            MessageType::Error => 2,
        }
    }

    pub fn header(&self) -> (r: u64)
        ensures
            r == spec_header(self@),
    {
        (self.service << 2) | self.typ_u8() as u64
    }

    /// The value of the frame's length prefix.
    pub fn body_len(&self) -> (r: usize)
        requires
            body_fits(self@),
        ensures
            r == spec_body_len(self@),
    {
        proof {
            lemma_varint_bytes_len(spec_header(self@));
            lemma_varint_bytes_len(self.method);
            lemma_varint_bytes_len(self.id);
        }
        varinteger::length(self.header()) + varinteger::length(self.method) + varinteger::length(
            self.id,
        ) + self.body.len()
    }

    /// The length of the whole frame.
    pub fn encoded_len(&self) -> (r: usize)
        requires
            body_fits(self@),
        ensures
            r == spec_frame(self@).len(),
    {
        let body_len = self.body_len();
        proof {
            lemma_varint_bytes_len(spec_header(self@));
            lemma_varint_bytes_len(self.method);
            lemma_varint_bytes_len(self.id);
            lemma_varint_bytes_len(body_len as u64);
        }
        let len = body_len + varinteger::length(body_len as u64);
        len
    }

    /// Writes the frame of the message into `buf`, which is exactly as long as
    /// the frame.
    pub fn encode(&self, buf: &mut [u8]) -> (r: std::io::Result<()>)
        requires
            body_fits(self@),
            old(buf)@.len() == spec_frame(self@).len(),
        ensures
            r is Ok,
            final(buf)@ == spec_frame(self@),
    {
        let ghost m = self@;
        let ghost h = spec_header(m);
        let ghost l = spec_body_len(m) as u64;
        let ghost old_buf = buf@;
        let body_len = self.body_len();
        let header = self.header();
        proof {
            lemma_varint_bytes_len(h);
            lemma_varint_bytes_len(m.method);
            lemma_varint_bytes_len(m.id);
            lemma_varint_bytes_len(l);
        }
        let mut offset: usize = 0;
        offset += varinteger::encode_with_offset(body_len as u64, buf, offset);
        assert(buf@.take(offset as int) =~= varint_bytes(l));
        offset += varinteger::encode_with_offset(header, buf, offset);
        assert(buf@.take(offset as int) =~= varint_bytes(l) + varint_bytes(h));
        offset += varinteger::encode_with_offset(self.method, buf, offset);
        assert(buf@.take(offset as int) =~= varint_bytes(l) + varint_bytes(h) + varint_bytes(
            m.method,
        ));
        offset += varinteger::encode_with_offset(self.id, buf, offset);
        let ghost head = varint_bytes(l) + varint_bytes(h) + varint_bytes(m.method) + varint_bytes(
            m.id,
        );
        assert(buf@.take(offset as int) =~= head);
        assert(buf@.len() == old_buf.len());
        assert(offset + self.body.len() == buf@.len());
        let blen = buf.len();
        let mut i: usize = 0;
        while i < self.body.len()
            invariant
                i <= self.body.len(),
                buf@.len() == blen,
                offset + self.body.len() == buf@.len(),
                buf@.take(offset as int) == head,
                buf@.subrange(offset as int, offset + i) == self.body@.take(i as int),
            decreases self.body.len() - i,
        {
            buf[offset + i] = self.body[i];
            i += 1;
            assert(buf@.take(offset as int) =~= head);
            assert(buf@.subrange(offset as int, offset + i) =~= self.body@.take(i as int));
        }
        assert(buf@ =~= head + m.body) by {
            assert(buf@ =~= buf@.take(offset as int) + buf@.subrange(offset as int, buf@.len() as int));
            assert(self.body@.take(self.body.len() as int) =~= self.body@);
        }
        Ok(())
    }
}

} // verus!
