//! The typed redesign of the core API: messages whose bodies are values of
//! the service's request and response types.
use vstd::prelude::*;
use std::sync::Arc;
use crate::messages::ErrorMessage;
use crate::message::{spec_body_len, spec_frame, spec_header, type_code, MessageType, MessageView};
use crate::sessions::{sessions_have_room, sessions_wf, spec_insert, spec_take, InnerSessions};

verus! {

#[verifier::external_type_specification]
#[verifier::external_body]
pub struct ExDecodeError(prost::DecodeError);

#[verifier::external_type_specification]
#[verifier::external_body]
pub struct ExEncodeError(prost::EncodeError);

/// `prost::DecodeError`'s derived `clone` copies the error.
pub assume_specification[ <prost::DecodeError as Clone>::clone ](e: &prost::DecodeError) -> (r:
    prost::DecodeError)
    ensures
        r == *e,
;

/// `prost::EncodeError`'s derived `clone` copies the error.
pub assume_specification[ <prost::EncodeError as Clone>::clone ](e: &prost::EncodeError) -> (r:
    prost::EncodeError)
    ensures
        r == *e,
;

/// What can go wrong in a call.
#[derive(Clone, Debug)]
pub enum RpcError {
    Io(Arc<std::io::Error>),
    Decode(prost::DecodeError),
    Encode(prost::EncodeError),
    MessageMismatch,
    MethodNotImplemented,
    Remote(ErrorMessage),
}

/// The text that describes an error.
pub open spec fn error_text(e: RpcError) -> Seq<char> {
    match e {
        RpcError::Io(_) => "IO error"@,
        RpcError::Decode(_) => "Decode error"@,
        RpcError::Encode(_) => "Encode error"@,
        RpcError::MessageMismatch => "Message does not match"@,
        RpcError::MethodNotImplemented => "Method not implemented"@,
        RpcError::Remote(m) => m.message@,
    }
}

impl RpcError {
    /// The error as it travels to the peer: a remote error as it came, any
    /// other as its text.
    pub fn to_message(&self) -> (r: ErrorMessage)
        ensures
            r.message@ == error_text(*self),
    {
        match self {
            RpcError::Remote(message) => ErrorMessage { message: message.message.clone() },
            RpcError::Io(_) => ErrorMessage { message: "IO error".to_owned() },
            RpcError::Decode(_) => ErrorMessage { message: "Decode error".to_owned() },
            RpcError::Encode(_) => ErrorMessage { message: "Encode error".to_owned() },
            RpcError::MessageMismatch => ErrorMessage { message: "Message does not match".to_owned() },
            RpcError::MethodNotImplemented => ErrorMessage {
                message: "Method not implemented".to_owned(),
            },
        }
    }
}

/// An error message from the peer is a remote error.
impl From<ErrorMessage> for RpcError {
    fn from(e: ErrorMessage) -> (r: Self) {
        Self::Remote(e)
    }
}

impl vstd::std_specs::convert::FromSpecImpl<ErrorMessage> for RpcError {
    open spec fn obeys_from_spec() -> bool {
        true
    }

    open spec fn from_spec(e: ErrorMessage) -> Self {
        RpcError::Remote(e)
    }
}

/// An I/O error.
impl From<std::io::Error> for RpcError {
    fn from(e: std::io::Error) -> (r: Self) {
        let a = Arc::new(e);
        assert(shared_error(a) == e);
        Self::Io(a)
    }
}

impl vstd::std_specs::convert::FromSpecImpl<std::io::Error> for RpcError {
    open spec fn obeys_from_spec() -> bool {
        true
    }

    open spec fn from_spec(e: std::io::Error) -> Self {
        RpcError::Io(choose|a: Arc<std::io::Error>| #[trigger] shared_error(a) == e)
    }
}

/// The error that a shared I/O error shares.
pub open spec fn shared_error(a: Arc<std::io::Error>) -> std::io::Error {
    *a
}

/// A shared I/O error.
impl From<Arc<std::io::Error>> for RpcError {
    fn from(e: Arc<std::io::Error>) -> (r: Self) {
        Self::Io(e)
    }
}

impl vstd::std_specs::convert::FromSpecImpl<Arc<std::io::Error>> for RpcError {
    open spec fn obeys_from_spec() -> bool {
        true
    }

    open spec fn from_spec(e: Arc<std::io::Error>) -> Self {
        RpcError::Io(e)
    }
}

/// A body that did not decode.
impl From<prost::DecodeError> for RpcError {
    fn from(e: prost::DecodeError) -> (r: Self) {
        Self::Decode(e)
    }
}

impl vstd::std_specs::convert::FromSpecImpl<prost::DecodeError> for RpcError {
    open spec fn obeys_from_spec() -> bool {
        true
    }

    open spec fn from_spec(e: prost::DecodeError) -> Self {
        RpcError::Decode(e)
    }
}

/// A body that did not fit its buffer.
impl From<prost::EncodeError> for RpcError {
    fn from(e: prost::EncodeError) -> (r: Self) {
        Self::Encode(e)
    }
}

impl vstd::std_specs::convert::FromSpecImpl<prost::EncodeError> for RpcError {
    open spec fn obeys_from_spec() -> bool {
        true
    }

    open spec fn from_spec(e: prost::EncodeError) -> Self {
        RpcError::Encode(e)
    }
}

/// Marks the types that travel as message bodies.
pub trait RpcMessageBody {}

/// The body of a typed message.
#[derive(Clone, Debug)]
pub enum Body<Req, Res> {
    Request(Req),
    Response(Res),
    Error(RpcError),
}

/// A typed message of one method.
#[derive(Clone, Debug)]
pub struct Message<Req, Res> {
    body: Body<Req, Res>,
    request_id: u64,
}

impl<Req, Res> Message<Req, Res> {
    pub closed spec fn spec_body(&self) -> Body<Req, Res> {
        self.body
    }

    pub closed spec fn spec_request_id(&self) -> u64 {
        self.request_id
    }

    /// The two-bit code of the body's kind.
    pub open spec fn spec_typ(&self) -> u8 {
        match self.spec_body() {
            Body::Request(_) => 0,
            Body::Response(_) => 1,
            Body::Error(_) => 2,
        }
    }

    pub fn request(request: Req) -> (r: Self)
        ensures
            r.spec_body() == Body::<Req, Res>::Request(request),
            r.spec_request_id() == 0,
    {
        Self { body: Body::Request(request), request_id: 0 }
    }

    pub fn response(response: Res) -> (r: Self)
        ensures
            r.spec_body() == Body::<Req, Res>::Response(response),
            r.spec_request_id() == 0,
    {
        Self { body: Body::Response(response), request_id: 0 }
    }

    /// A message of the given kind with a decoded body.
    pub fn from_body(request_id: u64, body: Body<Req, Res>) -> (r: Self)
        ensures
            r.spec_body() == body,
            r.spec_request_id() == request_id,
    {
        Self { request_id, body }
    }

    pub fn body(&self) -> (r: &Body<Req, Res>)
        ensures
            *r == self.spec_body(),
    {
        &self.body
    }

    pub fn as_request(&self) -> (r: Result<&Req, RpcError>)
        ensures
            match self.spec_body() {
                Body::Request(q) => r == Ok::<&Req, RpcError>(&q),
                _ => r == Err::<&Req, RpcError>(RpcError::MessageMismatch),
            },
    {
        match &self.body {
            Body::Request(req) => Ok(req),
            _ => Err(RpcError::MessageMismatch),
        }
    }

    pub fn as_response(&self) -> (r: Result<&Res, RpcError>)
        ensures
            match self.spec_body() {
                Body::Response(s) => r == Ok::<&Res, RpcError>(&s),
                _ => r == Err::<&Res, RpcError>(RpcError::MessageMismatch),
            },
    {
        match &self.body {
            Body::Response(res) => Ok(res),
            _ => Err(RpcError::MessageMismatch),
        }
    }

    /// The response, or the error that came instead; a request is no answer.
    pub fn into_response(self) -> (r: Result<Res, RpcError>)
        ensures
            match self.spec_body() {
                Body::Response(s) => r == Ok::<Res, RpcError>(s),
                Body::Error(e) => r == Err::<Res, RpcError>(e),
                Body::Request(_) => r == Err::<Res, RpcError>(RpcError::MessageMismatch),
            },
    {
        match self.body {
            Body::Response(res) => Ok(res),
            Body::Error(err) => Err(err),
            Body::Request(_) => Err(RpcError::MessageMismatch),
        }
    }

    pub fn convert_to_response(&mut self, response: Res)
        ensures
            final(self).spec_body() == Body::<Req, Res>::Response(response),
            final(self).spec_request_id() == old(self).spec_request_id(),
    {
        self.body = Body::Response(response)
    }

    pub fn replace_body(&mut self, body: Body<Req, Res>)
        ensures
            final(self).spec_body() == body,
            final(self).spec_request_id() == old(self).spec_request_id(),
    {
        self.body = body
    }

    /// The answer to this request, under its request id: the response, or
    /// the error. Only a request can be answered.
    pub fn reply(&self, response: Result<Res, RpcError>) -> (r: Result<Message<Req, Res>, RpcError>)
        ensures
            !(self.spec_body() is Request) ==> r == Err::<Message<Req, Res>, RpcError>(
                RpcError::MessageMismatch,
            ),
            self.spec_body() is Request ==> (r matches Ok(m) && m.spec_request_id()
                == self.spec_request_id() && m.spec_body() == match response {
                Ok(s) => Body::<Req, Res>::Response(s),
                Err(e) => Body::<Req, Res>::Error(e),
            }),
    {
        if !matches!(self.body, Body::Request(_)) {
            Err(RpcError::MessageMismatch)
        } else {
            let body = match response {
                Ok(res) => Body::Response(res),
                Err(e) => Body::Error(e),
            };
            let message = Self { request_id: self.request_id, body };
            Ok(message)
        }
    }

    pub fn request_id(&self) -> (r: u64)
        ensures
            r == self.spec_request_id(),
    {
        self.request_id
    }

    pub fn set_request_id(&mut self, request_id: u64)
        ensures
            final(self).spec_request_id() == request_id,
            final(self).spec_body() == old(self).spec_body(),
    {
        self.request_id = request_id
    }

    pub fn is_response(&self) -> (r: bool)
        ensures
            r == (self.spec_body() is Response || self.spec_body() is Error),
    {
        matches!(self.body, Body::Response(_) | Body::Error(_))
    }

    pub fn is_request(&self) -> (r: bool)
        ensures
            r == self.spec_body() is Request,
    {
        matches!(self.body, Body::Request(_))
    }

    pub fn typ(&self) -> (r: u8)
        ensures
            r == self.spec_typ(),
    {
        match self.body {
            Body::Request(_) => 0,
            Body::Response(_) => 1,
            Body::Error(_) => 2,
        }
    }

    /// The message kind of the body.
    pub open spec fn spec_message_type(&self) -> MessageType {
        match self.spec_body() {
            Body::Request(_) => MessageType::Request,
            Body::Response(_) => MessageType::Response,
            Body::Error(_) => MessageType::Error,
        }
    }

    /// Each kind of body has its own message type and two-bit code on the
    /// wire: a request 0, a response 1, an error 2; the type that the frame
    /// carries is the one whose code the header holds.
    pub proof fn lemma_kind_codes(&self)
        ensures
            self.spec_body() is Request ==> self.spec_message_type() == MessageType::Request
                && self.spec_typ() == 0,
            self.spec_body() is Response ==> self.spec_message_type() == MessageType::Response
                && self.spec_typ() == 1,
            self.spec_body() is Error ==> self.spec_message_type() == MessageType::Error
                && self.spec_typ() == 2,
            type_code(self.spec_message_type()) == self.spec_typ(),
    {
    }

    /// The wire form of this message as a plain message, for a service and
    /// method id and the encoded body.
    pub open spec fn spec_wire(&self, service_id: u64, method_id: u64, body: Seq<u8>) -> MessageView {
        MessageView {
            typ: self.spec_message_type(),
            service: service_id,
            method: method_id,
            id: self.spec_request_id(),
            body,
        }
    }

    pub fn header(&self, service_id: u64) -> (r: u64)
        ensures
            r == (service_id << 2u64) | (self.spec_typ() as u64),
    {
        (service_id << 2) | self.typ() as u64
    }

    /// The frame's length prefix, for an encoded body of `body_len` bytes.
    pub fn message_len(&self, service_id: u64, method_id: u64, body: &[u8]) -> (r: usize)
        requires
            body@.len() + 40 <= usize::MAX,
        ensures
            r == spec_body_len(self.spec_wire(service_id, method_id, body@)),
    {
        let m = self.wire(service_id, method_id, body);
        m.body_len()
    }

    /// The length of the frame, for an encoded body.
    pub fn encoded_len(&self, service_id: u64, method_id: u64, body: &[u8]) -> (r: usize)
        requires
            body@.len() + 40 <= usize::MAX,
        ensures
            r == spec_frame(self.spec_wire(service_id, method_id, body@)).len(),
    {
        let m = self.wire(service_id, method_id, body);
        m.encoded_len()
    }

    /// Writes the frame of this message, with an encoded body, into `buf`,
    /// which is exactly as long as the frame.
    pub fn encode(&self, buf: &mut [u8], service_id: u64, method_id: u64, body: &[u8]) -> (r:
        Result<(), RpcError>)
        requires
            body@.len() + 40 <= usize::MAX,
            old(buf)@.len() == spec_frame(self.spec_wire(service_id, method_id, body@)).len(),
        ensures
            r is Ok,
            final(buf)@ == spec_frame(self.spec_wire(service_id, method_id, body@)),
            spec_header(self.spec_wire(service_id, method_id, body@)) == (service_id << 2u64) | (
            self.spec_typ() as u64),
            self.spec_wire(service_id, method_id, body@).id == self.spec_request_id(),
            self.spec_wire(service_id, method_id, body@).method == method_id,
            self.spec_wire(service_id, method_id, body@).body == body@,
    {
        proof {
            self.lemma_kind_codes();
        }
        let m = self.wire(service_id, method_id, body);
        let _ = m.encode(buf);
        Ok(())
    }

    /// This message as a plain message.
    fn wire(&self, service_id: u64, method_id: u64, body: &[u8]) -> (r: crate::message::Message)
        ensures
            r@ == self.spec_wire(service_id, method_id, body@),
            type_code(r@.typ) == self.spec_typ(),
    {
        let typ = match self.body {
            Body::Request(_) => MessageType::Request,
            Body::Response(_) => MessageType::Response,
            Body::Error(_) => MessageType::Error,
        };
        crate::message::Message {
            typ,
            service: service_id,
            method: method_id,
            id: self.request_id,
            body: crate::message::copy_bytes(body),
        }
    }
}

/// Wraps a typed message in its method's variant, and that in its service's.
pub fn upcast<Co, Ci, S, Si, Req, Res>(outer_c: Co, inner_c: Ci, message: Message<Req, Res>) -> (r: S) where
    Co: Fn(Si) -> S,
    Ci: Fn(Message<Req, Res>) -> Si,

    requires
        call_requires(inner_c, (message,)),
        forall|si: Si| call_requires(outer_c, (si,)),
    ensures
        exists|si: Si| call_ensures(inner_c, (message,), si) && call_ensures(outer_c, (si,), r),
{
    let service = (inner_c)(message);
    let services = (outer_c)(service);
    services
}

/// Where an incoming typed message goes.
pub enum Inbound<T> {
    /// A response or error for a waiting request, with what delivers it.
    Deliver(T),
    /// A response or error that no request awaits; it is dropped.
    Unmatched,
    /// A request, for the handler.
    Forward,
}

/// Routes an incoming message: a response or an error goes to the request
/// that awaits its id (whose id becomes free); a request goes on.
pub fn route_inbound<T>(sessions: &mut InnerSessions<T>, is_response: bool, request_id: u64) -> (r:
    Inbound<T>)
    requires
        sessions_wf(old(sessions)@),
    ensures
        sessions_wf(final(sessions)@),
        !is_response ==> final(sessions)@ == old(sessions)@ && r is Forward,
        is_response ==> {
            let (after, item) = spec_take(old(sessions)@, request_id);
            &&& final(sessions)@ == after
            &&& match item {
                Some(t) => r == Inbound::Deliver(t),
                None => r is Unmatched,
            }
        },
{
    if is_response {
        if let Some(reply_tx) = sessions.take(&request_id) {
            Inbound::Deliver(reply_tx)
        } else {
            Inbound::Unmatched
        }
    } else {
        Inbound::Forward
    }
}

/// Registers an outgoing message: a request that wants its reply awaits it
/// under a fresh id, returned to be set on the message; anything else gets
/// no id.
pub fn register_outbound<T>(sessions: &mut InnerSessions<T>, is_request: bool, reply: Option<T>) -> (r:
    Option<u64>)
    requires
        sessions_wf(old(sessions)@),
        is_request && reply is Some ==> sessions_have_room(old(sessions)@),
    ensures
        sessions_wf(final(sessions)@),
        match (is_request, reply) {
            (true, Some(t)) => r matches Some(id) && (final(sessions)@, id) == spec_insert(
                old(sessions)@,
                t,
            ),
            _ => r is None && final(sessions)@ == old(sessions)@,
        },
{
    if is_request {
        if let Some(reply_tx) = reply {
            let request_id = sessions.insert(reply_tx);
            return Some(request_id);
        }
    }
    None
}

} // verus!
