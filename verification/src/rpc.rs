//! Requests, responses, and the decisions of a connection: which incoming
//! message goes where, which id an outgoing request gets, and what a service
//! call is answered with.
use vstd::prelude::*;
use vstd::utf8::encode_utf8;
use crate::message::{Address, Message, MessageType, MessageView};
use crate::sessions::{sessions_have_room, sessions_wf, spec_insert, spec_take, InnerSessions};

verus! {

/// Marks the clients that the code generator writes.
pub trait RpcClient {}

/// A request to a service.
pub struct Request {
    message: Message,
}

impl View for Request {
    type V = MessageView;

    closed spec fn view(&self) -> MessageView {
        self.message@
    }
}

impl Request {
    /// A request to `method` of `service` with an encoded body.
    pub fn new(service: u64, method: u64, body: Vec<u8>) -> (r: Self)
        ensures
            r@ == (MessageView { typ: MessageType::Request, service, method, id: 0, body: body@ }),
    {
        Self { message: Message::request(service, method, body) }
    }

    pub fn from_message(message: Message) -> (r: Self)
        ensures
            r@ == message@,
    {
        Self { message }
    }

    pub fn method(&self) -> (r: u64)
        ensures
            r == self@.method,
    {
        self.message.method
    }

    pub fn service(&self) -> (r: u64)
        ensures
            r == self@.service,
    {
        self.message.service
    }

    pub fn body(&self) -> (r: &[u8])
        ensures
            r@ == self@.body,
    {
        self.message.body.as_slice()
    }

    pub fn id(&self) -> (r: u64)
        ensures
            r == self@.id,
    {
        self.message.id
    }

    pub fn address(&self) -> (r: Address)
        ensures
            r == (self@.service, self@.method, self@.id),
    {
        self.message.address()
    }

    pub fn take_message(self) -> (r: Message)
        ensures
            r@ == self@,
    {
        self.message
    }
}

/// The answer of a service to a request.
pub struct Response {
    message: Message,
}

impl View for Response {
    type V = MessageView;

    closed spec fn view(&self) -> MessageView {
        self.message@
    }
}

impl Response {
    pub fn from_message(message: Message) -> (r: Self)
        ensures
            r@ == message@,
    {
        Self { message }
    }

    /// The response to `request` with an encoded body.
    pub fn from_request(request: Request, body: Vec<u8>) -> (r: Self)
        ensures
            r@ == (MessageView { typ: MessageType::Response, body: body@, ..request@ }),
    {
        Response::from_message(request.take_message().into_response(Ok(body)))
    }

    /// A response with an encoded body, not yet addressed.
    pub fn from_body(body: Vec<u8>) -> (r: Self)
        ensures
            r@ == (MessageView { typ: MessageType::Response, service: 0, method: 0, id: 0, body: body@ }),
    {
        Response::from_message(Message::prepare_response(body))
    }

    /// An error answer with the error's text, not yet addressed.
    pub fn error(error: &str) -> (r: Self)
        ensures
            r@ == (MessageView {
                typ: MessageType::Error,
                service: 0,
                method: 0,
                id: 0,
                body: encode_utf8(error@),
            }),
    {
        Response::from_message(Message::prepare_error(error))
    }

    pub fn set_address(&mut self, address: Address)
        ensures
            final(self)@ == (MessageView {
                service: address.0,
                method: address.1,
                id: address.2,
                ..old(self)@
            }),
    {
        self.message.set_address(address)
    }

    pub fn take_message(self) -> (r: Message)
        ensures
            r@ == self@,
    {
        self.message
    }
}

impl From<Message> for Response {
    fn from(message: Message) -> (r: Self) {
        Response { message }
    }
}

impl vstd::std_specs::convert::FromSpecImpl<Message> for Response {
    open spec fn obeys_from_spec() -> bool {
        true
    }

    closed spec fn from_spec(message: Message) -> Self {
        Response { message }
    }
}

/// What came of handing a request to the services.
pub enum ServiceOutcome {
    /// No service has the request's service id.
    NotFound,
    /// The service's answer, or the text of its error.
    Handled(Result<Response, String>),
}

/// The text of the error that answers a request to a missing service.
pub open spec fn service_not_implemented() -> Seq<char> {
    "Service not implemented"@
}

/// The message that answers a request at `address` (its id is `address.2`),
/// given what the services made of it: none when the request carries id 0
/// (it wants no reply); else the service's response, or an error with the
/// error's text, or an error for a missing service, sent to the request's
/// address.
pub open spec fn spec_answer(address: Address, outcome: ServiceOutcome) -> Option<MessageView> {
    if address.2 == 0 {
        None
    } else {
        let (typ, body) = match outcome {
            ServiceOutcome::NotFound => (MessageType::Error, encode_utf8(service_not_implemented())),
            ServiceOutcome::Handled(Ok(response)) => (response@.typ, response@.body),
            ServiceOutcome::Handled(Err(e)) => (MessageType::Error, encode_utf8(e@)),
        };
        Some(MessageView { typ, service: address.0, method: address.1, id: address.2, body })
    }
}

/// A request with id 0 wants no reply and gets none, whatever its service
/// made of it; any other request gets exactly one reply, sent to its own
/// address: the service's response as it is, or an error that carries the
/// service's error text, or the text that says no service has its id.
pub proof fn lemma_answer_law(address: Address, outcome: ServiceOutcome)
    ensures
        address.2 == 0 ==> spec_answer(address, outcome) is None,
        address.2 != 0 ==> spec_answer(address, outcome) is Some,
        spec_answer(address, outcome) matches Some(m) ==> m.service == address.0 && m.method
            == address.1 && m.id == address.2,
        spec_answer(address, outcome) matches Some(m) ==> match outcome {
            ServiceOutcome::NotFound => m.typ == MessageType::Error && m.body == encode_utf8(
                "Service not implemented"@,
            ),
            ServiceOutcome::Handled(Ok(response)) => m.typ == response@.typ && m.body
                == response@.body,
            ServiceOutcome::Handled(Err(e)) => m.typ == MessageType::Error && m.body == encode_utf8(
                e@,
            ),
        },
{
}

/// Answers a request at `address`, as `spec_answer` says.
pub fn answer(address: Address, outcome: ServiceOutcome) -> (r: Option<Message>)
    ensures
        match r {
            Some(m) => spec_answer(address, outcome) == Some(m@),
            None => spec_answer(address, outcome) is None,
        },
        r is None <==> address.2 == 0,
        r matches Some(m) ==> m@.service == address.0 && m@.method == address.1 && m@.id == address.2,
        r matches Some(m) ==> match outcome {
            ServiceOutcome::NotFound => m@.typ == MessageType::Error && m@.body == encode_utf8(
                "Service not implemented"@,
            ),
            ServiceOutcome::Handled(Ok(response)) => m@.typ == response@.typ && m@.body
                == response@.body,
            ServiceOutcome::Handled(Err(e)) => m@.typ == MessageType::Error && m@.body == encode_utf8(
                e@,
            ),
        },
{
    let id = address.2;
    let response = match outcome {
        ServiceOutcome::Handled(response) => {
            if id != 0 {
                let response = match response {
                    Ok(response) => response,
                    Err(error) => Response::error(error.as_str()),
                };
                Some(response)
            } else {
                None
            }
        },
        ServiceOutcome::NotFound => {
            if id != 0 {
                Some(Response::error("Service not implemented"))
            } else {
                None
            }
        },
    };
    if let Some(mut response) = response {
        response.set_address(address);
        Some(response.take_message())
    } else {
        None
    }
}

/// Where an incoming message goes.
pub enum Incoming<T> {
    /// A request, for the services.
    Request(Request),
    /// A response or an error, with what delivers it to the waiting request.
    Reply(T, Message),
}

/// An incoming response or error whose request id no request awaits.
#[derive(Debug, Clone, Copy, PartialEq, Eq, Structural)]
pub enum RouteError {
    InvalidRequestId,
}

/// Routes an incoming message: requests go to the services; a response or
/// an error goes to the request that awaits its id, whose id becomes free.
pub fn route_incoming<T>(sessions: &mut InnerSessions<T>, message: Message) -> (r: Result<
    Incoming<T>,
    RouteError,
>)
    requires
        sessions_wf(old(sessions)@),
    ensures
        sessions_wf(final(sessions)@),
        message.typ == MessageType::Request ==> final(sessions)@ == old(sessions)@ && (r matches Ok(
            Incoming::Request(q)) && q@ == message@),
        message.typ != MessageType::Request ==> {
            let (after, item) = spec_take(old(sessions)@, message.id);
            &&& final(sessions)@ == after
            &&& match item {
                Some(t) => r matches Ok(Incoming::Reply(u, m)) && u == t && m@ == message@,
                None => r == Err::<Incoming<T>, RouteError>(RouteError::InvalidRequestId),
            }
        },
{
    match message.typ() {
        MessageType::Request => Ok(Incoming::Request(Request::from_message(message))),
        MessageType::Response | MessageType::Error => {
            let reply_tx = sessions.take(&message.id);
            if let Some(reply_tx) = reply_tx {
                Ok(Incoming::Reply(reply_tx, message))
            } else {
                Err(RouteError::InvalidRequestId)
            }
        },
    }
}

/// Prepares an outgoing request: it awaits its reply under a fresh request
/// id, which it carries.
pub fn register_request<T>(sessions: &mut InnerSessions<T>, message: Message, reply: T) -> (r:
    Message)
    requires
        sessions_wf(old(sessions)@),
        sessions_have_room(old(sessions)@),
    ensures
        sessions_wf(final(sessions)@),
        (final(sessions)@, r.id) == spec_insert(old(sessions)@, reply),
        r@ == (MessageView { typ: MessageType::Request, id: r.id, ..message@ }),
{
    let mut message = message;
    let id = sessions.insert(reply);
    message.set_request(id);
    message
}

} // verus!
