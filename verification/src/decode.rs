//! The incremental parser of the wire protocol.
//!
//! The wire protocol is `<len><header><method><id><message>`: `len`,
//! `header`, `method` and `id` are varints, `message` is bytes, `len` is the
//! total length of `header`, `method`, `id` and `message`, the message type is
//! `header & 3` and the service `header >> 2`.
//!
//! The parser is modelled byte by byte (`step`, `feed`); the executable
//! parser takes bytes in chunks of any size and is proved to agree with the
//! model, so what it decodes does not depend on how the stream was cut.
use vstd::prelude::*;
use crate::message::{
    spec_body_len, spec_frame, spec_header, type_code, type_of_code, MessageType, MessageView,
};
use crate::varint::{
    lemma_pow128_bounds, lemma_scan_encoded, lemma_varint_bytes_len, lemma_varint_scan_bounds,
    pow128, shift_scan, varint_bytes, varint_end,
    varint_scan, varint_step, VarintScan, VarintStep,
};

verus! {

/// The largest value of a frame's length prefix (4 MiB).
pub const MAX_MESSAGE_SIZE: u64 = 4194304;

/// Why a byte stream is not a sequence of frames.
#[derive(Debug, Clone, Copy, PartialEq, Eq, Structural)]
pub enum WireError {
    /// A varint longer than ten bytes or above `u64::MAX`.
    InvalidVarint,
    /// A length prefix above `MAX_MESSAGE_SIZE`.
    MessageTooLong,
    /// A length prefix shorter than the header, method and id after it.
    InvalidMessage,
    /// A header whose two low bits are `3`.
    InvalidMessageType,
}

/// The part of a frame that the parser reads next.
#[derive(Debug, Clone, Copy, PartialEq, Eq, Structural)]
pub enum State {
    Length,
    Header,
    Method,
    Id,
    Message,
}

/// The part of a frame that follows `s`; after the body comes the next
/// frame's length.
pub open spec fn next_state(s: State) -> State {
    match s {
        State::Length => State::Header,
        State::Header => State::Method,
        State::Method => State::Id,
        State::Id => State::Message,
        State::Message => State::Length,
    }
}

/// The parts of a frame form a cycle of five: moving on five times comes
/// back to the part one started from, and no two parts in between are the same.
pub proof fn lemma_next_state_cycle(s: State)
    ensures
        next_state(next_state(next_state(next_state(next_state(s))))) == s,
        next_state(s) != s,
        next_state(next_state(s)) != s,
        next_state(next_state(next_state(s))) != s,
        next_state(next_state(next_state(next_state(s)))) != s,
{
}

/// The parser as a plain value.
pub struct ParserView {
    pub state: State,
    /// The value of the varint being read, over the bytes read so far.
    pub acc: u64,
    /// How many bytes of the varint being read have been read.
    pub digits: nat,
    /// How many bytes of header, method, id and body have been read.
    pub consumed: nat,
    pub length: u64,
    pub header: u64,
    pub method: u64,
    pub id: u64,
    pub body: Seq<u8>,
}

/// The parser between two frames.
pub open spec fn initial_view() -> ParserView {
    ParserView {
        state: State::Length,
        acc: 0,
        digits: 0,
        consumed: 0,
        length: 0,
        header: 0,
        method: 0,
        id: 0,
        body: Seq::empty(),
    }
}

/// The message that a frame's header, method, id and body stand for.
pub open spec fn raw_message(header: u64, method: u64, id: u64, body: Seq<u8>) -> Result<
    MessageView,
    WireError,
> {
    match type_of_code(header & 3) {
        Some(typ) => Ok(MessageView { typ, service: header >> 2u64, method, id, body }),
        None => Err(WireError::InvalidMessageType),
    }
}

/// What one step of the parser gives: the parser afterwards and the message
/// whose frame the step ended, or an error and the parser afterwards.
pub type StepResult = Result<(ParserView, Option<MessageView>), (WireError, ParserView)>;

/// An error after which the parser waits for a new frame.
pub open spec fn restart(e: WireError) -> StepResult {
    Err((e, initial_view()))
}

/// The end of a frame: the message, and the parser back between frames. A
/// frame of the type code 3 leaves the parser at the end of that frame,
/// where it refuses it again on every later call.
pub open spec fn finish(p: ParserView, body: Seq<u8>) -> StepResult {
    match raw_message(p.header, p.method, p.id, body) {
        Ok(m) => Ok((initial_view(), Some(m))),
        Err(e) => Err((e, ParserView { state: State::Message, body, consumed: p.length as nat, ..p })),
    }
}

/// The parser at the end of a frame that it refused for its type: it takes
/// no more bytes.
pub open spec fn stuck(p: ParserView) -> bool {
    p.state == State::Message && p.consumed >= p.length
}

/// What the parser does with a varint of value `v` that it has just read
/// (`p` already counts its bytes and has its accumulator cleared).
pub open spec fn varint_done(p: ParserView, v: u64) -> StepResult {
    match p.state {
        State::Length => if v > MAX_MESSAGE_SIZE {
            restart(WireError::MessageTooLong)
        } else {
            Ok((ParserView { state: State::Header, length: v, ..p }, None))
        },
        State::Header => Ok((ParserView { state: State::Method, header: v, ..p }, None)),
        State::Method => Ok((ParserView { state: State::Id, method: v, ..p }, None)),
        State::Id => {
            let q = ParserView { id: v, ..p };
            if p.length < p.consumed {
                restart(WireError::InvalidMessage)
            } else if p.length == p.consumed {
                finish(q, Seq::empty())
            } else {
                Ok((ParserView { state: State::Message, ..q }, None))
            }
        },
        State::Message => Ok((p, None)),
    }
}

/// `p.consumed`, plus `k` where the bytes belong to header, method, id or body.
pub open spec fn counted(p: ParserView, k: nat) -> nat {
    if p.state == State::Length {
        p.consumed
    } else {
        p.consumed + k
    }
}

/// What the parser does with one byte.
pub open spec fn step(p: ParserView, b: u8) -> StepResult {
    if stuck(p) {
        Err((WireError::InvalidMessageType, p))
    } else if p.state == State::Message {
        let body = p.body.push(b);
        if p.consumed + 1 < p.length {
            Ok((ParserView { body, consumed: p.consumed + 1, ..p }, None))
        } else {
            finish(p, body)
        }
    } else {
        match varint_step(p.acc, p.digits, b) {
            VarintStep::Invalid => restart(WireError::InvalidVarint),
            VarintStep::More(a, d) => Ok(
                (ParserView { acc: a, digits: d, consumed: counted(p, 1), ..p }, None),
            ),
            VarintStep::Done(v) => varint_done(
                ParserView { acc: 0, digits: 0, consumed: counted(p, 1), ..p },
                v,
            ),
        }
    }
}

/// What feeding a stream of bytes gives: the parser afterwards, the messages
/// decoded, and the error that stopped it, if one did.
pub struct Fed {
    pub state: ParserView,
    pub messages: Seq<MessageView>,
    pub error: Option<WireError>,
}

pub open spec fn option_seq<T>(o: Option<T>) -> Seq<T> {
    match o {
        Some(x) => seq![x],
        None => Seq::empty(),
    }
}

/// An error: nothing decoded, the parser back between frames.
pub open spec fn fed_error(e: WireError) -> Fed {
    fed_fail(e, initial_view())
}

/// An error, and the parser afterwards.
pub open spec fn fed_fail(e: WireError, q: ParserView) -> Fed {
    Fed { state: q, messages: Seq::empty(), error: Some(e) }
}

pub open spec fn fed_of(r: StepResult) -> Fed {
    match r {
        Ok((q, o)) => Fed { state: q, messages: option_seq(o), error: None },
        Err((e, q)) => fed_fail(e, q),
    }
}

/// Feeds `s` to the parser byte by byte, up to the first error.
pub open spec fn feed(p: ParserView, s: Seq<u8>) -> Fed
    decreases s.len(),
{
    if s.len() == 0 {
        Fed { state: p, messages: Seq::empty(), error: None }
    } else {
        match step(p, s[0]) {
            Err((e, q)) => fed_fail(e, q),
            Ok((q, o)) => {
                let r = feed(q, s.drop_first());
                Fed { state: r.state, messages: option_seq(o) + r.messages, error: r.error }
            },
        }
    }
}

/// Feeding `b` after what `r` records.
pub open spec fn then_feed(r: Fed, b: Seq<u8>) -> Fed {
    if r.error is Some {
        r
    } else {
        let r2 = feed(r.state, b);
        Fed { state: r2.state, messages: r.messages + r2.messages, error: r2.error }
    }
}

/// The frames of `ms`, one after another.
pub open spec fn frames(ms: Seq<MessageView>) -> Seq<u8>
    decreases ms.len(),
{
    if ms.len() == 0 {
        Seq::empty()
    } else {
        spec_frame(ms[0]) + frames(ms.drop_first())
    }
}

/// A message whose frame decodes to itself: its service survives the shift
/// into the header, and its frame is not too long.
pub open spec fn frame_fits(m: MessageView) -> bool {
    m.service < 0x4000_0000_0000_0000 && spec_body_len(m) <= MAX_MESSAGE_SIZE
}

/// How many bytes of `s` one call of `Parser::recv` takes: the rest of the
/// varint being read, or as much of the body as is still missing.
pub open spec fn recv_len(p: ParserView, s: Seq<u8>) -> nat {
    if p.state == State::Message {
        let rem = p.length - p.consumed;
        if s.len() < rem {
            s.len()
        } else {
            rem as nat
        }
    } else {
        varint_end(s)
    }
}

// ---------------------------------------------------------------------------
// Laws of the model.

proof fn lemma_feed_one(p: ParserView, s: Seq<u8>)
    requires
        s.len() == 1,
    ensures
        feed(p, s) == fed_of(step(p, s[0])),
{
    assert(s.drop_first().len() == 0);
    match step(p, s[0]) {
        Ok((q, o)) => {
            assert(feed(q, s.drop_first()) == Fed { state: q, messages: Seq::<MessageView>::empty(), error: None });
            assert(option_seq(o) + Seq::<MessageView>::empty() =~= option_seq(o));
        },
        Err(_) => {},
    }
}

/// Feeding two pieces one after the other is feeding them joined: what the
/// parser decodes does not depend on how the stream is cut into reads.
pub proof fn lemma_feed_append(p: ParserView, a: Seq<u8>, b: Seq<u8>)
    ensures
        feed(p, a + b) == then_feed(feed(p, a), b),
    decreases a.len(),
{
    if a.len() == 0 {
        assert(a + b =~= b);
        let r2 = feed(p, b);
        assert(Seq::<MessageView>::empty() + r2.messages =~= r2.messages);
    } else {
        assert((a + b)[0] == a[0]);
        assert((a + b).drop_first() =~= a.drop_first() + b);
        match step(p, a[0]) {
            Err(_) => {},
            Ok((q, o)) => {
                lemma_feed_append(q, a.drop_first(), b);
                let ra = feed(q, a.drop_first());
                if ra.error is None {
                    let rb = feed(ra.state, b);
                    assert(option_seq(o) + (ra.messages + rb.messages) =~= (option_seq(o)
                        + ra.messages) + rb.messages);
                }
            },
        }
    }
}

proof fn lemma_varint_end_bounds(s: Seq<u8>)
    ensures
        varint_end(s) <= s.len(),
        s.len() > 0 ==> varint_end(s) >= 1,
    decreases s.len(),
{
    if s.len() > 0 {
        lemma_varint_end_bounds(s.drop_first());
    }
}

/// Reading a varint, in any of the four varint states.
proof fn lemma_feed_varint(p: ParserView, s: Seq<u8>)
    requires
        p.state != State::Message,
    ensures
        match varint_scan(p.acc, p.digits, s) {
            VarintScan::Invalid => feed(p, s.take(varint_end(s) as int)) == fed_error(
                WireError::InvalidVarint,
            ),
            VarintScan::Done(v, k) => k == varint_end(s) && feed(p, s.take(k as int)) == fed_of(
                varint_done(ParserView { acc: 0, digits: 0, consumed: counted(p, k), ..p }, v),
            ),
            VarintScan::Partial(a, d) => varint_end(s) == s.len() && feed(p, s) == (Fed {
                state: ParserView { acc: a, digits: d, consumed: counted(p, s.len()), ..p },
                messages: Seq::empty(),
                error: None,
            }),
        },
    decreases s.len(),
{
    if s.len() == 0 {
    } else {
        let n = varint_end(s);
        lemma_varint_end_bounds(s);
        lemma_varint_end_bounds(s.drop_first());
        let t = s.take(n as int);
        assert(t[0] == s[0]);
        match varint_step(p.acc, p.digits, s[0]) {
            VarintStep::Invalid => {},
            VarintStep::Done(v) => {
                assert(n == 1);
                lemma_feed_one(p, t);
            },
            VarintStep::More(a, d2) => {
                let p1 = ParserView { acc: a, digits: d2, consumed: counted(p, 1), ..p };
                let rest = s.drop_first();
                lemma_feed_varint(p1, rest);
                assert(n == 1 + varint_end(rest));
                assert(t.drop_first() =~= rest.take(varint_end(rest) as int));
                match varint_scan(a, d2, rest) {
                    VarintScan::Invalid => {},
                    VarintScan::Done(v, k) => {
                        let r = feed(p1, rest.take(k as int));
                        assert(Seq::<MessageView>::empty() + r.messages =~= r.messages);
                        assert(counted(p1, k) == counted(p, k + 1));
                    },
                    VarintScan::Partial(a2, d3) => {
                        let r = feed(p1, rest);
                        assert(Seq::<MessageView>::empty() + r.messages =~= r.messages);
                        assert(counted(p1, rest.len()) == counted(p, s.len()));
                    },
                }
            },
        }
    }
}

/// Reading body bytes.
proof fn lemma_feed_body(p: ParserView, s: Seq<u8>)
    requires
        p.state == State::Message,
        p.consumed < p.length,
    ensures
        s.len() < p.length - p.consumed ==> feed(p, s) == (Fed {
            state: ParserView { body: p.body + s, consumed: p.consumed + s.len(), ..p },
            messages: Seq::empty(),
            error: None,
        }),
        s.len() >= p.length - p.consumed ==> feed(p, s.take(p.length - p.consumed)) == fed_of(
            finish(p, p.body + s.take(p.length - p.consumed)),
        ),
    decreases s.len(),
{
    let rem = p.length - p.consumed;
    if s.len() == 0 {
        assert(p.body + s =~= p.body);
    } else {
        let body1 = p.body.push(s[0]);
        if p.consumed + 1 < p.length {
            let p1 = ParserView { body: body1, consumed: p.consumed + 1, ..p };
            let rest = s.drop_first();
            lemma_feed_body(p1, rest);
            assert(body1 + rest =~= p.body + s);
            if s.len() < rem {
                let r = feed(p1, rest);
                assert(Seq::<MessageView>::empty() + r.messages =~= r.messages);
            } else {
                let t = s.take(rem);
                assert(t[0] == s[0]);
                assert(t.drop_first() =~= rest.take(rem - 1));
                assert(body1 + rest.take(rem - 1) =~= p.body + t);
                let r = feed(p1, rest.take(rem - 1));
                assert(Seq::<MessageView>::empty() + r.messages =~= r.messages);
            }
        } else {
            assert(rem == 1);
            let t = s.take(1);
            lemma_feed_one(p, t);
            assert(body1 =~= p.body + t);
        }
    }
}

proof fn lemma_header_fields(service: u64, typ: MessageType)
    requires
        service < 0x4000_0000_0000_0000,
    ensures
        spec_header(MessageView { typ, service, method: 0, id: 0, body: Seq::empty() }) & 3 == type_code(typ) as u64,
        spec_header(MessageView { typ, service, method: 0, id: 0, body: Seq::empty() }) >> 2u64 == service,
{
    let c = type_code(typ) as u64;
    assert(c <= 2);
    assert(((service << 2u64) | c) & 3 == c) by (bit_vector)
        requires
            c <= 2,
    ;
    assert(((service << 2u64) | c) >> 2u64 == service) by (bit_vector)
        requires
            c <= 2,
            service < 0x4000_0000_0000_0000,
    ;
}

proof fn lemma_feed_complete_varint(p: ParserView, v: u64, rest: Seq<u8>)
    requires
        p.state != State::Message,
        p.acc == 0,
        p.digits == 0,
    ensures
        feed(p, varint_bytes(v) + rest) == then_feed(
            fed_of(
                varint_done(
                    ParserView { consumed: counted(p, varint_bytes(v).len()), ..p },
                    v,
                ),
            ),
            rest,
        ),
{
    let s = varint_bytes(v);
    lemma_varint_bytes_len(v);
    reveal_with_fuel(pow128, 1);
    lemma_scan_encoded(0, 0, v, Seq::empty());
    assert(s + Seq::<u8>::empty() =~= s);
    lemma_feed_varint(p, s);
    assert(s.take(s.len() as int) =~= s);
    assert(ParserView { acc: 0, digits: 0, consumed: counted(p, s.len()), ..p } == ParserView {
        consumed: counted(p, s.len()),
        ..p
    });
    lemma_feed_append(p, s, rest);
}

/// Two ways of cutting one stream into two reads decode the same messages,
/// leave the parser in the same state and stop at the same error.
pub proof fn lemma_cuts_agree(p: ParserView, a: Seq<u8>, b: Seq<u8>, c: Seq<u8>, d: Seq<u8>)
    requires
        a + b == c + d,
    ensures
        then_feed(feed(p, a), b) == then_feed(feed(p, c), d),
{
    lemma_feed_append(p, a, b);
    lemma_feed_append(p, c, d);
}

/// A frame decodes to its message, and leaves the parser between frames.
pub proof fn lemma_decode_frame(m: MessageView)
    requires
        frame_fits(m),
    ensures
        feed(initial_view(), spec_frame(m)) == (Fed {
            state: initial_view(),
            messages: seq![m],
            error: None,
        }),
{
    let h = spec_header(m);
    let l = spec_body_len(m) as u64;
    let vh = varint_bytes(h);
    let vm = varint_bytes(m.method);
    let vi = varint_bytes(m.id);
    lemma_varint_bytes_len(h);
    lemma_varint_bytes_len(m.method);
    lemma_varint_bytes_len(m.id);
    lemma_header_fields(m.service, m.typ);
    assert(h == spec_header(MessageView { typ: m.typ, service: m.service, method: 0, id: 0, body: Seq::empty() }));
    let p0 = initial_view();
    let frame = spec_frame(m);
    // <len>
    let r0 = vh + vm + vi + m.body;
    assert(frame =~= varint_bytes(l) + r0);
    lemma_feed_complete_varint(p0, l, r0);
    let p1 = ParserView { state: State::Header, length: l, ..p0 };
    assert(varint_done(ParserView { consumed: counted(p0, varint_bytes(l).len()), ..p0 }, l)
        == Ok::<(ParserView, Option<MessageView>), (WireError, ParserView)>((p1, None)));
    // <header>
    let r1 = vm + vi + m.body;
    assert(r0 =~= vh + r1);
    lemma_feed_complete_varint(p1, h, r1);
    let p2 = ParserView { state: State::Method, header: h, consumed: vh.len(), ..p1 };
    // <method>
    let r2 = vi + m.body;
    assert(r1 =~= vm + r2);
    lemma_feed_complete_varint(p2, m.method, r2);
    let p3 = ParserView { state: State::Id, method: m.method, consumed: vh.len() + vm.len(), ..p2 };
    // <id>
    assert(r2 =~= vi + m.body);
    lemma_feed_complete_varint(p3, m.id, m.body);
    let c = vh.len() + vm.len() + vi.len();
    let q = ParserView { id: m.id, consumed: c, ..p3 };
    assert(raw_message(h, m.method, m.id, m.body) == Ok::<MessageView, WireError>(m));
    let e = Seq::<MessageView>::empty();
    if m.body.len() == 0 {
        assert(m.body =~= Seq::<u8>::empty());
        assert(feed(q, m.body) == Fed { state: q, messages: e, error: None });
        let r = feed(initial_view(), m.body);
        assert(e + e + e + seq![m] + r.messages =~= seq![m]);
    } else {
        let pm = ParserView { state: State::Message, ..q };
        lemma_feed_body(pm, m.body);
        assert(m.body.take(m.body.len() as int) =~= m.body);
        assert(Seq::<u8>::empty() + m.body =~= m.body);
        assert(e + e + e + e + seq![m] =~= seq![m]);
    }
}

/// A length prefix above `MAX_MESSAGE_SIZE` is refused at once.
pub proof fn lemma_frame_too_long(l: u64, rest: Seq<u8>)
    requires
        l > MAX_MESSAGE_SIZE,
    ensures
        feed(initial_view(), varint_bytes(l) + rest) == fed_error(WireError::MessageTooLong),
{
    lemma_feed_complete_varint(initial_view(), l, rest);
}

/// A length prefix shorter than the header, method and id that follow it is
/// refused once the id has been read.
pub proof fn lemma_frame_too_short(l: u64, header: u64, method: u64, id: u64, rest: Seq<u8>)
    requires
        l <= MAX_MESSAGE_SIZE,
        l < varint_bytes(header).len() + varint_bytes(method).len() + varint_bytes(id).len(),
    ensures
        feed(
            initial_view(),
            varint_bytes(l) + varint_bytes(header) + varint_bytes(method) + varint_bytes(id) + rest,
        ) == fed_error(WireError::InvalidMessage),
{
    let vh = varint_bytes(header);
    let vm = varint_bytes(method);
    let vi = varint_bytes(id);
    let p0 = initial_view();
    let r0 = vh + vm + vi + rest;
    assert(varint_bytes(l) + vh + vm + vi + rest =~= varint_bytes(l) + r0);
    lemma_feed_complete_varint(p0, l, r0);
    let p1 = ParserView { state: State::Header, length: l, ..p0 };
    let r1 = vm + vi + rest;
    assert(r0 =~= vh + r1);
    lemma_feed_complete_varint(p1, header, r1);
    let p2 = ParserView { state: State::Method, header, consumed: vh.len(), ..p1 };
    let r2 = vi + rest;
    assert(r1 =~= vm + r2);
    lemma_feed_complete_varint(p2, method, r2);
    let p3 = ParserView { state: State::Id, method, consumed: vh.len() + vm.len(), ..p2 };
    lemma_feed_complete_varint(p3, id, rest);
}

/// Frames one after another decode to their messages, in order.
pub proof fn lemma_decode_frames(ms: Seq<MessageView>)
    requires
        forall|i: int| 0 <= i < ms.len() ==> frame_fits(#[trigger] ms[i]),
    ensures
        feed(initial_view(), frames(ms)) == (Fed {
            state: initial_view(),
            messages: ms,
            error: None,
        }),
    decreases ms.len(),
{
    if ms.len() == 0 {
        assert(ms =~= Seq::<MessageView>::empty());
    } else {
        assert(frame_fits(ms[0]));
        lemma_decode_frame(ms[0]);
        lemma_decode_frames(ms.drop_first());
        lemma_feed_append(initial_view(), spec_frame(ms[0]), frames(ms.drop_first()));
        assert(seq![ms[0]] + ms.drop_first() =~= ms);
    }
}



// ---------------------------------------------------------------------------
// The executable parser.

/// Reads one varint, possibly over several chunks of bytes.
#[derive(Debug)]
pub struct VarintParser {
    varint: u64,
    factor: u64,
    digits: u32,
}

impl Default for VarintParser {
    fn default() -> (r: Self)
        ensures
            r.wf(),
            r.acc() == 0,
            r.digits() == 0,
    {
        Self { varint: 0, factor: 1, digits: 0 }
    }
}

impl VarintParser {
    /// The value of the bytes read so far.
    pub closed spec fn acc(&self) -> u64 {
        self.varint
    }

    /// How many bytes have been read.
    pub closed spec fn digits(&self) -> nat {
        self.digits as nat
    }

    pub closed spec fn wf(&self) -> bool {
        &&& self.digits <= 9
        &&& self.factor == pow128(self.digits as nat)
    }

    pub fn reset(&mut self)
        ensures
            final(self).wf(),
            final(self).acc() == 0,
            final(self).digits() == 0,
    {
        self.varint = 0;
        self.factor = 1;
        self.digits = 0;
    }

    /// Reads bytes of `buf` until the varint ends: its value and the number
    /// of bytes taken, or, when `buf` ends first, all of `buf` and no value.
    /// After an invalid varint or a complete one the parser starts afresh.
    pub fn recv(&mut self, buf: &[u8]) -> (res: Result<(usize, Option<u64>), WireError>)
        requires
            old(self).wf(),
        ensures
            final(self).wf(),
            match varint_scan(old(self).acc(), old(self).digits(), buf@) {
                VarintScan::Invalid => res == Err::<(usize, Option<u64>), WireError>(
                    WireError::InvalidVarint,
                ) && final(self).acc() == 0 && final(self).digits() == 0,
                VarintScan::Done(v, n) => res == Ok::<(usize, Option<u64>), WireError>(
                    (n as usize, Some(v)),
                ) && final(self).acc() == 0 && final(self).digits() == 0,
                VarintScan::Partial(a, d) => res == Ok::<(usize, Option<u64>), WireError>(
                    (buf@.len() as usize, None),
                ) && final(self).acc() == a && final(self).digits() == d,
            },
    {
        let ghost whole = varint_scan(self.acc(), self.digits(), buf@);
        assert(buf@.skip(0) =~= buf@);
        let mut i: usize = 0;
        while i < buf.len()
            invariant
                self.wf(),
                i <= buf.len(),
                whole == varint_scan(old(self).acc(), old(self).digits(), buf@),
                whole == shift_scan(varint_scan(self.acc(), self.digits(), buf@.skip(i as int)), i as nat),
            decreases buf.len() - i,
        {
            let byte = buf[i];
            let ghost d = self.digits();
            let ghost s = buf@.skip(i as int);
            let ghost acc = self.acc();
            assert(s.len() > 0);
            assert(s[0] == byte);
            let ghost full = acc + (byte % 128) as int * pow128(d);
            proof {
                lemma_pow128_bounds(d);
            }
            let digit = (byte % 128) as u64;
            let sum = match digit.checked_mul(self.factor) {
                Some(p) => p.checked_add(self.varint),
                None => None,
            };
            match sum {
                None => {
                    self.reset();
                    return Err(WireError::InvalidVarint);
                },
                Some(v) => {
                    assert(v == full);
                    if byte < 128 {
                        self.reset();
                        return Ok((i + 1, Some(v)));
                    }
                    if self.factor > u64::MAX / 128 {
                        self.reset();
                        return Err(WireError::InvalidVarint);
                    }
                    assert(s.drop_first() =~= buf@.skip(i + 1));
                    self.varint = v;
                    self.factor = self.factor * 128;
                    self.digits = self.digits + 1;
                },
            }
            i += 1;
        }
        assert(buf@.skip(i as int) =~= Seq::<u8>::empty());
        Ok((buf.len(), None))
    }
}





/// The bounds that every parser state keeps.
pub open spec fn view_wf(p: ParserView) -> bool {
    &&& p.digits <= 9
    &&& (p.state != State::Message ==> p.body.len() == 0)
    &&& (p.state == State::Length ==> p.consumed == 0)
    &&& (p.state != State::Length ==> p.length <= MAX_MESSAGE_SIZE)
    &&& (p.state == State::Header ==> p.consumed == p.digits)
    &&& (p.state == State::Method ==> p.consumed <= 10 + p.digits)
    &&& (p.state == State::Id ==> p.consumed <= 20 + p.digits)
    &&& (p.state == State::Message ==> p.acc == 0 && p.digits == 0 && p.consumed <= p.length
        && p.body.len() <= p.consumed)
    &&& (stuck(p) ==> type_of_code(p.header & 3) is None)
}

pub open spec fn option_view(m: Option<crate::message::Message>) -> Option<MessageView> {
    match m {
        Some(m) => Some(m@),
        None => None,
    }
}

pub open spec fn message_views(ms: Seq<crate::message::Message>) -> Seq<MessageView> {
    ms.map_values(|m: crate::message::Message| m@)
}

proof fn lemma_recv_len_bounds(p: ParserView, s: Seq<u8>)
    requires
        view_wf(p),
    ensures
        recv_len(p, s) <= s.len(),
{
    lemma_varint_end_bounds(s);
}

/// Parses the wire protocol from chunks of bytes of any size.
#[derive(Debug)]
pub struct Parser {
    state: State,
    varint: VarintParser,
    consumed: usize,
    length: u64,
    header: u64,
    method: u64,
    id: u64,
    body: Vec<u8>,
    body_len: usize,
}

impl View for Parser {
    type V = ParserView;

    closed spec fn view(&self) -> ParserView {
        ParserView {
            state: self.state,
            acc: self.varint.acc(),
            digits: self.varint.digits(),
            consumed: self.consumed as nat,
            length: self.length,
            header: self.header,
            method: self.method,
            id: self.id,
            body: self.body@,
        }
    }
}

impl Parser {
    /// How long the body of the frame being read is.
    pub closed spec fn spec_body_len(&self) -> nat {
        self.body_len as nat
    }

    pub closed spec fn wf(&self) -> bool {
        &&& self.varint.wf()
        &&& view_wf(self@)
        &&& (self.state == State::Message ==> self.body_len == self.length - self.consumed
            + self.body@.len())
        &&& (self.state != State::Message ==> self.body_len == 0)
    }

    /// A well-formed parser keeps the bounds of `view_wf`.
    pub proof fn lemma_view_wf(&self)
        requires
            self.wf(),
        ensures
            view_wf(self@),
    {
    }

    /// A parser waiting for the first frame.
    pub fn new() -> (r: Self)
        ensures
            r.wf(),
            r@ == initial_view(),
    {
        Self {
            consumed: 0,
            state: State::Length,
            varint: VarintParser::default(),
            length: 0,
            header: 0,
            method: 0,
            id: 0,
            body: Vec::with_capacity(MAX_MESSAGE_SIZE as usize),
            body_len: 0,
        }
    }

    /// Clears what was read of the current frame; the state stays.
    fn reset(&mut self)
        ensures
            final(self)@ == (ParserView {
                consumed: 0,
                length: 0,
                header: 0,
                method: 0,
                id: 0,
                body: Seq::empty(),
                ..old(self)@
            }),
            final(self).spec_body_len() == 0,
            final(self).varint == old(self).varint,
    {
        self.header = 0;
        self.method = 0;
        self.id = 0;
        self.length = 0;
        self.consumed = 0;
        self.body_len = 0;
        self.body.clear();
    }

    /// Moves on to the next part of the frame.
    fn advance_state(&mut self)
        ensures
            final(self)@ == (ParserView {
                state: next_state(old(self).state),
                ..old(self)@
            }),
            final(self).spec_body_len() == old(self).spec_body_len(),
            final(self).varint == old(self).varint,
    {
        self.state = match self.state {
            State::Length => State::Header,
            State::Header => State::Method,
            State::Method => State::Id,
            State::Id => State::Message,
            State::Message => State::Length,
        }
    }

    /// Gives up on the current frame.
    fn fail(&mut self)
        ensures
            final(self).wf(),
            final(self)@ == initial_view(),
    {
        self.reset();
        self.varint.reset();
        self.state = State::Length;
    }

    /// Reads the next part of a frame from `buf`: the rest of a varint, or
    /// as much of the body as `buf` holds. Returns how many bytes it took and
    /// the message whose frame those bytes completed, exactly as feeding those
    /// bytes one by one does. After a bad varint or a bad length the parser
    /// waits for a new frame; after a bad message type it stays at the end of
    /// that frame and refuses every later call with the same error.
    pub fn recv(&mut self, buf: &[u8]) -> (res: Result<(usize, Option<crate::message::Message>), WireError>)
        requires
            old(self).wf(),
        ensures
            final(self).wf(),
            stuck(old(self)@) ==> res == Err::<(usize, Option<crate::message::Message>), WireError>(
                WireError::InvalidMessageType,
            ) && final(self)@ == old(self)@,
            !stuck(old(self)@) ==> ({
                let n = recv_len(old(self)@, buf@);
                let f = feed(old(self)@, buf@.take(n as int));
                match res {
                    Ok((k, m)) => k == n && f == (Fed {
                        state: final(self)@,
                        messages: option_seq(option_view(m)),
                        error: None,
                    }),
                    Err(e) => f == fed_fail(e, final(self)@),
                }
            }),
            res matches Ok((_, Some(_))) ==> final(self)@ == initial_view(),
            buf@.len() > 0 && !stuck(old(self)@) ==> recv_len(old(self)@, buf@) > 0,
            recv_len(old(self)@, buf@) <= buf@.len(),
    {
        let ghost p = self@;
        proof {
            lemma_varint_end_bounds(buf@);
        }
        if self.state == State::Message {
            return self.recv_body(buf);
        }
        proof {
            lemma_feed_varint(p, buf@);
            lemma_varint_scan_bounds(p.acc, p.digits, buf@);
        }
        let r = self.varint.recv(buf);
        match r {
            Err(e) => {
                self.fail();
                Err(e)
            },
            Ok((n, None)) => {
                assert(buf@.take(n as int) =~= buf@);
                if self.state != State::Length {
                    self.consumed = self.consumed + n;
                }
                Ok((n, None))
            },
            Ok((n, Some(v))) => {
                if self.state != State::Length {
                    self.consumed = self.consumed + n;
                }
                let ghost q = self@;
                assert(q == ParserView { acc: 0, digits: 0, consumed: counted(p, n as nat), ..p });
                match self.state {
                    State::Length => {
                        if v > MAX_MESSAGE_SIZE {
                            self.fail();
                            return Err(WireError::MessageTooLong);
                        }
                        self.length = v;
                    },
                    State::Header => {
                        self.header = v;
                    },
                    State::Method => {
                        self.method = v;
                    },
                    _ => {
                        self.id = v;
                        if self.length < self.consumed as u64 {
                            self.fail();
                            return Err(WireError::InvalidMessage);
                        }
                        self.body_len = self.length as usize - self.consumed;
                    },
                }
                self.advance_state();
                if self.state == State::Message && self.body_len == 0 {
                    let ghost pm = self@;
                    let empty: Vec<u8> = Vec::new();
                    assert(empty@ =~= Seq::<u8>::empty());
                    let message = crate::message::Message::from_raw(
                        self.header,
                        self.method,
                        self.id,
                        empty,
                    );
                    match message {
                        Err(e) => {
                            assert(self.body@ =~= Seq::<u8>::empty());
                            Err(e)
                        },
                        Ok(message) => {
                            self.reset();
                            self.advance_state();
                            Ok((n, Some(message)))
                        },
                    }
                } else {
                    Ok((n, None))
                }
            },
        }
    }

    /// `recv` in the body of a frame.
    fn recv_body(&mut self, buf: &[u8]) -> (res: Result<(usize, Option<crate::message::Message>), WireError>)
        requires
            old(self).wf(),
            old(self).state == State::Message,
        ensures
            final(self).wf(),
            stuck(old(self)@) ==> res == Err::<(usize, Option<crate::message::Message>), WireError>(
                WireError::InvalidMessageType,
            ) && final(self)@ == old(self)@,
            !stuck(old(self)@) ==> ({
                let n = recv_len(old(self)@, buf@);
                let f = feed(old(self)@, buf@.take(n as int));
                match res {
                    Ok((k, m)) => k == n && f == (Fed {
                        state: final(self)@,
                        messages: option_seq(option_view(m)),
                        error: None,
                    }),
                    Err(e) => f == fed_fail(e, final(self)@),
                }
            }),
            res matches Ok((_, Some(_))) ==> final(self)@ == initial_view(),
    {
        let ghost p = self@;
        let remaining = self.length as usize - self.consumed;
        let consumed = if remaining < buf.len() {
            remaining
        } else {
            buf.len()
        };
        let ghost taken = buf@.take(consumed as int);
        assert(recv_len(p, buf@) == consumed);
        proof {
            if !stuck(p) {
                lemma_feed_body(p, taken);
                if consumed == remaining {
                    assert(taken.take(remaining as int) =~= taken);
                }
            }
        }
        let mut i: usize = 0;
        while i < consumed
            invariant
                i <= consumed <= buf@.len(),
                self.body@ == p.body + buf@.take(i as int),
                self.state == p.state,
                self.length == p.length,
                self.consumed == p.consumed,
                self.header == p.header,
                self.method == p.method,
                self.id == p.id,
                self.varint == old(self).varint,
                self.body_len == old(self).body_len,
            decreases consumed - i,
        {
            self.body.push(buf[i]);
            i += 1;
            assert(self.body@ =~= p.body + buf@.take(i as int));
        }
        self.consumed = self.consumed + consumed;
        if consumed < remaining {
            assert(buf@.take(consumed as int) =~= buf@);
            return Ok((consumed, None));
        }
        let body = crate::message::copy_bytes(self.body.as_slice());
        let message = crate::message::Message::from_raw(self.header, self.method, self.id, body);
        match message {
            Err(e) => Err(e),
            Ok(message) => {
                self.reset();
                self.advance_state();
                Ok((consumed, Some(message)))
            },
        }
    }

    /// Reads a whole chunk of bytes: the messages whose frames it completes,
    /// in order, and the error that stopped it, if one did — exactly what
    /// feeding the chunk byte by byte gives.
    pub fn recv_all(&mut self, buf: &[u8]) -> (res: (Vec<crate::message::Message>, Option<WireError>))
        requires
            old(self).wf(),
        ensures
            final(self).wf(),
            ({
                let f = feed(old(self)@, buf@);
                &&& final(self)@ == f.state
                &&& message_views(res.0@) == f.messages
                &&& res.1 == f.error
            }),
    {
        let ghost p0 = self@;
        let mut messages: Vec<crate::message::Message> = Vec::new();
        let mut ptr: usize = 0;
        assert(buf@.take(0) =~= Seq::<u8>::empty());
        assert(message_views(messages@) =~= Seq::<MessageView>::empty());
        while ptr < buf.len()
            invariant
                self.wf(),
                p0 == old(self)@,
                ptr <= buf@.len(),
                feed(p0, buf@.take(ptr as int)) == (Fed {
                    state: self@,
                    messages: message_views(messages@),
                    error: None,
                }),
            decreases buf.len() - ptr,
        {
            let rest = vstd::slice::slice_subrange(buf, ptr, buf.len());
            let ghost before = self@;
            let ghost done = buf@.take(ptr as int);
            let ghost n = recv_len(before, rest@);
            proof {
                lemma_recv_len_bounds(before, rest@);
                lemma_feed_append(p0, done, rest@);
                assert(done + rest@ =~= buf@);
                lemma_feed_append(before, rest@.take(n as int), rest@.skip(n as int));
                assert(rest@.take(n as int) + rest@.skip(n as int) =~= rest@);
            }
            match self.recv(rest) {
                Err(e) => {
                    assert(Seq::<MessageView>::empty() + Seq::<MessageView>::empty()
                        =~= Seq::<MessageView>::empty());
                    assert(message_views(messages@) + Seq::<MessageView>::empty()
                        =~= message_views(messages@));
                    return (messages, Some(e));
                },
                Ok((k, m)) => {
                    proof {
                        lemma_feed_append(p0, done, rest@.take(k as int));
                        assert(done + rest@.take(k as int) =~= buf@.take(ptr + k));
                    }
                    let ghost old_views = message_views(messages@);
                    match m {
                        Some(m) => {
                            messages.push(m);
                            assert(message_views(messages@) =~= old_views + option_seq(
                                option_view(Some(m)),
                            ));
                        },
                        None => {
                            assert(old_views + Seq::<MessageView>::empty() =~= old_views);
                        },
                    }
                    ptr = ptr + k;
                },
            }
        }
        assert(buf@.take(ptr as int) =~= buf@);
        (messages, None)
    }
}

} // verus!
