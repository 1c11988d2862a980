//! Line framing of messages on a byte stream.
//!
//! A message is the bytes before the first newline; sending appends exactly
//! one newline. Incoming bytes are buffered until a whole line is present.

use vstd::prelude::*;
use vstd::utf8::{
    decode_utf8, encode_scalar, encode_utf8, has_width_1_encoding, valid_utf8,
};

verus! {

/// The byte that ends each message on a stream connection.
pub const NEWLINE: u8 = 10;

/// The byte that CR-LF framing removes before a newline.
pub const CARRIAGE_RETURN: u8 = 13;

/// The largest payload of one UDP datagram over IPv4.
pub const MAX_DATAGRAM_SIZE: usize = 65507;

/// No byte of `b` is a newline.
pub open spec fn has_no_newline(b: Seq<u8>) -> bool {
    forall|i: int| 0 <= i < b.len() ==> b[i] != NEWLINE
}

/// The bytes put on the wire for one message.
pub open spec fn frame(payload: Seq<u8>) -> Seq<u8> {
    payload.push(NEWLINE)
}

/// The index of the first newline in `b`, or its length when there is none.
pub open spec fn line_end(b: Seq<u8>) -> nat
    decreases b.len(),
{
    if b.len() == 0 {
        0
    } else if b[0] == NEWLINE {
        0
    } else {
        1 + line_end(b.drop_first())
    }
}

/// The message held by a raw line whose newline was removed: with CR-LF
/// framing a trailing carriage return is removed as well.
pub open spec fn message_of(raw: Seq<u8>, crlf: bool) -> Seq<u8> {
    if crlf && raw.len() > 0 && raw.last() == CARRIAGE_RETURN {
        raw.drop_last()
    } else {
        raw
    }
}

/// `line_end` is the index `k` before which no newline stands and at which
/// the bytes end or a newline stands.
pub proof fn lemma_line_end_at(b: Seq<u8>, k: int)
    requires
        0 <= k <= b.len(),
        forall|j: int| 0 <= j < k ==> b[j] != NEWLINE,
        k == b.len() || b[k] == NEWLINE,
    ensures
        line_end(b) == k,
    decreases k,
{
    if k > 0 {
        lemma_line_end_at(b.drop_first(), k - 1);
    }
}

/// `line_end` never passes the end, and it is the end exactly when no newline is present.
pub proof fn lemma_line_end_bounds(b: Seq<u8>)
    ensures
        line_end(b) <= b.len(),
        line_end(b) == b.len() <==> has_no_newline(b),
        line_end(b) < b.len() ==> b[line_end(b) as int] == NEWLINE,
        has_no_newline(b.take(line_end(b) as int)),
    decreases b.len(),
{
    if b.len() > 0 && b[0] != NEWLINE {
        let t = b.drop_first();
        lemma_line_end_bounds(t);
        assert forall|i: int| 0 <= i < b.take(line_end(b) as int).len() implies b.take(
            line_end(b) as int,
        )[i] != NEWLINE by {
            if i > 0 {
                assert(b.take(line_end(b) as int)[i] == t.take(line_end(t) as int)[i - 1]);
            }
        }
        if has_no_newline(b) {
            assert forall|i: int| 0 <= i < t.len() implies t[i] != NEWLINE by {
                assert(t[i] == b[i + 1]);
            }
        }
        if has_no_newline(t) {
            assert forall|i: int| 0 <= i < b.len() implies b[i] != NEWLINE by {
                if i > 0 {
                    assert(b[i] == t[i - 1]);
                }
            }
        }
    }
}

/// Receiving what was sent: when `m` holds no newline, the first line of
/// `frame(m)` followed by any further bytes is `m`, in either framing mode
/// when `m` does not end in a carriage return, and the further bytes stay
/// buffered.
pub proof fn lemma_frame_round_trip(m: Seq<u8>, rest: Seq<u8>, crlf: bool)
    requires
        has_no_newline(m),
        crlf ==> m.len() == 0 || m.last() != CARRIAGE_RETURN,
    ensures
        !has_no_newline(frame(m) + rest),
        line_end(frame(m) + rest) == m.len(),
        message_of((frame(m) + rest).take(m.len() as int), crlf) == m,
        (frame(m) + rest).skip(m.len() as int + 1) == rest,
{
    let b = frame(m) + rest;
    assert(b[m.len() as int] == NEWLINE);
    assert forall|j: int| 0 <= j < m.len() implies b[j] != NEWLINE by {
        assert(b[j] == m[j]);
    }
    lemma_line_end_at(b, m.len() as int);
    assert(b.take(m.len() as int) =~= m);
    assert(b.skip(m.len() as int + 1) =~= rest);
}

/// A message split across reads is never cut short: any proper prefix of
/// `frame(m)` holds no newline, so no line is delivered until the last byte
/// of the frame has arrived.
pub proof fn lemma_partial_frame_waits(m: Seq<u8>, k: int)
    requires
        has_no_newline(m),
        0 <= k <= m.len(),
    ensures
        has_no_newline(frame(m).take(k)),
{
    assert forall|i: int| 0 <= i < frame(m).take(k).len() implies frame(m).take(k)[i] != NEWLINE by {
        assert(frame(m).take(k)[i] == m[i]);
    }
}

/// CR-LF framing: a line sent as `m` followed by a carriage return is
/// received as `m`; with plain framing the carriage return is kept.
pub proof fn lemma_crlf_terminator(m: Seq<u8>)
    ensures
        message_of(m.push(CARRIAGE_RETURN), true) == m,
        message_of(m.push(CARRIAGE_RETURN), false) == m.push(CARRIAGE_RETURN),
{
    assert(m.push(CARRIAGE_RETURN).drop_last() =~= m);
}

proof fn lemma_scalar_has_no_newline(c: char)
    requires
        c != '\n',
    ensures
        has_no_newline(encode_scalar(c as u32)),
{
    let v = c as u32;
    assert(v != 10u32);
    let e = encode_scalar(v);
    assert((0xC0u8 | ((v >> 6) & 0x1F) as u8) != 10u8) by (bit_vector);
    assert((0xE0u8 | ((v >> 12) & 0x0F) as u8) != 10u8) by (bit_vector);
    assert((0xF0u8 | ((v >> 18) & 0x7) as u8) != 10u8) by (bit_vector);
    assert((0x80u8 | (v & 0x3F) as u8) != 10u8) by (bit_vector);
    assert((0x80u8 | ((v >> 6) & 0x3F) as u8) != 10u8) by (bit_vector);
    assert((0x80u8 | ((v >> 12) & 0x3F) as u8) != 10u8) by (bit_vector);
    if has_width_1_encoding(v) {
        assert(v <= 0x7F && v != 10 ==> (v & 0x7F) as u8 != 10u8) by (bit_vector);
    }
}

/// The UTF-8 encoding of text without a newline character holds no newline byte.
pub proof fn lemma_text_has_no_newline(m: Seq<char>)
    requires
        forall|i: int| 0 <= i < m.len() ==> m[i] != '\n',
    ensures
        has_no_newline(encode_utf8(m)),
    decreases m.len(),
{
    if m.len() > 0 {
        let t = m.drop_first();
        assert forall|i: int| 0 <= i < t.len() implies t[i] != '\n' by {
            assert(t[i] == m[i + 1]);
        }
        lemma_text_has_no_newline(t);
        lemma_scalar_has_no_newline(m[0]);
        let a = encode_scalar(m[0] as u32);
        let b = encode_utf8(t);
        assert(encode_utf8(m) == a + b);
        assert forall|i: int| 0 <= i < (a + b).len() implies (a + b)[i] != NEWLINE by {
            if i < a.len() {
                assert((a + b)[i] == a[i]);
            } else {
                assert((a + b)[i] == b[i - a.len()]);
            }
        }
    }
}

/// A text round trip: text without a newline, framed by `encode_message`
/// and received in plain framing, is the same text once decoded.
pub proof fn lemma_text_round_trip(m: Seq<char>, rest: Seq<u8>)
    requires
        forall|i: int| 0 <= i < m.len() ==> m[i] != '\n',
    ensures
        ({
            let b = frame(encode_utf8(m)) + rest;
            let line = message_of(b.take(line_end(b) as int), false);
            &&& !has_no_newline(b)
            &&& line == encode_utf8(m)
            &&& valid_utf8(line)
            &&& decode_utf8(line) == m
            &&& b.skip(line_end(b) as int + 1) == rest
        }),
{
    lemma_text_has_no_newline(m);
    lemma_frame_round_trip(encode_utf8(m), rest, false);
    vstd::utf8::encode_utf8_valid_utf8(m);
    vstd::utf8::encode_utf8_decode_utf8(m);
}

/// The bytes that frame `payload`: the payload followed by one newline.
pub fn encode_line(payload: &[u8]) -> (r: Vec<u8>)
    requires
        payload@.len() < usize::MAX,
    ensures
        r@ == frame(payload@),
{
    let mut out: Vec<u8> = Vec::new();
    let mut i: usize = 0;
    while i < payload.len()
        invariant
            i <= payload@.len(),
            out@ == payload@.take(i as int),
        decreases payload@.len() - i,
    {
        out.push(payload[i]);
        i = i + 1;
        assert(out@ =~= payload@.take(i as int));
    }
    assert(out@ =~= payload@);
    out.push(NEWLINE);
    out
}

/// The bytes that frame a text message: its UTF-8 encoding and one newline.
pub fn encode_message(message: &str) -> (r: Vec<u8>)
    requires
        encode_utf8(message@).len() < usize::MAX,
    ensures
        r@ == frame(encode_utf8(message@)),
{
    encode_line(message.as_bytes())
}

/// Why a received line could not be taken as a message.
#[derive(Debug, PartialEq, Eq, Structural, Clone, Copy)]
pub enum FrameError {
    /// The line's bytes are not valid UTF-8.
    InvalidText,
}

/// Relies on `String::from_utf8`: it succeeds exactly on valid UTF-8 and then
/// holds the characters that the bytes encode.
#[verifier::external_body]
fn string_from_utf8(bytes: Vec<u8>) -> (r: Option<String>)
    ensures
        r is Some <==> valid_utf8(bytes@),
        r matches Some(s) ==> s@ == decode_utf8(bytes@),
{
    String::from_utf8(bytes).ok()
}

/// The text of a received line, or an error when it is not valid UTF-8.
pub fn decode_message(line: Vec<u8>) -> (r: Result<String, FrameError>)
    ensures
        r is Ok <==> valid_utf8(line@),
        r matches Ok(s) ==> s@ == decode_utf8(line@) && encode_utf8(s@) == line@,
        r matches Err(e) ==> e == FrameError::InvalidText,
{
    proof {
        if valid_utf8(line@) {
            vstd::utf8::decode_utf8_encode_utf8(line@);
        }
    }
    match string_from_utf8(line) {
        Some(s) => Ok(s),
        None => Err(FrameError::InvalidText),
    }
}

/// What one step of reading a line produced.
#[derive(Debug)]
pub enum Received {
    /// A whole message, its delimiter removed.
    Line(Vec<u8>),
    /// No whole line is buffered yet: more bytes must be read.
    NeedMore,
    /// The stream ended with nothing left to deliver.
    Closed,
}

/// What the transport reported for one read.
#[derive(Debug)]
pub enum ReadEvent {
    /// Bytes that arrived, possibly none yet.
    Data(Vec<u8>),
    /// The peer closed its side of the stream.
    EndOfStream,
}

/// The read-ahead buffer of a stream: bytes received and not yet delivered.
pub struct LineBuffer {
    pending: Vec<u8>,
    crlf: bool,
}

impl View for LineBuffer {
    type V = Seq<u8>;

    closed spec fn view(&self) -> Seq<u8> {
        self.pending@
    }
}

impl LineBuffer {
    /// Whether a carriage return before the newline is removed too.
    pub closed spec fn strips_cr(&self) -> bool {
        self.crlf
    }

    /// An empty buffer; `crlf` chooses CR-LF framing on receipt.
    pub fn new(crlf: bool) -> (r: LineBuffer)
        ensures
            r@ == Seq::<u8>::empty(),
            r.strips_cr() == crlf,
    {
        LineBuffer { pending: Vec::new(), crlf }
    }

    /// Whether CR-LF framing is in use.
    pub fn crlf(&self) -> (r: bool)
        ensures
            r == self.strips_cr(),
    {
        self.crlf
    }

    /// The number of bytes buffered.
    pub fn buffered_len(&self) -> (r: usize)
        ensures
            r == self@.len(),
    {
        self.pending.len()
    }

    /// Appends bytes read from the transport.
    pub fn feed(&mut self, chunk: &[u8])
        ensures
            final(self)@ == old(self)@ + chunk@,
            final(self).strips_cr() == old(self).strips_cr(),
    {
        let mut i: usize = 0;
        let ghost start = self.pending@;
        while i < chunk.len()
            invariant
                i <= chunk@.len(),
                self.pending@ == start + chunk@.take(i as int),
                self.crlf == old(self).crlf,
            decreases chunk@.len() - i,
        {
            self.pending.push(chunk[i]);
            i = i + 1;
            assert(self.pending@ =~= start + chunk@.take(i as int));
        }
        assert(chunk@.take(i as int) =~= chunk@);
    }

    /// Removes the first whole line from the buffer and returns its message,
    /// or returns `None` and leaves the buffer as it is when no newline is buffered.
    pub fn take_line(&mut self) -> (r: Option<Vec<u8>>)
        ensures
            final(self).strips_cr() == old(self).strips_cr(),
            r is None <==> has_no_newline(old(self)@),
            r is None ==> final(self)@ == old(self)@,
            r matches Some(m) ==> {
                &&& m@ == message_of(old(self)@.take(line_end(old(self)@) as int), old(self).strips_cr())
                &&& final(self)@ == old(self)@.skip(line_end(old(self)@) as int + 1)
            },
    {
        proof {
            lemma_line_end_bounds(self.pending@);
        }
        let n = self.pending.len();
        let mut k: usize = 0;
        while k < n && self.pending[k] != NEWLINE
            invariant
                n == self.pending@.len(),
                k <= n,
                forall|j: int| 0 <= j < k ==> self.pending@[j] != NEWLINE,
            decreases n - k,
        {
            k = k + 1;
        }
        proof {
            lemma_line_end_at(self.pending@, k as int);
        }
        if k == n {
            return None;
        }
        let mut end = k;
        if self.crlf && k > 0 && self.pending[k - 1] == CARRIAGE_RETURN {
            end = k - 1;
        }
        let mut line: Vec<u8> = Vec::new();
        let mut i: usize = 0;
        while i < end
            invariant
                end <= k < n,
                n == self.pending@.len(),
                i <= end,
                line@ == self.pending@.take(i as int),
            decreases end - i,
        {
            line.push(self.pending[i]);
            i = i + 1;
            assert(line@ =~= self.pending@.take(i as int));
        }
        let mut rest: Vec<u8> = Vec::new();
        let mut j: usize = k + 1;
        while j < n
            invariant
                k < j <= n,
                n == self.pending@.len(),
                rest@ == self.pending@.subrange(k + 1, j as int),
            decreases n - j,
        {
            rest.push(self.pending[j]);
            j = j + 1;
            assert(rest@ =~= self.pending@.subrange(k + 1, j as int));
        }
        proof {
            let raw = self.pending@.take(k as int);
            assert(line@ =~= message_of(raw, self.crlf));
            assert(rest@ =~= self.pending@.skip(k + 1));
        }
        self.pending = rest;
        Some(line)
    }

    /// Removes everything buffered and returns it.
    pub fn take_rest(&mut self) -> (r: Vec<u8>)
        ensures
            r@ == old(self)@,
            final(self)@ == Seq::<u8>::empty(),
            final(self).strips_cr() == old(self).strips_cr(),
    {
        let mut rest: Vec<u8> = Vec::new();
        std::mem::swap(&mut rest, &mut self.pending);
        rest
    }

    /// Handles one read: delivers the first whole line when there is one, at
    /// the end of the stream delivers what is left unterminated, and reports
    /// the end once nothing is left.
    pub fn on_read(&mut self, event: ReadEvent) -> (r: Received)
        ensures
            final(self).strips_cr() == old(self).strips_cr(),
            ({
                let b = match event {
                    ReadEvent::Data(chunk) => old(self)@ + chunk@,
                    ReadEvent::EndOfStream => old(self)@,
                };
                let cr = old(self).strips_cr();
                if !has_no_newline(b) {
                    &&& r matches Received::Line(m)
                    &&& m@ == message_of(b.take(line_end(b) as int), cr)
                    &&& final(self)@ == b.skip(line_end(b) as int + 1)
                } else if event is Data {
                    r is NeedMore && final(self)@ == b
                } else if b.len() == 0 {
                    r is Closed && final(self)@ == b
                } else {
                    &&& r matches Received::Line(m)
                    &&& m@ == message_of(b, cr)
                    &&& final(self)@ == Seq::<u8>::empty()
                }
            }),
    {
        let at_end = match &event {
            ReadEvent::Data(chunk) => {
                self.feed(chunk.as_slice());
                false
            },
            ReadEvent::EndOfStream => true,
        };
        match self.take_line() {
            Some(m) => Received::Line(m),
            None => {
                if !at_end {
                    Received::NeedMore
                } else if self.pending.len() == 0 {
                    Received::Closed
                } else {
                    let mut raw = self.take_rest();
                    let len = raw.len();
                    if self.crlf && raw[len - 1] == CARRIAGE_RETURN {
                        raw.pop();
                    }
                    proof {
                        assert(raw@ =~= message_of(old(self)@, self.crlf));
                    }
                    Received::Line(raw)
                }
            },
        }
    }
}

} // verus!
