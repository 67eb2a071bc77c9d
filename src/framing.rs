use vstd::prelude::*;

use crate::decimal::{
    all_digits, decimal_bytes, is_digit_byte, lemma_decimal_digits, lemma_parse_decimal, parse_usize,
    parse_usize_spec, push_decimal,
};

verus! {

pub const CR: u8 = 13;

pub const LF: u8 = 10;

pub const COLON: u8 = 58;

/// `Content-Length: `, the start of the one header line that an encoded frame carries.
pub open spec fn length_prefix() -> Seq<u8> {
    seq![67u8, 111, 110, 116, 101, 110, 116, 45, 76, 101, 110, 103, 116, 104, 58, 32]
}

/// `content-length`, the header name in lower case.
pub open spec fn length_name() -> Seq<u8> {
    seq![99u8, 111, 110, 116, 101, 110, 116, 45, 108, 101, 110, 103, 116, 104]
}

/// The bytes of a frame that carries `body`: the length header, a blank line, the body.
pub open spec fn frame_bytes(body: Seq<u8>) -> Seq<u8> {
    length_prefix() + decimal_bytes(body.len()) + seq![CR, LF, CR, LF] + body
}

/// Index of the first `x` in `t`, or `t.len()` when there is none.
pub open spec fn index_of(t: Seq<u8>, x: u8) -> nat
    decreases t.len(),
{
    if t.len() == 0 {
        0
    } else if t[0] == x {
        0
    } else {
        1 + index_of(t.drop_first(), x)
    }
}

pub open spec fn ascii_lower(b: u8) -> u8 {
    if 65 <= b <= 90 {
        (b + 32) as u8
    } else {
        b
    }
}

/// Whether a header name is `Content-Length`, compared without regard to ASCII case.
pub open spec fn names_length(name: Seq<u8>) -> bool {
    name.len() == length_name().len() && forall|i: int|
        0 <= i < name.len() ==> ascii_lower(#[trigger] name[i]) == length_name()[i]
}

/// White space as `char::is_whitespace` has it among ASCII bytes.
pub open spec fn is_space(b: u8) -> bool {
    b == 32 || (9 <= b <= 13)
}

pub open spec fn trim_start(v: Seq<u8>) -> Seq<u8>
    decreases v.len(),
{
    if v.len() > 0 && is_space(v[0]) {
        trim_start(v.drop_first())
    } else {
        v
    }
}

pub open spec fn trim_end(v: Seq<u8>) -> Seq<u8>
    decreases v.len(),
{
    if v.len() > 0 && is_space(v.last()) {
        trim_end(v.drop_last())
    } else {
        v
    }
}

pub open spec fn trim(v: Seq<u8>) -> Seq<u8> {
    trim_end(trim_start(v))
}

/// A header line without its line ending: one carriage return before the
/// line feed is dropped.
pub open spec fn strip_cr(line: Seq<u8>) -> Seq<u8> {
    if line.len() > 0 && line.last() == CR {
        line.drop_last()
    } else {
        line
    }
}

/// Whether a header line (without its line ending) is a `Content-Length` line:
/// the text before its first colon is that name.
pub open spec fn line_names_length(line: Seq<u8>) -> bool {
    index_of(line, COLON) < line.len() && names_length(
        line.subrange(0, index_of(line, COLON) as int),
    )
}

/// The declared body length of a header block: the value of its first line
/// named `Content-Length` (`None` when that value does not parse), or `None`
/// when no line has that name. Lines end at a line feed; a line without a
/// colon names nothing.
pub open spec fn content_length(t: Seq<u8>) -> Option<nat>
    decreases t.len(),
{
    if t.len() == 0 {
        None
    } else {
        let k = index_of(t, LF);
        let line = strip_cr(t.subrange(0, k as int));
        let next = if k < t.len() {
            k + 1
        } else {
            t.len()
        };
        let rest = t.subrange(next as int, t.len() as int);
        if line_names_length(line) {
            parse_usize_spec(trim(line.subrange(index_of(line, COLON) + 1 as int, line.len() as int)))
        } else {
            content_length(rest)
        }
    }
}

/// Whether a line that consists of exactly CR LF starts at `i`.
pub open spec fn blank_at(s: Seq<u8>, i: int) -> bool {
    0 <= i && i + 2 <= s.len() && s[i] == CR && s[i + 1] == LF
}

/// Scans `s` from `i` for the first blank line; `at_start` tells whether a
/// line begins at `i`. Gives the index of the blank line's CR.
pub open spec fn blank_scan(s: Seq<u8>, i: int, at_start: bool) -> Option<nat>
    decreases s.len() - i,
{
    if i < 0 || i >= s.len() {
        None
    } else if at_start && blank_at(s, i) {
        Some(i as nat)
    } else {
        blank_scan(s, i + 1, s[i] == LF)
    }
}

/// What the front of a byte stream holds.
pub enum FrameStep {
    /// No complete frame yet: a header block or a body is still to come.
    Incomplete,
    /// A header block without a usable `Content-Length`, which ends at `header_end`
    /// (just past its blank line).
    Malformed { header_end: nat },
    /// A complete frame whose body is `s[body_start..body_start + body_len]`.
    Message { body_start: nat, body_len: nat },
}

pub open spec fn frame_step(s: Seq<u8>) -> FrameStep {
    match blank_scan(s, 0, true) {
        None => FrameStep::Incomplete,
        Some(p) => match content_length(s.subrange(0, p as int)) {
            None => FrameStep::Malformed { header_end: p + 2 },
            Some(n) => if p + 2 + n <= s.len() {
                FrameStep::Message { body_start: p + 2, body_len: n }
            } else {
                FrameStep::Incomplete
            },
        },
    }
}

/// How many bytes a step takes off the front of the stream.
pub open spec fn step_len(st: FrameStep) -> nat {
    match st {
        FrameStep::Incomplete => 0,
        FrameStep::Malformed { header_end } => header_end,
        FrameStep::Message { body_start, body_len } => body_start + body_len,
    }
}

/// One decoding outcome, as a value.
pub enum FrameEvent {
    /// A header block that gave no body length; it holds the header text.
    Malformed(Seq<u8>),
    /// A message body.
    Message(Seq<u8>),
}

/// The events that decoding all of `s` reports, in order; what is left after
/// the last complete frame waits for more input.
pub open spec fn decode_all(s: Seq<u8>) -> Seq<FrameEvent>
    decreases s.len(),
{
    match frame_step(s) {
        FrameStep::Incomplete => Seq::empty(),
        FrameStep::Malformed { header_end } => if 0 < header_end <= s.len() {
            seq![FrameEvent::Malformed(s.subrange(0, header_end - 2))] + decode_all(
                s.subrange(header_end as int, s.len() as int),
            )
        } else {
            Seq::empty()
        },
        FrameStep::Message { body_start, body_len } => if 0 < body_start + body_len <= s.len() {
            seq![FrameEvent::Message(s.subrange(body_start as int, (body_start + body_len) as int))]
                + decode_all(s.subrange((body_start + body_len) as int, s.len() as int))
        } else {
            Seq::empty()
        },
    }
}

/// The event of the next step on `s`, if it completes one.
pub open spec fn step_event(s: Seq<u8>) -> Option<FrameEvent> {
    match frame_step(s) {
        FrameStep::Incomplete => None,
        FrameStep::Malformed { header_end } => Some(
            FrameEvent::Malformed(s.subrange(0, header_end - 2)),
        ),
        FrameStep::Message { body_start, body_len } => Some(
            FrameEvent::Message(s.subrange(body_start as int, (body_start + body_len) as int)),
        ),
    }
}

/// The result of decoding the front of a byte buffer.
pub enum Decoded {
    /// More bytes are needed before anything can be reported.
    Incomplete,
    /// A header block without a usable `Content-Length`: its text, and how
    /// many bytes it took up with its blank line.
    Malformed { headers: Vec<u8>, consumed: usize },
    /// A message body, and how many bytes the whole frame took up.
    Message { body: Vec<u8>, consumed: usize },
}

impl Decoded {
    pub open spec fn event(&self) -> Option<FrameEvent> {
        match self {
            Decoded::Incomplete => None,
            Decoded::Malformed { headers, .. } => Some(FrameEvent::Malformed(headers@)),
            Decoded::Message { body, .. } => Some(FrameEvent::Message(body@)),
        }
    }

    pub open spec fn consumed_len(&self) -> nat {
        match self {
            Decoded::Incomplete => 0,
            Decoded::Malformed { consumed, .. } => *consumed as nat,
            Decoded::Message { consumed, .. } => *consumed as nat,
        }
    }
}

fn copy_range(s: &[u8], lo: usize, hi: usize) -> (r: Vec<u8>)
    requires
        lo <= hi <= s@.len(),
    ensures
        r@ == s@.subrange(lo as int, hi as int),
{
    let mut r: Vec<u8> = Vec::new();
    let mut i = lo;
    while i < hi
        invariant
            lo <= i <= hi <= s@.len(),
            r@ == s@.subrange(lo as int, i as int),
        decreases hi - i,
    {
        r.push(s[i]);
        i = i + 1;
        assert(r@ =~= s@.subrange(lo as int, i as int));
    }
    r
}

/// Index of the first `x` in `s[lo..hi]`, counted from `lo`; `hi - lo` when there is none.
fn find_byte(s: &[u8], lo: usize, hi: usize, x: u8) -> (r: usize)
    requires
        lo <= hi <= s@.len(),
    ensures
        r <= hi - lo,
        r as nat == index_of(s@.subrange(lo as int, hi as int), x),
{
    let mut i = lo;
    while i < hi
        invariant
            lo <= i <= hi <= s@.len(),
            index_of(s@.subrange(lo as int, hi as int), x) == (i - lo) + index_of(
                s@.subrange(i as int, hi as int),
                x,
            ),
        decreases hi - i,
    {
        if s[i] == x {
            return i - lo;
        }
        assert(s@.subrange(i as int, hi as int).drop_first() =~= s@.subrange(i + 1, hi as int));
        i = i + 1;
    }
    i - lo
}

fn lower_byte(b: u8) -> (r: u8)
    ensures
        r == ascii_lower(b),
{
    if 65 <= b && b <= 90 {
        b + 32
    } else {
        b
    }
}

fn is_length_name(s: &[u8], lo: usize, hi: usize) -> (r: bool)
    requires
        lo <= hi <= s@.len(),
    ensures
        r == names_length(s@.subrange(lo as int, hi as int)),
{
    let name: Vec<u8> = vec![99u8, 111, 110, 116, 101, 110, 116, 45, 108, 101, 110, 103, 116, 104];
    assert(name@ =~= length_name());
    if hi - lo != 14 {
        return false;
    }
    let mut j: usize = 0;
    while j < 14
        invariant
            j <= 14,
            hi - lo == 14,
            lo <= hi <= s@.len(),
            name@ == length_name(),
            forall|k: int|
                0 <= k < j ==> ascii_lower(#[trigger] s@.subrange(lo as int, hi as int)[k])
                    == length_name()[k],
        decreases 14 - j,
    {
        if lower_byte(s[lo + j]) != name[j] {
            assert(ascii_lower(s@.subrange(lo as int, hi as int)[j as int]) != length_name()[j as int]);
            return false;
        }
        j = j + 1;
    }
    true
}

fn is_space_byte(b: u8) -> (r: bool)
    ensures
        r == is_space(b),
{
    b == 32 || (9 <= b && b <= 13)
}

/// Bounds of `s[lo..hi]` with white space trimmed from both ends.
fn trim_bounds(s: &[u8], lo: usize, hi: usize) -> (r: (usize, usize))
    requires
        lo <= hi <= s@.len(),
    ensures
        lo <= r.0 <= r.1 <= hi,
        s@.subrange(r.0 as int, r.1 as int) == trim(s@.subrange(lo as int, hi as int)),
{
    let mut a = lo;
    while a < hi && is_space_byte(s[a])
        invariant
            lo <= a <= hi <= s@.len(),
            trim_start(s@.subrange(lo as int, hi as int)) == trim_start(
                s@.subrange(a as int, hi as int),
            ),
        decreases hi - a,
    {
        assert(s@.subrange(a as int, hi as int).drop_first() =~= s@.subrange(a + 1, hi as int));
        a = a + 1;
    }
    let mut b = hi;
    while b > a && is_space_byte(s[b - 1])
        invariant
            lo <= a <= b <= hi <= s@.len(),
            trim_end(s@.subrange(a as int, hi as int)) == trim_end(
                s@.subrange(a as int, b as int),
            ),
        decreases b - a,
    {
        assert(s@.subrange(a as int, b as int).drop_last() =~= s@.subrange(a as int, b - 1));
        b = b - 1;
    }
    (a, b)
}

/// The declared body length of the header block `s[0..end]`.
fn header_length(s: &[u8], end: usize) -> (r: Option<usize>)
    requires
        end <= s@.len(),
    ensures
        r matches Some(v) ==> content_length(s@.subrange(0, end as int)) == Some(v as nat),
        r is None ==> content_length(s@.subrange(0, end as int)) is None,
{
    let mut i: usize = 0;
    while i < end
        invariant
            i <= end <= s@.len(),
            content_length(s@.subrange(0, end as int)) == content_length(
                s@.subrange(i as int, end as int),
            ),
        decreases end - i,
    {
        let ghost t = s@.subrange(i as int, end as int);
        let k = find_byte(s, i, end, LF);
        let ka = i + k;
        let mut line_hi = ka;
        if line_hi > i && s[line_hi - 1] == CR {
            line_hi = line_hi - 1;
        }
        let ghost line = strip_cr(t.subrange(0, k as int));
        assert(line =~= s@.subrange(i as int, line_hi as int));
        let c = find_byte(s, i, line_hi, COLON);
        let ca = i + c;
        let next = if ka < end {
            ka + 1
        } else {
            end
        };
        assert(t.subrange((next - i) as int, t.len() as int) =~= s@.subrange(
            next as int,
            end as int,
        ));
        if ca < line_hi {
            assert(line.subrange(0, c as int) =~= s@.subrange(i as int, ca as int));
            if is_length_name(s, i, ca) {
                let (a, b) = trim_bounds(s, ca + 1, line_hi);
                assert(line.subrange(c + 1, line.len() as int) =~= s@.subrange(
                    ca + 1,
                    line_hi as int,
                ));
                return parse_usize(s, a, b);
            }
        }
        i = next;
    }
    None
}

/// Index of the first blank line that starts a line of `s`.
fn find_blank_line(s: &[u8]) -> (r: Option<usize>)
    ensures
        r matches Some(p) ==> (blank_scan(s@, 0, true) == Some(p as nat) && p + 2 <= s@.len()),
        r is None ==> blank_scan(s@, 0, true) is None,
{
    let mut i: usize = 0;
    let mut at_start = true;
    while i < s.len()
        invariant
            i <= s@.len(),
            blank_scan(s@, 0, true) == blank_scan(s@, i as int, at_start),
        decreases s@.len() - i,
    {
        if at_start && i + 1 < s.len() && s[i] == CR && s[i + 1] == LF {
            return Some(i);
        }
        at_start = s[i] == LF;
        i = i + 1;
    }
    None
}

/// Decodes the frame at the front of `s`.
pub fn decode_frame(s: &[u8]) -> (r: Decoded)
    ensures
        r.event() == step_event(s@),
        r.consumed_len() == step_len(frame_step(s@)),
{
    match find_blank_line(s) {
        None => Decoded::Incomplete,
        Some(p) => {
            let total = s.len();
            match header_length(s, p) {
                None => {
                    let headers = copy_range(s, 0, p);
                    Decoded::Malformed { headers, consumed: p + 2 }
                },
                Some(n) => {
                    if n <= s.len() - (p + 2) {
                        let body = copy_range(s, p + 2, p + 2 + n);
                        Decoded::Message { body, consumed: p + 2 + n }
                    } else {
                        Decoded::Incomplete
                    }
                },
            }
        },
    }
}

/// Encodes `body` as one frame: the `Content-Length` header, a blank line, the body.
pub fn encode_frame(body: &[u8]) -> (r: Vec<u8>)
    ensures
        r@ == frame_bytes(body@),
{
    let mut out: Vec<u8> = vec![67u8, 111, 110, 116, 101, 110, 116, 45, 76, 101, 110, 103, 116, 104, 58, 32];
    assert(out@ =~= length_prefix());
    push_decimal(&mut out, body.len());
    out.push(CR);
    out.push(LF);
    out.push(CR);
    out.push(LF);
    let mut i: usize = 0;
    let ghost head = out@;
    while i < body.len()
        invariant
            i <= body@.len(),
            out@ == head + body@.subrange(0, i as int),
        decreases body@.len() - i,
    {
        out.push(body[i]);
        i = i + 1;
        assert(out@ =~= head + body@.subrange(0, i as int));
    }
    assert(body@.subrange(0, i as int) =~= body@);
    assert(head =~= length_prefix() + decimal_bytes(body@.len()) + seq![CR, LF, CR, LF]);
    out
}

/// A buffer of bytes read from a stream, from which whole frames are taken.
pub struct FrameReader {
    pending: Vec<u8>,
}

impl View for FrameReader {
    type V = Seq<u8>;

    closed spec fn view(&self) -> Seq<u8> {
        self.pending@
    }
}

impl FrameReader {
    pub fn new() -> (r: FrameReader)
        ensures
            r@ == Seq::<u8>::empty(),
    {
        FrameReader { pending: Vec::new() }
    }

    /// Appends bytes read from the stream.
    pub fn feed(&mut self, bytes: &[u8])
        ensures
            final(self)@ == old(self)@ + bytes@,
    {
        let mut i: usize = 0;
        while i < bytes.len()
            invariant
                i <= bytes@.len(),
                self@ == old(self)@ + bytes@.subrange(0, i as int),
            decreases bytes@.len() - i,
        {
            self.pending.push(bytes[i]);
            i = i + 1;
            assert(self@ =~= old(self)@ + bytes@.subrange(0, i as int));
        }
        assert(bytes@.subrange(0, i as int) =~= bytes@);
    }

    /// Takes the next frame or malformed header block off the front of the
    /// buffer; leaves the buffer as it is when neither is complete yet.
    pub fn next_event(&mut self) -> (r: Decoded)
        ensures
            r.event() == step_event(old(self)@),
            step_len(frame_step(old(self)@)) <= old(self)@.len(),
            final(self)@ == old(self)@.subrange(
                step_len(frame_step(old(self)@)) as int,
                old(self)@.len() as int,
            ),
    {
        let r = decode_frame(self.pending.as_slice());
        let n = match &r {
            Decoded::Incomplete => 0,
            Decoded::Malformed { consumed, .. } => *consumed,
            Decoded::Message { consumed, .. } => *consumed,
        };
        proof {
            lemma_step_within(self@);
        }
        let rest = self.pending.split_off(n);
        self.pending = rest;
        r
    }
}

/// What is left of `s` after every complete frame and malformed header
/// block at its front has been taken off.
pub open spec fn undecoded(s: Seq<u8>) -> Seq<u8>
    decreases s.len(),
{
    let n = step_len(frame_step(s));
    if step_event(s) is Some && 0 < n <= s.len() {
        undecoded(s.subrange(n as int, s.len() as int))
    } else {
        s
    }
}

pub open spec fn events_of(v: Seq<Decoded>) -> Seq<FrameEvent> {
    v.map_values(|d: Decoded| d.event()->Some_0)
}

/// One step of `decode_all`: the event at the front, then the rest.
proof fn lemma_decode_all_step(s: Seq<u8>)
    ensures
        step_event(s) is None ==> decode_all(s) == Seq::<FrameEvent>::empty() && undecoded(s)
            == s,
        step_event(s) is Some ==> ({
            let n = step_len(frame_step(s));
            &&& 0 < n <= s.len()
            &&& decode_all(s) == seq![step_event(s)->Some_0] + decode_all(
                s.subrange(n as int, s.len() as int),
            )
            &&& undecoded(s) == undecoded(s.subrange(n as int, s.len() as int))
        }),
{
    lemma_step_within(s);
}

impl FrameReader {
    /// Takes every complete frame and malformed header block off the front of
    /// the buffer, in order; what is left waits for more input.
    pub fn drain(&mut self) -> (r: Vec<Decoded>)
        ensures
            forall|i: int| 0 <= i < r@.len() ==> (#[trigger] r@[i]).event() is Some,
            events_of(r@) == decode_all(old(self)@),
            final(self)@ == undecoded(old(self)@),
    {
        let mut out: Vec<Decoded> = Vec::new();
        loop
            invariant
                forall|i: int| 0 <= i < out@.len() ==> (#[trigger] out@[i]).event() is Some,
                events_of(out@) + decode_all(self@) == decode_all(old(self)@),
                undecoded(self@) == undecoded(old(self)@),
            decreases self@.len(),
        {
            let ghost before = self@;
            proof {
                lemma_decode_all_step(before);
            }
            let d = self.next_event();
            match d {
                Decoded::Incomplete => {
                    assert(events_of(out@) + Seq::<FrameEvent>::empty() =~= events_of(out@));
                    return out;
                },
                _ => {
                    let ghost prev = out@;
                    out.push(d);
                    assert(events_of(out@) =~= events_of(prev).push(step_event(before)->Some_0));
                    assert(events_of(out@) + decode_all(self@) =~= events_of(prev) + (seq![
                        step_event(before)->Some_0,
                    ] + decode_all(self@)));
                },
            }
        }
    }
}

/// A step never takes more bytes than there are, and a step that reports
/// something takes at least one.
pub proof fn lemma_step_within(s: Seq<u8>)
    ensures
        step_len(frame_step(s)) <= s.len(),
        step_event(s) is Some ==> step_len(frame_step(s)) > 0,
{
    lemma_scan_bound(s, 0, true);
}

proof fn lemma_scan_bound(s: Seq<u8>, i: int, at_start: bool)
    ensures
        blank_scan(s, i, at_start) matches Some(p) ==> p >= i && p + 2 <= s.len(),
    decreases s.len() - i,
{
    if 0 <= i < s.len() && !(at_start && blank_at(s, i)) {
        lemma_scan_bound(s, i + 1, s[i] == LF);
    }
}

/// Past a stretch without `x`, the first `x` is found in what follows.
proof fn lemma_index_of_after(a: Seq<u8>, b: Seq<u8>, x: u8)
    requires
        forall|i: int| 0 <= i < a.len() ==> a[i] != x,
    ensures
        index_of(a + b, x) == a.len() + index_of(b, x),
    decreases a.len(),
{
    if a.len() == 0 {
        assert(a + b =~= b);
    } else {
        assert((a + b).drop_first() =~= a.drop_first() + b);
        lemma_index_of_after(a.drop_first(), b, x);
    }
}

/// Within a line, the scan for a blank line moves on unchanged.
proof fn lemma_scan_skip(s: Seq<u8>, i: int, j: int)
    requires
        0 <= i <= j <= s.len(),
        forall|k: int| i <= k < j ==> s[k] != LF,
    ensures
        blank_scan(s, i, false) == blank_scan(s, j, false),
    decreases j - i,
{
    if i < j {
        lemma_scan_skip(s, i + 1, j);
    }
}

/// A header line: not empty, and without a line feed.
pub open spec fn is_header_line(l: Seq<u8>) -> bool {
    l.len() > 0 && forall|k: int| 0 <= k < l.len() ==> l[k] != LF
}

/// The scan for a blank line passes over one header line and its CR LF.
proof fn lemma_scan_line(s: Seq<u8>, i: int, l: Seq<u8>)
    requires
        0 <= i,
        i + l.len() + 2 <= s.len(),
        is_header_line(l),
        s.subrange(i, i + l.len() + 2) == l + seq![CR, LF],
    ensures
        blank_scan(s, i, true) == blank_scan(s, i + l.len() + 2, true),
{
    let e = l + seq![CR, LF];
    assert(s[i] == e[0]);
    assert(s[i + 1] == e[1]);
    assert forall|k: int| i + 1 <= k < i + l.len() + 1 implies s[k] != LF by {
        assert(s[k] == e[k - i]);
    }
    lemma_scan_skip(s, i + 1, i + l.len() + 1);
    assert(s[i + l.len() + 1] == e[l.len() + 1 as int]);
    lemma_scan_after(s, i + l.len() + 1);
}

proof fn lemma_scan_after(s: Seq<u8>, i: int)
    requires
        0 <= i < s.len(),
        s[i] == LF,
    ensures
        blank_scan(s, i, false) == blank_scan(s, i + 1, true),
{
}

/// The body length that a header line followed by more lines gives, when
/// the first line is not a `Content-Length` line.
proof fn lemma_length_line(l: Seq<u8>, x: Seq<u8>)
    requires
        is_header_line(l),
        !line_names_length(l),
    ensures
        content_length(l + seq![CR, LF] + x) == content_length(x),
{
    let t = l + seq![CR, LF] + x;
    lemma_index_of_after(l + seq![CR], seq![LF] + x, LF);
    assert(t =~= (l + seq![CR]) + (seq![LF] + x));
    assert(t.subrange(0, l.len() + 1 as int) =~= l + seq![CR]);
    assert((l + seq![CR]).drop_last() =~= l);
    assert(t.subrange(l.len() + 2 as int, t.len() as int) =~= x);
}

/// The bytes of header lines, each ended by CR LF.
pub open spec fn header_block(lines: Seq<Seq<u8>>) -> Seq<u8>
    decreases lines.len(),
{
    if lines.len() == 0 {
        Seq::empty()
    } else {
        lines[0] + seq![CR, LF] + header_block(lines.drop_first())
    }
}

proof fn lemma_block_scan(s: Seq<u8>, i: int, lines: Seq<Seq<u8>>)
    requires
        0 <= i,
        i + header_block(lines).len() <= s.len(),
        s.subrange(i, i + header_block(lines).len()) == header_block(lines),
        forall|j: int| 0 <= j < lines.len() ==> is_header_line(#[trigger] lines[j]),
    ensures
        blank_scan(s, i, true) == blank_scan(s, i + header_block(lines).len(), true),
    decreases lines.len(),
{
    if lines.len() > 0 {
        let l = lines[0];
        let b = header_block(lines);
        let n = l.len() + 2;
        assert(s.subrange(i, i + n) =~= b.subrange(0, n as int));
        assert(b.subrange(0, n as int) =~= l + seq![CR, LF]);
        lemma_scan_line(s, i, l);
        let rest = lines.drop_first();
        assert(b =~= l + seq![CR, LF] + header_block(rest));
        assert(b.subrange(n as int, b.len() as int) =~= header_block(rest));
        assert forall|k: int| 0 <= k < header_block(rest).len() implies s[i + n + k]
            == header_block(rest)[k] by {
            assert(s.subrange(i, i + b.len())[n + k] == b[n + k]);
        }
        assert(s.subrange(i + n, i + n + header_block(rest).len()) =~= header_block(rest));
        assert forall|j: int| 0 <= j < rest.len() implies is_header_line(#[trigger] rest[j]) by {
            assert(rest[j] == lines[j + 1]);
        }
        lemma_block_scan(s, i + n, rest);
    }
}

proof fn lemma_block_length(lines: Seq<Seq<u8>>, x: Seq<u8>)
    requires
        forall|j: int| 0 <= j < lines.len() ==> is_header_line(#[trigger] lines[j]),
        forall|j: int| 0 <= j < lines.len() ==> !line_names_length(#[trigger] lines[j]),
    ensures
        content_length(header_block(lines) + x) == content_length(x),
    decreases lines.len(),
{
    if lines.len() == 0 {
        assert(header_block(lines) + x =~= x);
    } else {
        let rest = lines.drop_first();
        assert forall|j: int| 0 <= j < rest.len() implies is_header_line(#[trigger] rest[j])
            && !line_names_length(rest[j]) by {
            assert(rest[j] == lines[j + 1]);
        }
        lemma_block_length(rest, x);
        assert(header_block(lines) + x =~= lines[0] + seq![CR, LF] + (header_block(rest) + x));
        lemma_length_line(lines[0], header_block(rest) + x);
    }
}

proof fn lemma_length_name_matches()
    ensures
        names_length(length_prefix().subrange(0, 14)),
{
    let n = length_prefix().subrange(0, 14);
    assert forall|i: int| 0 <= i < n.len() implies ascii_lower(#[trigger] n[i])
        == length_name()[i] by {
        if i == 0 {
        } else if i == 1 {
        } else if i == 2 {
        } else if i == 3 {
        } else if i == 4 {
        } else if i == 5 {
        } else if i == 6 {
        } else if i == 7 {
        } else if i == 8 {
        } else if i == 9 {
        } else if i == 10 {
        } else if i == 11 {
        } else if i == 12 {
        } else {
        }
    }
}

proof fn lemma_trim_digits(d: Seq<u8>)
    requires
        d.len() > 0,
        all_digits(d),
    ensures
        trim(seq![32u8] + d) == d,
{
    let v = seq![32u8] + d;
    assert(v.drop_first() =~= d);
    assert(is_digit_byte(d[0]));
    assert(trim_start(d) == d);
    assert(trim_start(v) == d);
    assert(is_digit_byte(d[d.len() - 1]));
}

/// Encoding a body and decoding the frame gives the body back, and a frame
/// takes up exactly its own bytes, whatever follows it in the stream.
pub proof fn lemma_frame_round_trip(body: Seq<u8>, rest: Seq<u8>)
    requires
        body.len() <= usize::MAX,
    ensures
        step_event(frame_bytes(body) + rest) == Some(FrameEvent::Message(body)),
        step_len(frame_step(frame_bytes(body) + rest)) == frame_bytes(body).len(),
        decode_all(frame_bytes(body)) == seq![FrameEvent::Message(body)],
{
    lemma_frame_step(body, rest);
    lemma_frame_step(body, Seq::empty());
    let f = frame_bytes(body);
    assert(f + Seq::<u8>::empty() =~= f);
    assert(f.subrange(f.len() as int, f.len() as int) =~= Seq::<u8>::empty());
    assert(frame_step(Seq::<u8>::empty()) == FrameStep::Incomplete);
    assert(decode_all(Seq::<u8>::empty()) == Seq::<FrameEvent>::empty());
    assert(seq![FrameEvent::Message(body)] + Seq::<FrameEvent>::empty() =~= seq![
        FrameEvent::Message(body),
    ]);
}

proof fn lemma_frame_step(body: Seq<u8>, rest: Seq<u8>)
    requires
        body.len() <= usize::MAX,
    ensures
        ({
            let s = frame_bytes(body) + rest;
            let q: int = 16 + decimal_bytes(body.len()).len() as int;
            &&& frame_step(s) == FrameStep::Message { body_start: (q + 4) as nat, body_len: body.len() }
            &&& s.subrange(q + 4, q + 4 + body.len()) == body
            &&& frame_bytes(body).len() == q + 4 + body.len()
        }),
{
    let d = decimal_bytes(body.len());
    lemma_decimal_digits(body.len());
    let p = length_prefix();
    let line = p + d;
    let s = frame_bytes(body) + rest;
    let q: int = 16 + d.len() as int;
    assert(s =~= line + seq![CR, LF] + (seq![CR, LF] + body + rest));
    assert forall|k: int| 0 <= k < line.len() implies line[k] != LF by {
        if k >= 16 {
            assert(line[k] == d[k - 16]);
            assert(is_digit_byte(d[k - 16]));
        }
    }
    // the scan passes the header line and stops at the blank line
    assert(s.subrange(0, q + 2) =~= line + seq![CR, LF]);
    lemma_scan_line(s, 0, line);
    assert(blank_at(s, q + 2));
    // the header line gives the body length
    let t = s.subrange(0, q + 2);
    lemma_index_of_after(line + seq![CR], seq![LF], LF);
    assert(t =~= (line + seq![CR]) + seq![LF]);
    assert(t.subrange(0, q + 1) =~= line + seq![CR]);
    assert((line + seq![CR]).drop_last() =~= line);
    assert(t.subrange(q + 2, t.len() as int) =~= Seq::<u8>::empty());
    lemma_index_of_after(p.subrange(0, 14), p.subrange(14, 16) + d, COLON);
    assert(line =~= p.subrange(0, 14) + (p.subrange(14, 16) + d));
    assert(line.subrange(0, 14) =~= p.subrange(0, 14));
    lemma_length_name_matches();
    assert(line.subrange(15, line.len() as int) =~= seq![32u8] + d);
    lemma_trim_digits(d);
    lemma_parse_decimal(body.len());
    assert(content_length(t) == Some(body.len()));
    assert(s.subrange(q + 4, q + 4 + body.len()) =~= body);
}

/// A header block without a `Content-Length` line, followed by a complete
/// frame, decodes to one malformed report for the block and then the frame's
/// body, and nothing else.
pub proof fn lemma_malformed_resync(lines: Seq<Seq<u8>>, body: Seq<u8>)
    requires
        forall|j: int| 0 <= j < lines.len() ==> is_header_line(#[trigger] lines[j]),
        forall|j: int| 0 <= j < lines.len() ==> !line_names_length(#[trigger] lines[j]),
        body.len() <= usize::MAX,
    ensures
        decode_all(header_block(lines) + seq![CR, LF] + frame_bytes(body)) == seq![
            FrameEvent::Malformed(header_block(lines)),
            FrameEvent::Message(body),
        ],
{
    let h = header_block(lines);
    let f = frame_bytes(body);
    let s = h + seq![CR, LF] + f;
    assert(s.subrange(0, h.len() as int) =~= h);
    lemma_block_scan(s, 0, lines);
    assert(blank_at(s, h.len() as int));
    assert(s.subrange(0, h.len() as int) + Seq::<u8>::empty() =~= h);
    lemma_block_length(lines, Seq::empty());
    assert(content_length(Seq::<u8>::empty()) is None);
    assert(s.subrange(h.len() + 2 as int, s.len() as int) =~= f);
    lemma_frame_round_trip(body, Seq::empty());
}

} // verus!
