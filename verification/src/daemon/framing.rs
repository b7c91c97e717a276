//! Newline framing: one request line per control connection, and an endless
//! stream of event lines from niri.

use vstd::prelude::*;

verus! {

/// Largest request line that is buffered before the connection is dropped.
pub const MAX_REQUEST_BYTES: usize = 65536;

/// Largest event line before the stream is treated as broken.
pub const MAX_EVENT_BYTES: usize = 1048576;

/// The line terminator.
pub const NEWLINE: u8 = 10;

/// What has become of a request after some more bytes.
#[derive(Debug, PartialEq, Eq)]
pub enum Framed {
    /// The request line, without its terminator.
    Line(Vec<u8>),
    /// No terminator yet.
    More,
    /// No terminator within the limit.
    TooLong,
}

/// The bytes of a request that has not ended yet.
#[derive(Debug)]
pub struct RequestBuffer {
    bytes: Vec<u8>,
}

/// The bytes of an event line that has not ended yet.
#[derive(Debug)]
pub struct EventBuffer {
    bytes: Vec<u8>,
}

/// What has become of a line that is read byte by byte.
#[derive(Debug, Clone, Copy, PartialEq, Eq, Structural)]
pub enum LineStep {
    /// The line is complete.
    Done,
    /// Read on.
    More,
    /// No terminator within the limit.
    TooLong,
}

/// A line that is read byte by byte, so that nothing after it is swallowed.
#[derive(Debug)]
pub struct LineReader {
    bytes: Vec<u8>,
}

// ------------------------------------------------------------------- model

impl View for LineReader {
    type V = Seq<u8>;

    closed spec fn view(&self) -> Seq<u8> {
        self.bytes@
    }
}

impl View for RequestBuffer {
    type V = Seq<u8>;

    closed spec fn view(&self) -> Seq<u8> {
        self.bytes@
    }
}

impl View for EventBuffer {
    type V = Seq<u8>;

    closed spec fn view(&self) -> Seq<u8> {
        self.bytes@
    }
}

/// [`Framed`] over byte sequences.
pub ghost enum FramedSpec {
    Line(Seq<u8>),
    More,
    TooLong,
}

impl View for Framed {
    type V = FramedSpec;

    open spec fn view(&self) -> FramedSpec {
        match *self {
            Framed::Line(l) => FramedSpec::Line(l@),
            Framed::More => FramedSpec::More,
            Framed::TooLong => FramedSpec::TooLong,
        }
    }
}

/// Where the line that starts at `from` ends: at its terminator, or at the end
/// of the bytes.
pub open spec fn line_end(s: Seq<u8>, from: int) -> int
    decreases s.len() - from,
{
    if from >= s.len() || s[from] == NEWLINE {
        from
    } else {
        line_end(s, from + 1)
    }
}

/// What one more byte makes of a line of which `bytes` were read.
pub open spec fn line_step(bytes: Seq<u8>, byte: u8) -> (Seq<u8>, LineStep) {
    if byte == NEWLINE {
        (bytes, LineStep::Done)
    } else if bytes.len() + 1 > MAX_EVENT_BYTES {
        (bytes.push(byte), LineStep::TooLong)
    } else {
        (bytes.push(byte), LineStep::More)
    }
}

/// What the bytes received so far make of a request.
pub open spec fn framed(s: Seq<u8>) -> FramedSpec {
    let end = line_end(s, 0);
    if end < s.len() {
        FramedSpec::Line(s.take(end))
    } else if s.len() > MAX_REQUEST_BYTES {
        FramedSpec::TooLong
    } else {
        FramedSpec::More
    }
}

/// The complete lines of `s`, without their terminators.
pub open spec fn lines(s: Seq<u8>) -> Seq<Seq<u8>>
    decreases s.len(),
{
    proof {
        lemma_line_end(s, 0);
    }
    let end = line_end(s, 0);
    if end < s.len() {
        seq![s.take(end)] + lines(s.skip(end + 1))
    } else {
        Seq::empty()
    }
}

/// What follows the last terminator of `s`.
pub open spec fn unfinished(s: Seq<u8>) -> Seq<u8>
    decreases s.len(),
{
    proof {
        lemma_line_end(s, 0);
    }
    let end = line_end(s, 0);
    if end < s.len() {
        unfinished(s.skip(end + 1))
    } else {
        s
    }
}

/// The contents of a list of lines.
pub open spec fn contents(v: Seq<Vec<u8>>) -> Seq<Seq<u8>> {
    v.map_values(|l: Vec<u8>| l@)
}

/// All chunks one after the other.
pub open spec fn joined(chunks: Seq<Seq<u8>>) -> Seq<u8>
    decreases chunks.len(),
{
    if chunks.len() == 0 {
        Seq::empty()
    } else {
        joined(chunks.drop_last()) + chunks.last()
    }
}

/// What comes of a request when its bytes arrive in these chunks: reading stops
/// at the first chunk that completes the line or exceeds the limit.
pub open spec fn received(chunks: Seq<Seq<u8>>) -> FramedSpec
    decreases chunks.len(),
{
    if chunks.len() == 0 {
        FramedSpec::More
    } else if received(chunks.drop_last()) != FramedSpec::More {
        received(chunks.drop_last())
    } else {
        framed(joined(chunks))
    }
}

/// The event lines and the unfinished rest when the bytes arrive in these
/// chunks, each chunk added to the rest that the ones before left.
pub open spec fn received_events(chunks: Seq<Seq<u8>>) -> (Seq<Seq<u8>>, Seq<u8>)
    decreases chunks.len(),
{
    if chunks.len() == 0 {
        (Seq::empty(), Seq::empty())
    } else {
        let (done, rest) = received_events(chunks.drop_last());
        (done + lines(rest + chunks.last()), unfinished(rest + chunks.last()))
    }
}

/// [`line_end`] is a position at which the line ends, and the first one.
pub proof fn lemma_line_end(s: Seq<u8>, from: int)
    requires
        0 <= from <= s.len(),
    ensures
        from <= line_end(s, from) <= s.len(),
        line_end(s, from) < s.len() ==> s[line_end(s, from)] == NEWLINE,
        forall|i: int| from <= i < line_end(s, from) ==> s[i] != NEWLINE,
    decreases s.len() - from,
{
    if from < s.len() && s[from] != NEWLINE {
        lemma_line_end(s, from + 1);
    }
}

/// The first terminator determines [`line_end`].
proof fn lemma_line_end_is(s: Seq<u8>, from: int, end: int)
    requires
        0 <= from <= end <= s.len(),
        end < s.len() ==> s[end] == NEWLINE,
        forall|i: int| from <= i < end ==> s[i] != NEWLINE,
    ensures
        line_end(s, from) == end,
    decreases end - from,
{
    if from < end {
        lemma_line_end_is(s, from + 1, end);
    }
}

// -------------------------------------------------------------------- code

/// The bytes `v[from..to]`.
fn part(v: &Vec<u8>, from: usize, to: usize) -> (r: Vec<u8>)
    requires
        from <= to <= v@.len(),
    ensures
        r@ == v@.subrange(from as int, to as int),
{
    let mut out: Vec<u8> = Vec::new();
    let mut i: usize = from;
    while i < to
        invariant
            from <= i <= to <= v@.len(),
            out@ == v@.subrange(from as int, i as int),
        decreases to - i,
    {
        out.push(v[i]);
        i += 1;
    }
    out
}

/// Where the line of `v` that starts at `from` ends.
fn find_end(v: &Vec<u8>, from: usize) -> (r: usize)
    requires
        from <= v@.len(),
    ensures
        r == line_end(v@, from as int),
        from <= r <= v@.len(),
{
    proof {
        lemma_line_end(v@, from as int);
    }
    let mut i: usize = from;
    while i < v.len() && v[i] != NEWLINE
        invariant
            from <= i <= v@.len(),
            line_end(v@, i as int) == line_end(v@, from as int),
        decreases v@.len() - i,
    {
        i += 1;
    }
    i
}

impl RequestBuffer {
    /// Nothing received yet.
    pub fn new() -> (r: RequestBuffer)
        ensures
            r@ == Seq::<u8>::empty(),
    {
        RequestBuffer { bytes: Vec::new() }
    }

    /// Take in `chunk` and say what the request has become. The limit is only
    /// looked at when there is no terminator yet.
    pub fn push(&mut self, chunk: &[u8]) -> (r: Framed)
        ensures
            final(self)@ == old(self)@ + chunk@,
            r@ == framed(old(self)@ + chunk@),
    {
        self.bytes.extend_from_slice(chunk);
        assert(self.bytes@ =~= old(self)@ + chunk@);
        let end = find_end(&self.bytes, 0);
        if end < self.bytes.len() {
            let line = part(&self.bytes, 0, end);
            assert(line@ =~= self.bytes@.take(end as int));
            Framed::Line(line)
        } else if self.bytes.len() > MAX_REQUEST_BYTES {
            Framed::TooLong
        } else {
            Framed::More
        }
    }
}

impl EventBuffer {
    /// Nothing received yet.
    pub fn new() -> (r: EventBuffer)
        ensures
            r@ == Seq::<u8>::empty(),
    {
        EventBuffer { bytes: Vec::new() }
    }

    /// Take in `chunk`: the lines that are complete now, and whether what is
    /// left over exceeds the limit.
    pub fn push(&mut self, chunk: &[u8]) -> (r: (Vec<Vec<u8>>, bool))
        ensures
            contents(r.0@) == lines(old(self)@ + chunk@),
            final(self)@ == unfinished(old(self)@ + chunk@),
            r.1 == (final(self)@.len() > MAX_EVENT_BYTES),
    {
        let mut all: Vec<u8> = Vec::new();
        std::mem::swap(&mut all, &mut self.bytes);
        all.extend_from_slice(chunk);
        assert(all@ =~= old(self)@ + chunk@);
        let mut out: Vec<Vec<u8>> = Vec::new();
        let mut from: usize = 0;
        let mut end = find_end(&all, from);
        assert(all@.skip(0) =~= all@);
        while end < all.len()
            invariant
                from <= end <= all@.len(),
                end == line_end(all@, from as int),
                lines(all@) == contents(out@) + lines(all@.skip(from as int)),
                unfinished(all@) == unfinished(all@.skip(from as int)),
            decreases all@.len() - from,
        {
            let ghost before = contents(out@);
            proof {
                let tail = all@.skip(from as int);
                lemma_line_end(all@, from as int);
                lemma_line_end_is(tail, 0, end - from);
                assert(tail.take(end - from) =~= all@.subrange(from as int, end as int));
                assert(tail.skip(end - from + 1) =~= all@.skip(end + 1));
                assert(before + lines(tail) =~= before.push(
                    all@.subrange(from as int, end as int),
                ) + lines(all@.skip(end + 1)));
            }
            out.push(part(&all, from, end));
            assert(contents(out@) =~= before.push(all@.subrange(from as int, end as int)));
            from = end + 1;
            end = find_end(&all, from);
        }
        proof {
            let tail = all@.skip(from as int);
            lemma_line_end(all@, from as int);
            lemma_line_end_is(tail, 0, end - from);
            assert(contents(out@) + Seq::<Seq<u8>>::empty() =~= contents(out@));
            assert(tail =~= all@.subrange(from as int, all@.len() as int));
        }
        self.bytes = part(&all, from, all.len());
        let too_long = self.bytes.len() > MAX_EVENT_BYTES;
        (out, too_long)
    }
}

impl LineReader {
    /// Nothing read yet.
    pub fn new() -> (r: LineReader)
        ensures
            r@ == Seq::<u8>::empty(),
    {
        LineReader { bytes: Vec::new() }
    }

    /// Take in one byte. The terminator is not part of the line.
    pub fn push(&mut self, byte: u8) -> (r: LineStep)
        ensures
            final(self)@ == (if byte == NEWLINE {
                old(self)@
            } else {
                old(self)@.push(byte)
            }),
            r == (if byte == NEWLINE {
                LineStep::Done
            } else if old(self)@.len() + 1 > MAX_EVENT_BYTES {
                LineStep::TooLong
            } else {
                LineStep::More
            }),
            (final(self)@, r) == line_step(old(self)@, byte),
    {
        if byte == NEWLINE {
            return LineStep::Done;
        }
        self.bytes.push(byte);
        if self.bytes.len() > MAX_EVENT_BYTES {
            LineStep::TooLong
        } else {
            LineStep::More
        }
    }

    /// The bytes of the line so far.
    pub fn into_bytes(self) -> (r: Vec<u8>)
        ensures
            r@ == self@,
    {
        self.bytes
    }
}

// -------------------------------------------------------------------- laws

/// Splitting `a` and then its rest together with `b` is splitting `a + b`.
proof fn lemma_split_in_two(a: Seq<u8>, b: Seq<u8>)
    ensures
        lines(a + b) == lines(a) + lines(unfinished(a) + b),
        unfinished(a + b) == unfinished(unfinished(a) + b),
    decreases a.len(),
{
    lemma_line_end(a, 0);
    let end = line_end(a, 0);
    if end < a.len() {
        lemma_line_end_is(a + b, 0, end);
        lemma_split_in_two(a.skip(end + 1), b);
        assert((a + b).take(end) =~= a.take(end));
        assert((a + b).skip(end + 1) =~= a.skip(end + 1) + b);
        assert(lines(a + b) =~= lines(a) + lines(unfinished(a) + b));
    } else {
        assert(lines(a) + lines(a + b) =~= lines(a + b));
    }
}

/// However the bytes of the event stream are cut into chunks, the same lines
/// come out, in the same order, and the same rest is kept.
pub proof fn law_events_do_not_depend_on_chunks(chunks: Seq<Seq<u8>>)
    ensures
        received_events(chunks) == (lines(joined(chunks)), unfinished(joined(chunks))),
    decreases chunks.len(),
{
    if chunks.len() > 0 {
        law_events_do_not_depend_on_chunks(chunks.drop_last());
        lemma_split_in_two(joined(chunks.drop_last()), chunks.last());
    }
}

/// No line that comes out holds a terminator, and neither does the rest.
pub proof fn law_lines_hold_no_terminator(s: Seq<u8>)
    ensures
        forall|k: int, i: int|
            0 <= k < lines(s).len() && 0 <= i < lines(s)[k].len() ==> #[trigger] lines(s)[k][i]
                != NEWLINE,
        forall|i: int| 0 <= i < unfinished(s).len() ==> unfinished(s)[i] != NEWLINE,
    decreases s.len(),
{
    lemma_line_end(s, 0);
    let end = line_end(s, 0);
    if end < s.len() {
        law_lines_hold_no_terminator(s.skip(end + 1));
        assert forall|k: int, i: int|
            0 <= k < lines(s).len() && 0 <= i < lines(s)[k].len() implies #[trigger] lines(s)[k][i]
            != NEWLINE by {
            if k > 0 {
                assert(lines(s)[k] == lines(s.skip(end + 1))[k - 1]);
            }
        }
        assert(unfinished(s) == unfinished(s.skip(end + 1)));
    } else {
        assert(unfinished(s) == s);
    }
}

/// A request line within the limit arrives whole however it is cut into chunks,
/// and nothing that follows it matters.
pub proof fn law_request_does_not_depend_on_chunks(chunks: Seq<Seq<u8>>)
    requires
        line_end(joined(chunks), 0) < joined(chunks).len(),
        line_end(joined(chunks), 0) <= MAX_REQUEST_BYTES,
    ensures
        received(chunks) == FramedSpec::Line(joined(chunks).take(line_end(joined(chunks), 0))),
    decreases chunks.len(),
{
    let all = joined(chunks);
    let end = line_end(all, 0);
    lemma_line_end(all, 0);
    if chunks.len() > 0 {
        let first = joined(chunks.drop_last());
        assert(all == first + chunks.last());
        assert forall|i: int| 0 <= i < first.len() implies first[i] == all[i] by {}
        if end < first.len() {
            lemma_line_end_is(first, 0, end);
            law_request_does_not_depend_on_chunks(chunks.drop_last());
            assert(first.take(end) =~= all.take(end));
        } else {
            lemma_line_end_is(first, 0, first.len() as int);
            lemma_nothing_received(chunks.drop_last());
        }
    }
}

/// As long as there is no terminator and the limit is not exceeded, reading
/// goes on.
proof fn lemma_nothing_received(chunks: Seq<Seq<u8>>)
    requires
        line_end(joined(chunks), 0) == joined(chunks).len(),
        joined(chunks).len() <= MAX_REQUEST_BYTES,
    ensures
        received(chunks) == FramedSpec::More,
    decreases chunks.len(),
{
    if chunks.len() > 0 {
        let all = joined(chunks);
        let first = joined(chunks.drop_last());
        lemma_line_end(all, 0);
        assert(all == first + chunks.last());
        assert forall|i: int| 0 <= i < first.len() implies first[i] == all[i] by {}
        lemma_line_end_is(first, 0, first.len() as int);
        lemma_nothing_received(chunks.drop_last());
    }
}

/// Lines written out again, each with its terminator.
pub open spec fn terminated(lines: Seq<Seq<u8>>) -> Seq<u8>
    decreases lines.len(),
{
    if lines.len() == 0 {
        Seq::empty()
    } else {
        lines[0] + seq![10u8] + terminated(lines.skip(1))
    }
}

/// Nothing of the stream is lost or made up: its lines, each with its newline,
/// and then the rest are the bytes that came.
pub proof fn law_lines_rebuild_the_stream(s: Seq<u8>)
    ensures
        terminated(lines(s)) + unfinished(s) == s,
    decreases s.len(),
{
    lemma_line_end(s, 0);
    let end = line_end(s, 0);
    if end < s.len() {
        let rest = s.skip(end + 1);
        law_lines_rebuild_the_stream(rest);
        assert(lines(s).skip(1) =~= lines(rest));
        assert(lines(s)[0] == s.take(end));
        assert(s =~= s.take(end) + seq![10u8] + rest);
        assert(s.take(end) + seq![10u8] + terminated(lines(rest)) + unfinished(rest) =~= s.take(end)
            + seq![10u8] + (terminated(lines(rest)) + unfinished(rest)));
    } else {
        assert(terminated(lines(s)) + s =~= s);
    }
}

/// A request is what comes before its first newline.
pub proof fn law_request_ends_at_the_first_newline(s: Seq<u8>, k: int)
    requires
        0 <= k < s.len(),
        s[k] == 10,
        forall|i: int| 0 <= i < k ==> s[i] != 10,
    ensures
        framed(s) == FramedSpec::Line(s.take(k)),
{
    lemma_line_end_is(s, 0, k);
}

/// Without a newline there is no request: more bytes are awaited up to the
/// limit, and none beyond it.
pub proof fn law_request_without_a_newline(s: Seq<u8>)
    requires
        forall|i: int| 0 <= i < s.len() ==> s[i] != 10,
    ensures
        s.len() <= 65536 ==> framed(s) is More,
        s.len() > 65536 ==> framed(s) is TooLong,
{
    lemma_line_end_is(s, 0, s.len() as int);
}

/// A line that is read byte by byte is complete at its newline, which is no part
/// of it, and not before; it is given up when its bytes exceed the limit.
pub proof fn law_line_is_read_up_to_its_newline(bytes: Seq<u8>, byte: u8)
    ensures
        ({
            let (after, step) = line_step(bytes, byte);
            &&& step is Done <==> byte == 10
            &&& step is Done ==> after == bytes
            &&& step !is Done ==> after == bytes + seq![byte]
            &&& step is TooLong <==> byte != 10 && after.len() > 1_048_576
        }),
{
    assert(bytes.push(byte) =~= bytes + seq![byte]);
}

} // verus!
