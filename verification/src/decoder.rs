//! Frame decoding: classifying the lines of the event stream.
//!
//! The wire protocol delivers one JSON object per line, each data line
//! followed by exactly one blank separator line, the whole stream closed by
//! a sentinel line containing `[DONE]`. The decoder retains the lines at
//! even positions, ends the stream at the sentinel, and strips any framing
//! noise before the first `{` of a retained line. It hands the retained
//! payload bytes out as-is; turning them into a chunk value is the caller's
//! step, and a payload that fails to parse there must not end the stream.

use vstd::prelude::*;

verus! {

/// The sentinel bytes, `[DONE]`.
pub open spec fn done_bytes() -> Seq<u8> {
    seq![91u8, 68u8, 79u8, 78u8, 69u8, 93u8]
}

/// Whether the sentinel occurs anywhere in the line.
pub open spec fn contains_done(l: Seq<u8>) -> bool {
    exists|j: int| 0 <= j && j + 6 <= l.len() && #[trigger] l.subrange(j, j + 6) == done_bytes()
}

/// Index of the first `{` in the line, or its length if there is none.
pub open spec fn brace_index(l: Seq<u8>) -> int
    decreases l.len(),
{
    if l.len() == 0 {
        0
    } else if l[0] == 123 {
        0
    } else {
        1 + brace_index(l.drop_first())
    }
}

/// The payload of a retained line: the bytes from the first `{` on, or the
/// whole line when it has no `{` at all.
pub open spec fn payload_of(l: Seq<u8>) -> Seq<u8> {
    if brace_index(l) < l.len() {
        l.subrange(brace_index(l), l.len() as int)
    } else {
        l
    }
}

/// `brace_index` points at the first `{`: everything before it differs from
/// `{`, and it is in range exactly when the line holds a `{`.
pub proof fn lemma_brace_index(l: Seq<u8>)
    ensures
        0 <= brace_index(l) <= l.len(),
        brace_index(l) < l.len() ==> l[brace_index(l)] == 123,
        forall|j: int| 0 <= j < brace_index(l) ==> l[j] != 123,
    decreases l.len(),
{
    if l.len() > 0 && l[0] != 123 {
        lemma_brace_index(l.drop_first());
        assert forall|j: int| 0 <= j < brace_index(l) implies l[j] != 123 by {
            if j > 0 {
                assert(l.drop_first()[j - 1] == l[j]);
            }
        }
        if brace_index(l) < l.len() {
            assert(l.drop_first()[brace_index(l.drop_first())] == l[brace_index(l)]);
        }
    }
}

/// Whether the sentinel occurs in the line.
pub fn line_contains_done(line: &[u8]) -> (r: bool)
    ensures
        r == contains_done(line@),
{
    if line.len() < 6 {
        return false;
    }
    let mut i: usize = 0;
    while i <= line.len() - 6
        invariant
            line@.len() >= 6,
            i <= line.len(),
            forall|j: int| 0 <= j < i ==> #[trigger] line@.subrange(j, j + 6) != done_bytes(),
        decreases line.len() - i,
    {
        if line[i] == 91 && line[i + 1] == 68 && line[i + 2] == 79 && line[i + 3] == 78 && line[i
            + 4] == 69 && line[i + 5] == 93 {
            proof {
                assert(line@.subrange(i as int, i as int + 6) =~= done_bytes());
            }
            return true;
        }
        proof {
            let s = line@.subrange(i as int, i as int + 6);
            if s == done_bytes() {
                assert(s[0] == 91 && s[1] == 68 && s[2] == 79 && s[3] == 78 && s[4] == 69 && s[5]
                    == 93);
                assert(line@[i as int] == 91 && line@[i as int + 1] == 68 && line@[i as int + 2]
                    == 79 && line@[i as int + 3] == 78 && line@[i as int + 4] == 69 && line@[i
                    as int + 5] == 93);
            }
        }
        i = i + 1;
    }
    proof {
        assert forall|j: int| 0 <= j && j + 6 <= line@.len() implies #[trigger] line@.subrange(
            j,
            j + 6,
        ) != done_bytes() by {
            assert(j < i);
        }
    }
    false
}

/// Extract the payload of a retained line: the bytes from the first `{` on,
/// or the whole line when it has no `{`.
pub fn extract_payload(line: &[u8]) -> (r: Vec<u8>)
    ensures
        r@ == payload_of(line@),
{
    proof {
        lemma_brace_index(line@);
    }
    let mut i: usize = 0;
    let mut found = false;
    while i < line.len() && !found
        invariant
            i <= line.len(),
            !found ==> forall|j: int| 0 <= j < i ==> line@[j] != 123,
            found ==> i < line.len() && line@[i as int] == 123 && forall|j: int|
                0 <= j < i ==> line@[j] != 123,
        decreases line.len() - i + (if found { 0int } else { 1int }),
    {
        if line[i] == 123 {
            found = true;
        } else {
            i = i + 1;
        }
    }
    proof {
        lemma_brace_index(line@);
        if found {
            assert(brace_index(line@) == i as int) by {
                if brace_index(line@) < i as int {
                    assert(line@[brace_index(line@)] != 123);
                }
                if (i as int) < brace_index(line@) {
                    assert(line@[i as int] != 123);
                }
            }
        } else {
            assert(i == line@.len());
            assert(brace_index(line@) == line@.len()) by {
                if brace_index(line@) < line@.len() {
                    assert(line@[brace_index(line@)] != 123);
                }
            }
        }
    }
    let start = if found {
        i
    } else {
        0
    };
    let mut out: Vec<u8> = Vec::new();
    let mut k = start;
    while k < line.len()
        invariant
            start <= k <= line.len(),
            out@ == line@.subrange(start as int, k as int),
        decreases line.len() - k,
    {
        out.push(line[k]);
        proof {
            assert(out@ =~= line@.subrange(start as int, k as int + 1));
        }
        k = k + 1;
    }
    proof {
        if found {
            assert(out@ =~= payload_of(line@));
        } else {
            assert(out@ =~= line@);
        }
    }
    out
}

/// What the decoder makes of one line.
pub enum LineEvent {
    /// An odd-position separator line, discarded unread.
    Separator,
    /// The sentinel: the stream has ended, nothing more follows.
    Finished,
    /// The payload bytes of a retained line, to be parsed by the caller.
    Payload(Vec<u8>),
}

/// The mathematical value of a line event.
pub enum EventV {
    Separator,
    Finished,
    Payload(Seq<u8>),
}

impl View for LineEvent {
    type V = EventV;

    open spec fn view(&self) -> EventV {
        match self {
            LineEvent::Separator => EventV::Separator,
            LineEvent::Finished => EventV::Finished,
            LineEvent::Payload(v) => EventV::Payload(v@),
        }
    }
}

/// The views of a sequence of line events.
pub open spec fn events_view(evs: Seq<LineEvent>) -> Seq<EventV> {
    evs.map_values(|e: LineEvent| e@)
}

/// The views of a sequence of byte lines.
pub open spec fn lines_view(ls: Seq<Vec<u8>>) -> Seq<Seq<u8>> {
    ls.map_values(|l: Vec<u8>| l@)
}

/// The events a fresh decoder produces on the lines from index `i` on:
/// odd positions separate, an even position carrying the sentinel ends the
/// stream, and every other even position yields its payload.
pub open spec fn run(lines: Seq<Seq<u8>>, i: int) -> Seq<EventV>
    decreases lines.len() - i,
{
    if i < 0 || i >= lines.len() {
        Seq::empty()
    } else if i % 2 == 1 {
        seq![EventV::Separator] + run(lines, i + 1)
    } else if contains_done(lines[i]) {
        seq![EventV::Finished]
    } else {
        seq![EventV::Payload(payload_of(lines[i]))] + run(lines, i + 1)
    }
}

/// The incremental frame decoder: feed it the response lines one by one.
pub struct FrameDecoder {
    keep_next: bool,
    finished: bool,
}

impl FrameDecoder {
    /// Whether the next line fed is at an even position and will be retained.
    pub closed spec fn keeping(&self) -> bool {
        self.keep_next
    }

    /// Whether the sentinel has been seen.
    pub closed spec fn ended(&self) -> bool {
        self.finished
    }

    pub fn new() -> (d: Self)
        ensures
            d.keeping(),
            !d.ended(),
    {
        FrameDecoder { keep_next: true, finished: false }
    }

    /// Classify one line of the stream.
    pub fn feed_line(&mut self, line: &[u8]) -> (ev: LineEvent)
        ensures
            old(self).ended() ==> ev@ == EventV::Finished && *final(self) == *old(self),
            !old(self).ended() && !old(self).keeping() ==> ev@ == EventV::Separator
                && !final(self).ended() && final(self).keeping(),
            !old(self).ended() && old(self).keeping() && contains_done(line@) ==> ev@
                == EventV::Finished && final(self).ended(),
            !old(self).ended() && old(self).keeping() && !contains_done(line@) ==> ev@
                == EventV::Payload(payload_of(line@)) && !final(self).ended()
                && !final(self).keeping(),
    {
        if self.finished {
            return LineEvent::Finished;
        }
        if !self.keep_next {
            self.keep_next = true;
            return LineEvent::Separator;
        }
        if line_contains_done(line) {
            self.finished = true;
            return LineEvent::Finished;
        }
        self.keep_next = false;
        LineEvent::Payload(extract_payload(line))
    }
}

/// Decode a whole recorded stream: the events of every line up to and
/// including the sentinel, in order.
pub fn decode_all(lines: &Vec<Vec<u8>>) -> (events: Vec<LineEvent>)
    ensures
        events_view(events@) == run(lines_view(lines@), 0),
{
    let ghost lv = lines_view(lines@);
    let mut events: Vec<LineEvent> = Vec::new();
    let mut d = FrameDecoder::new();
    let mut i: usize = 0;
    while i < lines.len()
        invariant
            i <= lines.len(),
            d.keeping() == (i % 2 == 0),
            !d.ended(),
            lv == lines_view(lines@),
            events_view(events@) + run(lv, i as int) == run(lv, 0),
        decreases lines.len() - i,
    {
        let ghost before = events_view(events@);
        let ev = d.feed_line(lines[i].as_slice());
        proof {
            assert(lv[i as int] == lines@[i as int]@);
        }
        let fin = matches!(ev, LineEvent::Finished);
        events.push(ev);
        proof {
            assert(events_view(events@) =~= before.push(events@.last()@));
        }
        if fin {
            proof {
                assert(run(lv, i as int) =~= seq![EventV::Finished]);
                assert(events_view(events@) =~= run(lv, 0));
            }
            return events;
        }
        proof {
            assert(events_view(events@) + run(lv, i as int + 1) =~= run(lv, 0));
        }
        i = i + 1;
    }
    proof {
        assert(run(lv, i as int) =~= Seq::<EventV>::empty());
        assert(events_view(events@) =~= run(lv, 0));
    }
    events
}

/// A well-formed stream: each data line followed by one separator line,
/// the whole closed by a sentinel line.
pub open spec fn framed(chunks: Seq<Seq<u8>>, blank: Seq<u8>, last: Seq<u8>) -> Seq<Seq<u8>>
    decreases chunks.len(),
{
    if chunks.len() == 0 {
        seq![last]
    } else {
        seq![chunks[0], blank] + framed(chunks.drop_first(), blank, last)
    }
}

/// The payload items among a sequence of events, in order.
pub open spec fn payloads(evs: Seq<EventV>) -> Seq<Seq<u8>>
    decreases evs.len(),
{
    if evs.len() == 0 {
        Seq::empty()
    } else {
        match evs[0] {
            EventV::Payload(p) => seq![p] + payloads(evs.drop_first()),
            _ => payloads(evs.drop_first()),
        }
    }
}

/// The payloads of the data lines of a stream, in order.
pub open spec fn data_payloads(chunks: Seq<Seq<u8>>) -> Seq<Seq<u8>> {
    chunks.map_values(|c: Seq<u8>| payload_of(c))
}

/// Decoding is position-local: dropping one data line and its separator
/// shifts the rest of the run by two.
proof fn lemma_run_shift_two(lines: Seq<Seq<u8>>, i: int)
    requires
        2 <= i <= lines.len(),
    ensures
        run(lines, i) == run(lines.skip(2), i - 2),
    decreases lines.len() - i,
{
    if i < lines.len() {
        lemma_run_shift_two(lines, i + 1);
        assert(lines.skip(2)[i - 2] == lines[i]);
        if i % 2 == 1 {
            assert(run(lines, i) =~= run(lines.skip(2), i - 2));
        } else if contains_done(lines[i]) {
            assert(run(lines, i) =~= run(lines.skip(2), i - 2));
        } else {
            assert(run(lines, i) =~= run(lines.skip(2), i - 2));
        }
    } else {
        assert(run(lines, i) =~= Seq::<EventV>::empty());
        assert(lines.skip(2).len() == i - 2);
        assert(run(lines.skip(2), i - 2) =~= Seq::<EventV>::empty());
    }
}

/// Given a well-formed stream of data lines, none of which carries the
/// sentinel, each followed by a separator line and closed by a sentinel
/// line, the decoder yields exactly one payload item per data line, in
/// order, before it signals the end of the stream.
pub proof fn lemma_well_formed_stream(chunks: Seq<Seq<u8>>, blank: Seq<u8>, last: Seq<u8>)
    requires
        forall|i: int| 0 <= i < chunks.len() ==> !contains_done(#[trigger] chunks[i]),
        contains_done(last),
    ensures
        payloads(run(framed(chunks, blank, last), 0)) == data_payloads(chunks),
        run(framed(chunks, blank, last), 0).len() == 2 * chunks.len() + 1,
        run(framed(chunks, blank, last), 0).last() == EventV::Finished,
    decreases chunks.len(),
{
    let f = framed(chunks, blank, last);
    if chunks.len() == 0 {
        assert(f =~= seq![last]);
        assert(run(f, 0) =~= seq![EventV::Finished]);
        assert(run(f, 0)[0] == EventV::Finished);
        assert(run(f, 0).drop_first() =~= Seq::<EventV>::empty());
        assert(payloads(Seq::<EventV>::empty()) =~= Seq::<Seq<u8>>::empty());
        assert(payloads(run(f, 0)) =~= Seq::<Seq<u8>>::empty());
        assert(data_payloads(chunks) =~= Seq::<Seq<u8>>::empty());
    } else {
        let rest = chunks.drop_first();
        assert(forall|i: int| 0 <= i < rest.len() ==> !contains_done(#[trigger] rest[i])) by {
            assert(forall|i: int| 0 <= i < rest.len() ==> rest[i] == chunks[i + 1]);
        }
        lemma_well_formed_stream(rest, blank, last);
        assert(f[0] == chunks[0]);
        assert(f.len() == 2 + framed(rest, blank, last).len()) by {
            lemma_framed_len(chunks, blank, last);
            lemma_framed_len(rest, blank, last);
        }
        assert(!contains_done(f[0]));
        let tail1 = run(f, 1);
        let tail2 = run(f, 2);
        assert(run(f, 0) == seq![EventV::Payload(payload_of(chunks[0]))] + tail1);
        assert(tail1 == seq![EventV::Separator] + tail2);
        lemma_run_shift_two(f, 2);
        assert(f.skip(2) =~= framed(rest, blank, last));
        assert(tail2 == run(framed(rest, blank, last), 0));
        // Peel the two leading events off the payload filter.
        assert(run(f, 0).drop_first() =~= tail1);
        assert(payloads(run(f, 0)) == seq![payload_of(chunks[0])] + payloads(tail1));
        assert(tail1.drop_first() =~= tail2);
        assert(payloads(tail1) == payloads(tail2));
        assert(payloads(run(f, 0)) =~= data_payloads(chunks)) by {
            assert(data_payloads(rest) =~= data_payloads(chunks).drop_first());
        }
        assert(run(f, 0).len() == 2 * chunks.len() + 1);
        assert(run(f, 0).last() == tail2.last());
    }
}

/// The length of a well-formed stream: two lines per data line, plus the
/// sentinel line.
proof fn lemma_framed_len(chunks: Seq<Seq<u8>>, blank: Seq<u8>, last: Seq<u8>)
    ensures
        framed(chunks, blank, last).len() == 2 * chunks.len() + 1,
    decreases chunks.len(),
{
    if chunks.len() > 0 {
        lemma_framed_len(chunks.drop_first(), blank, last);
    }
}

/// A retained line that already begins with `{` is passed through whole:
/// stripping framing noise never touches a clean JSON line.
pub proof fn lemma_payload_of_json_line(l: Seq<u8>)
    requires
        l.len() > 0,
        l[0] == 123,
    ensures
        payload_of(l) == l,
{
    assert(brace_index(l) == 0);
    assert(l.subrange(0, l.len() as int) =~= l);
}

/// A retained line with no `{` at all is passed through whole — its parse
/// will fail downstream and become a decode-error item — and the decoder
/// goes on producing items for the lines after it.
pub proof fn lemma_braceless_line_keeps_stream(lines: Seq<Seq<u8>>, i: int)
    requires
        0 <= i < lines.len(),
        i % 2 == 0,
        !contains_done(lines[i]),
        forall|j: int| 0 <= j < lines[i].len() ==> lines[i][j] != 123,
    ensures
        run(lines, i) == seq![EventV::Payload(lines[i])] + run(lines, i + 1),
{
    lemma_brace_index(lines[i]);
    if brace_index(lines[i]) < lines[i].len() {
        assert(lines[i][brace_index(lines[i])] != 123);
    }
    assert(payload_of(lines[i]) == lines[i]);
}

} // verus!
