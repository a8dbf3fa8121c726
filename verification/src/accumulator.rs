//! Stream accumulation: folding the decoded chunk sequence into the final
//! text and the aggregated tool-call list.
//!
//! The fold is lossy-forward: a frame that failed to decode is skipped, a
//! chunk without a choice is skipped, and the stream always runs to its
//! end. Text deltas are concatenated in arrival order; tool-call fragments
//! are appended in arrival order, duplicates and all, never merged by name.

use vstd::prelude::*;
use vstd::string::StringExecFns;

verus! {

/// One decoded stream frame.
#[derive(Debug)]
pub struct ChatCompletionChunk {
    pub choices: Vec<Choice>,
}

/// The single choice a frame may carry.
#[derive(Debug)]
pub struct Choice {
    pub delta: Delta,
}

/// The incremental piece of model output carried by one chunk.
#[derive(Debug)]
pub struct Delta {
    pub content: Option<String>,
    pub tool_calls: Option<Vec<ToolCall>>,
}

/// One tool-call fragment of a delta.
#[derive(Debug)]
pub struct ToolCall {
    pub function: Function,
}

/// The name and serialized arguments of a tool-call fragment.
#[derive(Debug)]
pub struct Function {
    pub name: String,
    pub arguments: String,
}

/// A resolved tool call in the final result.
#[derive(Debug)]
pub struct ResolvedToolCall {
    pub name: String,
    pub arguments: String,
}

/// The final accumulated result of one completion call.
#[derive(Debug)]
pub struct Response {
    pub text: String,
    pub tool_calls: Vec<ResolvedToolCall>,
}

/// One item of the decoded sequence, as the accumulator sees it: a chunk,
/// or a frame that failed to decode (malformed JSON or a read error).
pub enum StreamItem {
    Malformed,
    Chunk(ChatCompletionChunk),
}

/// The name/arguments view of one tool-call fragment.
pub open spec fn call_view(t: ToolCall) -> (Seq<char>, Seq<char>) {
    (t.function.name@, t.function.arguments@)
}

/// The name/arguments views of the resolved tool calls.
pub open spec fn resolved_view(rs: Seq<ResolvedToolCall>) -> Seq<(Seq<char>, Seq<char>)> {
    rs.map_values(|r: ResolvedToolCall| (r.name@, r.arguments@))
}

/// The name/arguments views of a sequence of tool-call fragments.
pub open spec fn calls_of(tcs: Seq<ToolCall>) -> Seq<(Seq<char>, Seq<char>)> {
    tcs.map_values(|t: ToolCall| call_view(t))
}

/// The text delta an item carries, if any: the content of its first
/// choice. A malformed frame and a chunk without a choice carry none.
pub open spec fn item_content(it: StreamItem) -> Option<Seq<char>> {
    match it {
        StreamItem::Malformed => None,
        StreamItem::Chunk(c) => if c.choices.len() == 0 {
            None
        } else {
            match c.choices[0].delta.content {
                Some(s) => Some(s@),
                None => None,
            }
        },
    }
}

/// The text an item contributes to the final result.
pub open spec fn item_text(it: StreamItem) -> Seq<char> {
    match item_content(it) {
        Some(s) => s,
        None => Seq::empty(),
    }
}

/// The tool calls an item contributes, in fragment order.
pub open spec fn item_calls(it: StreamItem) -> Seq<(Seq<char>, Seq<char>)> {
    match it {
        StreamItem::Malformed => Seq::empty(),
        StreamItem::Chunk(c) => if c.choices.len() == 0 {
            Seq::empty()
        } else {
            match c.choices[0].delta.tool_calls {
                Some(tcs) => calls_of(tcs@),
                None => Seq::empty(),
            }
        },
    }
}

/// The concatenated text of a whole item sequence.
pub open spec fn total_text(items: Seq<StreamItem>) -> Seq<char>
    decreases items.len(),
{
    if items.len() == 0 {
        Seq::empty()
    } else {
        item_text(items[0]) + total_text(items.drop_first())
    }
}

/// The aggregated tool calls of a whole item sequence.
pub open spec fn total_calls(items: Seq<StreamItem>) -> Seq<(Seq<char>, Seq<char>)>
    decreases items.len(),
{
    if items.len() == 0 {
        Seq::empty()
    } else {
        item_calls(items[0]) + total_calls(items.drop_first())
    }
}

/// The accumulation state machine: created empty, fed one item per frame,
/// frozen into a `Response` when the stream ends.
pub struct Accumulator {
    text: String,
    tool_calls: Vec<ResolvedToolCall>,
}

impl Accumulator {
    /// The text gathered so far.
    pub closed spec fn text_view(&self) -> Seq<char> {
        self.text@
    }

    /// The tool calls gathered so far, in arrival order.
    pub closed spec fn calls_view(&self) -> Seq<(Seq<char>, Seq<char>)> {
        resolved_view(self.tool_calls@)
    }

    pub fn new() -> (a: Self)
        ensures
            a.text_view() == Seq::<char>::empty(),
            a.calls_view() == Seq::<(Seq<char>, Seq<char>)>::empty(),
    {
        let a = Accumulator { text: String::new(), tool_calls: Vec::new() };
        proof {
            assert(a.calls_view() =~= Seq::<(Seq<char>, Seq<char>)>::empty());
        }
        a
    }

    /// Fold one item into the state. The returned text, if any, is the
    /// delta to echo to the live output channel; it is exactly what this
    /// call appended to the accumulated text.
    pub fn feed(&mut self, item: StreamItem) -> (echo: Option<String>)
        ensures
            final(self).text_view() == old(self).text_view() + item_text(item),
            final(self).calls_view() == old(self).calls_view() + item_calls(item),
            echo is Some <==> item_content(item) is Some,
            echo is Some ==> echo.unwrap()@ == item_text(item),
    {
        match item {
            StreamItem::Malformed => {
                proof {
                    assert(self.text_view() =~= self.text_view() + item_text(item));
                    assert(self.calls_view() =~= self.calls_view() + item_calls(item));
                }
                None
            },
            StreamItem::Chunk(c) => {
                let ghost it = StreamItem::Chunk(c);
                if c.choices.len() == 0 {
                    proof {
                        assert(self.text_view() =~= self.text_view() + item_text(it));
                        assert(self.calls_view() =~= self.calls_view() + item_calls(it));
                    }
                    return None;
                }
                let mut choices = c.choices;
                let choice = choices.remove(0);
                let content = choice.delta.content;
                let tool_calls = choice.delta.tool_calls;
                if let Some(tcs) = tool_calls {
                    let ghost calls0 = self.calls_view();
                    let mut k: usize = 0;
                    while k < tcs.len()
                        invariant
                            k <= tcs.len(),
                            self.text_view() == old(self).text_view(),
                            self.calls_view() == calls0 + calls_of(tcs@.subrange(0, k as int)),
                        decreases tcs.len() - k,
                    {
                        let t = &tcs[k];
                        let ghost prev = self.tool_calls@;
                        let rc = ResolvedToolCall {
                            name: t.function.name.clone(),
                            arguments: t.function.arguments.clone(),
                        };
                        proof {
                            assert((rc.name@, rc.arguments@) == call_view(tcs@[k as int]));
                        }
                        self.tool_calls.push(rc);
                        proof {
                            let pushed = self.tool_calls@;
                            let rhs = calls0 + calls_of(tcs@.subrange(0, k as int + 1));
                            assert(resolved_view(prev).len() == prev.len());
                            assert(prev.len() == calls0.len() + k);
                            assert forall|j: int| 0 <= j < pushed.len() implies resolved_view(
                                pushed,
                            )[j] == rhs[j] by {
                                let sub1 = tcs@.subrange(0, k as int + 1);
                                if j >= calls0.len() {
                                    assert(0 <= j - calls0.len() < sub1.len());
                                    assert(calls_of(sub1)[j - calls0.len()] == call_view(
                                        sub1[j - calls0.len()],
                                    ));
                                }
                                if j < prev.len() {
                                    assert(pushed[j] == prev[j]);
                                    assert(resolved_view(pushed)[j] == resolved_view(prev)[j]);
                                    assert(resolved_view(prev)[j] == (calls0 + calls_of(
                                        tcs@.subrange(0, k as int),
                                    ))[j]);
                                    if j >= calls0.len() {
                                        let jj = j - calls0.len();
                                        assert(calls_of(tcs@.subrange(0, k as int))[jj]
                                            == call_view(tcs@.subrange(0, k as int)[jj]));
                                        assert(tcs@.subrange(0, k as int)[jj] == tcs@[jj]);
                                        assert(sub1[jj] == tcs@[jj]);
                                    }
                                } else {
                                    assert(pushed[j] == rc);
                                    assert(resolved_view(pushed)[j] == (rc.name@, rc.arguments@));
                                    assert(sub1[j - calls0.len()] == tcs@[k as int]);
                                }
                            }
                            assert(resolved_view(pushed) =~= rhs);
                        }
                        k = k + 1;
                    }
                    proof {
                        assert(tcs@.subrange(0, tcs@.len() as int) =~= tcs@);
                        assert(self.calls_view() =~= old(self).calls_view() + item_calls(it));
                    }
                } else {
                    proof {
                        assert(self.calls_view() =~= old(self).calls_view() + item_calls(it));
                    }
                }
                match content {
                    Some(s) => {
                        self.text.append(s.as_str());
                        proof {
                            assert(self.text_view() =~= old(self).text_view() + item_text(it));
                        }
                        Some(s)
                    },
                    None => {
                        proof {
                            assert(self.text_view() =~= old(self).text_view() + item_text(it));
                        }
                        None
                    },
                }
            },
        }
    }

    /// Freeze the state into the final result.
    pub fn finish(self) -> (r: Response)
        ensures
            r.text@ == self.text_view(),
            resolved_view(r.tool_calls@) == self.calls_view(),
    {
        Response { text: self.text, tool_calls: self.tool_calls }
    }
}

/// Fold a whole recorded item sequence and freeze the result.
pub fn accumulate_all(items: Vec<StreamItem>) -> (r: Response)
    ensures
        r.text@ == total_text(items@),
        resolved_view(r.tool_calls@) == total_calls(items@),
{
    let ghost orig = items@;
    let mut items = items;
    let mut acc = Accumulator::new();
    while items.len() > 0
        invariant
            acc.text_view() + total_text(items@) == total_text(orig),
            acc.calls_view() + total_calls(items@) == total_calls(orig),
        decreases items.len(),
    {
        let ghost before_items = items@;
        let it = items.remove(0);
        proof {
            assert(items@ =~= before_items.drop_first());
        }
        let _ = acc.feed(it);
        proof {
            assert(acc.text_view() + total_text(items@) =~= total_text(orig));
            assert(acc.calls_view() + total_calls(items@) =~= total_calls(orig));
        }
    }
    proof {
        assert(acc.text_view() =~= total_text(orig));
        assert(acc.calls_view() =~= total_calls(orig));
    }
    acc.finish()
}

} // verus!
