//! Message encoding: turning an ordered conversation into the wire-ready
//! sequence of `{role, content}` pairs.
//!
//! Simple turns map to one pair each; a tool-call or status turn expands to
//! exactly two pairs, an `assistant` pair followed by a `tool` pair. The
//! expansion preserves order and never merges or drops turns.

use vstd::prelude::*;

verus! {

/// One turn of the conversation, as the caller owns it.
#[derive(Debug)]
pub enum Message {
    System(String),
    User(String),
    Assistant(String),
    /// An assistant turn that requested a tool, paired with the tool's result.
    ToolCall((String, String)),
    /// A status exchange, carried the same way as a tool call.
    Status((String, String)),
}

/// The role tag of one wire pair.
#[derive(PartialEq, Eq, Structural, Clone, Copy, Debug)]
pub enum Role {
    System,
    User,
    Assistant,
    Tool,
}

/// One wire-ready `{role, content}` pair.
#[derive(Debug)]
pub struct WirePair {
    pub role: Role,
    pub content: String,
}

/// The mathematical value of a wire pair: its role and content characters.
pub struct PairV {
    pub role: Role,
    pub content: Seq<char>,
}

impl View for WirePair {
    type V = PairV;

    open spec fn view(&self) -> PairV {
        PairV { role: self.role, content: self.content@ }
    }
}

/// The views of a sequence of wire pairs.
pub open spec fn pairs_view(ps: Seq<WirePair>) -> Seq<PairV> {
    ps.map_values(|p: WirePair| p@)
}

/// The wire pairs that a single turn expands to.
pub open spec fn expansion(m: Message) -> Seq<PairV> {
    match m {
        Message::System(s) => seq![PairV { role: Role::System, content: s@ }],
        Message::User(s) => seq![PairV { role: Role::User, content: s@ }],
        Message::Assistant(s) => seq![PairV { role: Role::Assistant, content: s@ }],
        Message::ToolCall(p) => seq![
            PairV { role: Role::Assistant, content: p.0@ },
            PairV { role: Role::Tool, content: p.1@ },
        ],
        Message::Status(p) => seq![
            PairV { role: Role::Assistant, content: p.0@ },
            PairV { role: Role::Tool, content: p.1@ },
        ],
    }
}

/// The wire pairs of the turns from index `i` on, in order.
pub open spec fn wire_from(ms: Seq<Message>, i: int) -> Seq<PairV>
    decreases ms.len() - i,
{
    if i < 0 || i >= ms.len() {
        Seq::empty()
    } else {
        expansion(ms[i]) + wire_from(ms, i + 1)
    }
}

/// The full wire expansion of a conversation.
pub open spec fn wire_of(ms: Seq<Message>) -> Seq<PairV> {
    wire_from(ms, 0)
}

/// Where turn `i`'s expansion begins in the wire sequence.
pub open spec fn wire_pos(ms: Seq<Message>, i: int) -> int
    decreases i,
{
    if i <= 0 {
        0
    } else {
        wire_pos(ms, i - 1) + expansion(ms[i - 1]).len()
    }
}

/// Whether a turn is one of the three single-pair kinds.
pub open spec fn is_simple(m: Message) -> bool {
    match m {
        Message::System(_) => true,
        Message::User(_) => true,
        Message::Assistant(_) => true,
        Message::ToolCall(_) => false,
        Message::Status(_) => false,
    }
}

/// The role a simple turn maps to.
pub open spec fn simple_role(m: Message) -> Role {
    match m {
        Message::System(_) => Role::System,
        Message::User(_) => Role::User,
        Message::Assistant(_) => Role::Assistant,
        Message::ToolCall(_) => Role::Assistant,
        Message::Status(_) => Role::Assistant,
    }
}

/// The content a simple turn carries.
pub open spec fn simple_content(m: Message) -> Seq<char> {
    match m {
        Message::System(s) => s@,
        Message::User(s) => s@,
        Message::Assistant(s) => s@,
        Message::ToolCall(p) => p.0@,
        Message::Status(p) => p.0@,
    }
}

/// Encode a conversation into its wire pairs, in order.
pub fn encode_messages(ms: &Vec<Message>) -> (pairs: Vec<WirePair>)
    ensures
        pairs_view(pairs@) == wire_of(ms@),
{
    let mut pairs: Vec<WirePair> = Vec::new();
    let mut i: usize = 0;
    while i < ms.len()
        invariant
            i <= ms.len(),
            pairs_view(pairs@) + wire_from(ms@, i as int) == wire_of(ms@),
        decreases ms.len() - i,
    {
        let ghost before = pairs_view(pairs@);
        match &ms[i] {
            Message::System(s) => {
                pairs.push(WirePair { role: Role::System, content: s.clone() });
            },
            Message::User(s) => {
                pairs.push(WirePair { role: Role::User, content: s.clone() });
            },
            Message::Assistant(s) => {
                pairs.push(WirePair { role: Role::Assistant, content: s.clone() });
            },
            Message::ToolCall(p) => {
                pairs.push(WirePair { role: Role::Assistant, content: p.0.clone() });
                pairs.push(WirePair { role: Role::Tool, content: p.1.clone() });
            },
            Message::Status(p) => {
                pairs.push(WirePair { role: Role::Assistant, content: p.0.clone() });
                pairs.push(WirePair { role: Role::Tool, content: p.1.clone() });
            },
        }
        proof {
            assert(pairs_view(pairs@) =~= before + expansion(ms@[i as int]));
            assert(pairs_view(pairs@) + wire_from(ms@, i as int + 1) =~= wire_of(ms@));
        }
        i = i + 1;
    }
    proof {
        assert(pairs_view(pairs@) =~= wire_of(ms@));
    }
    pairs
}

/// The suffix of the wire sequence starting at turn `i` is exactly the
/// expansion of the turns from `i` on.
pub proof fn lemma_wire_split(ms: Seq<Message>, i: int)
    requires
        0 <= i <= ms.len(),
    ensures
        0 <= wire_pos(ms, i) <= wire_of(ms).len(),
        wire_of(ms).subrange(wire_pos(ms, i), wire_of(ms).len() as int) == wire_from(ms, i),
    decreases i,
{
    if i == 0 {
        assert(wire_of(ms).subrange(0, wire_of(ms).len() as int) =~= wire_from(ms, 0));
    } else {
        lemma_wire_split(ms, i - 1);
        let all = wire_of(ms);
        let hi = all.len() as int;
        let p0 = wire_pos(ms, i - 1);
        let p = wire_pos(ms, i);
        let e = expansion(ms[i - 1]).len() as int;
        assert(wire_from(ms, i - 1) == expansion(ms[i - 1]) + wire_from(ms, i));
        assert(all.subrange(p0, hi).len() == wire_from(ms, i - 1).len());
        assert(hi - p0 == e + wire_from(ms, i).len());
        assert(p == p0 + e);
        assert forall|k: int| 0 <= k < wire_from(ms, i).len() implies all[p + k] == wire_from(
            ms,
            i,
        )[k] by {
            assert(all.subrange(p0, hi)[e + k] == all[p0 + e + k]);
            assert(wire_from(ms, i - 1)[e + k] == wire_from(ms, i)[k]);
        }
        assert(all.subrange(p, hi) =~= wire_from(ms, i));
    }
}

/// A conversation of simple turns encodes one-to-one: one wire pair per
/// turn, in the conversation's own order, with the role mapped directly.
pub proof fn lemma_simple_turns_one_to_one(ms: Seq<Message>)
    requires
        forall|i: int| 0 <= i < ms.len() ==> is_simple(#[trigger] ms[i]),
    ensures
        wire_of(ms).len() == ms.len(),
        forall|i: int| 0 <= i < ms.len() ==> wire_of(ms)[i]
            == (PairV { role: simple_role(ms[i]), content: simple_content(ms[i]) }),
{
    lemma_simple_suffix(ms, 0);
}

proof fn lemma_simple_suffix(ms: Seq<Message>, i: int)
    requires
        0 <= i <= ms.len(),
        forall|j: int| 0 <= j < ms.len() ==> is_simple(#[trigger] ms[j]),
    ensures
        wire_from(ms, i).len() == ms.len() - i,
        forall|j: int| 0 <= j < ms.len() - i ==> wire_from(ms, i)[j]
            == (PairV { role: simple_role(ms[i + j]), content: simple_content(ms[i + j]) }),
    decreases ms.len() - i,
{
    if i < ms.len() {
        lemma_simple_suffix(ms, i + 1);
        assert(expansion(ms[i]).len() == 1);
        assert(expansion(ms[i])[0]
            == (PairV { role: simple_role(ms[i]), content: simple_content(ms[i]) }));
    }
}

/// A tool-call or status turn contributes exactly two adjacent wire pairs:
/// an assistant pair carrying the first element, then a tool pair carrying
/// the second.
pub proof fn lemma_paired_turn_two_pairs(ms: Seq<Message>, i: int, a: Seq<char>, t: Seq<char>)
    requires
        0 <= i < ms.len(),
        expansion(ms[i]) == seq![
            PairV { role: Role::Assistant, content: a },
            PairV { role: Role::Tool, content: t },
        ],
    ensures
        wire_pos(ms, i + 1) == wire_pos(ms, i) + 2,
        0 <= wire_pos(ms, i) && wire_pos(ms, i) + 2 <= wire_of(ms).len(),
        wire_of(ms)[wire_pos(ms, i)] == (PairV { role: Role::Assistant, content: a }),
        wire_of(ms)[wire_pos(ms, i) + 1] == (PairV { role: Role::Tool, content: t }),
{
    lemma_wire_split(ms, i);
    assert(wire_from(ms, i) == expansion(ms[i]) + wire_from(ms, i + 1));
    let all = wire_of(ms);
    let hi = all.len() as int;
    let p = wire_pos(ms, i);
    let suffix = all.subrange(p, hi);
    assert(suffix.len() == wire_from(ms, i).len());
    assert(wire_from(ms, i).len() == 2 + wire_from(ms, i + 1).len());
    assert(suffix[0] == all[p + 0]);
    assert(suffix[1] == all[p + 1]);
    assert(wire_from(ms, i)[0] == (PairV { role: Role::Assistant, content: a }));
    assert(wire_from(ms, i)[1] == (PairV { role: Role::Tool, content: t }));
}

} // verus!
