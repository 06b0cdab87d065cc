//! What is true of walks through a syntax tree.
use vstd::prelude::*;
use vstd::string::*;

use crate::cst::DocView;
use crate::lists;

verus! {

/// Whether each node of a way is the parent of the one before it.
pub open spec fn climbs(d: DocView, way: Seq<int>) -> bool {
    &&& way.len() > 0
    &&& forall|i: int| 0 <= i < way.len() ==> 0 <= #[trigger] way[i] < d.nodes.len()
    &&& forall|i: int|
        0 <= i < way.len() - 1 ==> d.nodes[#[trigger] way[i]].parent == Some(way[i + 1])
}

/// Whether a way leads up to the nearest node of a kind.
pub open spec fn reaches(d: DocView, way: Seq<int>, kind: Seq<char>) -> bool {
    &&& climbs(d, way)
    &&& d.nodes[way.last()].kind == kind
    &&& forall|i: int| 0 <= i < way.len() - 1 ==> d.nodes[#[trigger] way[i]].kind != kind
}

/// Whether a node is the first of a kind among the children of another.
pub open spec fn first_of(d: DocView, n: int, kind: Seq<char>, c: int) -> bool {
    exists|k: int|
        0 <= k < d.nodes[n].children.len() && #[trigger] d.nodes[n].children[k] == c
            && d.nodes[c].kind == kind && forall|j: int|
            0 <= j < k ==> d.nodes[#[trigger] d.nodes[n].children[j]].kind != kind
}

/// Whether no child of a node is of the kind.
pub open spec fn none_of(d: DocView, n: int, kind: Seq<char>) -> bool {
    forall|j: int|
        0 <= j < d.nodes[n].children.len() ==> d.nodes[#[trigger] d.nodes[n].children[j]].kind
            != kind
}

/// The text of a node is what stands between its ends.
pub open spec fn reads(d: DocView, n: int, s: Seq<char>) -> bool {
    s == d.text.subrange(d.nodes[n].start, d.nodes[n].end)
}

/// Whether a node declares a name: the first identifier among its children is the name.
pub open spec fn bears(d: DocView, n: int, name: Seq<char>) -> bool {
    exists|c: int| #[trigger] first_of(d, n, "simple_identifier"@, c) && reads(d, c, name)
}

/// Whether a node names what is called: an identifier, or the member that a navigation ends in.
pub open spec fn names(d: DocView, c: int, name: Seq<char>) -> bool {
    ||| d.nodes[c].kind == "simple_identifier"@ && reads(d, c, name)
    ||| d.nodes[c].kind == "navigation_expression"@ && exists|s: int| #[trigger]
        first_of(d, c, "navigation_suffix"@, s) && bears(d, s, name)
}

/// Whether a call calls a name. Where a call has arguments and a trailing lambda, the name and
/// the arguments stand in a call that is its first child.
pub open spec fn calls(d: DocView, call: int, name: Seq<char>) -> bool {
    let c = d.nodes[call].children[0];
    &&& d.nodes[call].children.len() > 0
    &&& {
        ||| names(d, c, name)
        ||| d.nodes[c].kind == "call_expression"@ && d.nodes[c].children.len() > 0 && names(
            d,
            d.nodes[c].children[0],
            name,
        )
    }
}

pub(crate) proof fn lemma_first_of(d: DocView, n: int, kind: Seq<char>, c: int)
    requires
        first_of(d, n, kind, c),
    ensures
        d.child_of(n, kind) == Some(c),
{
    let list = d.nodes[n].children;
    let k = choose|k: int|
        0 <= k < list.len() && #[trigger] list[k] == c && d.nodes[c].kind == kind && forall|j: int|
            0 <= j < k ==> d.nodes[#[trigger] list[j]].kind != kind;
    let p = d.of_kind(kind);
    assert forall|j: int| 0 <= j < k implies !p(#[trigger] list[j]) by {
        assert(d.nodes[list[j]].kind != kind);
    }
    assert(p(list[k]));
    lists::lemma_first(list, p, k);
}

pub(crate) proof fn lemma_none_of(d: DocView, n: int, kind: Seq<char>)
    requires
        none_of(d, n, kind),
    ensures
        d.child_of(n, kind) is None,
{
    let list = d.nodes[n].children;
    let p = d.of_kind(kind);
    assert forall|j: int| 0 <= j < list.len() implies !p(#[trigger] list[j]) by {
        assert(d.nodes[list[j]].kind != kind);
    }
    lists::lemma_no_first(list, p);
}

pub(crate) proof fn lemma_bears(d: DocView, n: int, name: Seq<char>)
    requires
        bears(d, n, name),
    ensures
        d.ident_in(n) == Some(name),
{
    let c = choose|c: int| #[trigger]
        first_of(d, n, "simple_identifier"@, c) && reads(d, c, name);
    lemma_first_of(d, n, "simple_identifier"@, c);
}

/// The name that a call calls is found, called on something or not.
pub proof fn law_call_is_named(d: DocView, call: int, name: Seq<char>)
    requires
        d.nodes[call].children.len() > 0,
        names(d, d.nodes[call].children[0], name),
    ensures
        d.call_name(call) == Some(name),
{
    let c = d.nodes[call].children[0];
    reveal_strlit("simple_identifier");
    reveal_strlit("navigation_expression");
    if d.nodes[c].kind != "simple_identifier"@ {
        let s = choose|s: int| #[trigger]
            first_of(d, c, "navigation_suffix"@, s) && bears(d, s, name);
        lemma_first_of(d, c, "navigation_suffix"@, s);
        lemma_bears(d, s, name);
    } else {
        assert("simple_identifier"@.len() != "navigation_expression"@.len());
    }
}

/// The nearest node of a kind, from a node upwards, is found.
pub proof fn law_nearest_is_found(d: DocView, way: Seq<int>, kind: Seq<char>)
    requires
        d.wf(),
        reaches(d, way, kind),
    ensures
        d.enclosing(way[0], kind) == Some(way.last()),
    decreases way.len(),
{
    assert(d.node_ok(way[0]));
    if way.len() > 1 {
        let rest = way.skip(1);
        assert(rest.last() == way.last());
        lemma_shorter(d, way);
        assert forall|i: int| 0 <= i < rest.len() - 1 implies d.nodes[#[trigger] rest[i]].kind
            != kind by {
            assert(rest[i] == way[i + 1]);
        }
        law_nearest_is_found(d, rest, kind);
    }
}

pub(crate) proof fn lemma_shorter(d: DocView, way: Seq<int>)
    requires
        climbs(d, way),
        way.len() > 1,
    ensures
        climbs(d, way.skip(1)),
        d.nodes[way[0]].parent == Some(way.skip(1)[0]),
{
    let rest = way.skip(1);
    assert forall|i: int| 0 <= i < rest.len() implies 0 <= #[trigger] rest[i] < d.nodes.len() by {
        assert(rest[i] == way[i + 1]);
    }
    assert forall|i: int| 0 <= i < rest.len() - 1 implies d.nodes[#[trigger] rest[i]].parent
        == Some(rest[i + 1]) by {
        assert(rest[i] == way[i + 1]);
        assert(rest[i + 1] == way[i + 2]);
    }
}

} // verus!
