//! A parse tree as plain values, and the queries that extraction makes of it:
//! a child by field name, the first named child, the calls under a node.
use vstd::prelude::*;
use vstd::string::*;
use crate::text::{views, strictly_sorted, insert_sorted};
use crate::paths::str_eq;

verus! {

/// One node of a parse tree.
#[derive(Clone, Debug, PartialEq, Eq)]
pub struct SyntaxNode {
    /// The grammar's name for the node (`function_definition`, `call`, ...).
    pub kind: String,
    /// The field under which the parent holds this node, if any.
    pub field: Option<String>,
    /// Whether the node is named in the grammar (not punctuation).
    pub named: bool,
    /// The source text that the node spans.
    pub text: String,
    /// First and last row of the node, counted from 0.
    pub start_row: usize,
    pub end_row: usize,
    /// The indices of the children, in order.
    pub children: Vec<usize>,
}

/// A parse tree laid out in pre-order: `nodes[0]` is the root, and each child
/// comes after its parent.
#[derive(Clone, Debug, PartialEq, Eq)]
pub struct SyntaxTree {
    pub nodes: Vec<SyntaxNode>,
}

impl SyntaxTree {
    /// Children follow their parents and lie inside the tree, a node starts no
    /// later than it ends, and every row leaves room for a 1-based line number.
    pub open spec fn wf(&self) -> bool {
        forall|i: int|
            0 <= i < self.nodes@.len() ==> {
                &&& (#[trigger] self.nodes@[i]).end_row < usize::MAX
                &&& self.nodes@[i].start_row <= self.nodes@[i].end_row
                &&& forall|k: int|
                    0 <= k < self.nodes@[i].children@.len() ==> i < #[trigger] self.nodes@[i].children@[k]
                        < self.nodes@.len()
            }
    }

    pub open spec fn child(&self, i: int, k: int) -> int {
        self.nodes@[i].children@[k] as int
    }
}

/// The node has the given field name.
pub open spec fn has_field(n: SyntaxNode, f: Seq<char>) -> bool {
    match n.field {
        Some(x) => x@ == f,
        None => false,
    }
}

/// The first child of `i`, from position `k` on, that its parent holds under
/// field `f`.
pub open spec fn field_child_from(t: SyntaxTree, i: int, f: Seq<char>, k: int) -> Option<int>
    decreases t.nodes@[i].children@.len() - k,
{
    if 0 <= k < t.nodes@[i].children@.len() {
        if has_field(t.nodes@[t.child(i, k)], f) {
            Some(t.child(i, k))
        } else {
            field_child_from(t, i, f, k + 1)
        }
    } else {
        None
    }
}

pub open spec fn field_child(t: SyntaxTree, i: int, f: Seq<char>) -> Option<int> {
    field_child_from(t, i, f, 0)
}

/// The first named child of `i`, from position `k` on.
pub open spec fn named_child_from(t: SyntaxTree, i: int, k: int) -> Option<int>
    decreases t.nodes@[i].children@.len() - k,
{
    if 0 <= k < t.nodes@[i].children@.len() {
        if t.nodes@[t.child(i, k)].named {
            Some(t.child(i, k))
        } else {
            named_child_from(t, i, k + 1)
        }
    } else {
        None
    }
}

pub open spec fn first_named_child(t: SyntaxTree, i: int) -> Option<int> {
    named_child_from(t, i, 0)
}

/// The text of the node `o` names, or `d` where there is none.
pub open spec fn text_or(t: SyntaxTree, o: Option<int>, d: Seq<char>) -> Seq<char> {
    match o {
        Some(c) => t.nodes@[c].text@,
        None => d,
    }
}

/// Looks up the first child of `i` under field `f`.
pub fn child_by_field(t: &SyntaxTree, i: usize, f: &str) -> (r: Option<usize>)
    requires
        t.wf(),
        i < t.nodes@.len(),
    ensures
        r matches Some(c) ==> field_child(*t, i as int, f@) == Some(c as int) && i < c < t.nodes@.len(),
        r is None ==> field_child(*t, i as int, f@) is None,
{
    let n = t.nodes[i].children.len();
    let mut k: usize = 0;
    while k < n
        invariant
            t.wf(),
            i < t.nodes@.len(),
            n == t.nodes@[i as int].children@.len(),
            k <= n,
            field_child(*t, i as int, f@) == field_child_from(*t, i as int, f@, k as int),
        decreases n - k,
    {
        let c = t.nodes[i].children[k];
        assert(c < t.nodes@.len());
        let hit = match &t.nodes[c].field {
            Some(x) => str_eq(x.as_str(), f),
            None => false,
        };
        if hit {
            return Some(c);
        }
        k = k + 1;
    }
    None
}

/// Looks up the first named child of `i`.
pub fn named_child(t: &SyntaxTree, i: usize) -> (r: Option<usize>)
    requires
        t.wf(),
        i < t.nodes@.len(),
    ensures
        r matches Some(c) ==> first_named_child(*t, i as int) == Some(c as int) && i < c < t.nodes@.len(),
        r is None ==> first_named_child(*t, i as int) is None,
{
    let n = t.nodes[i].children.len();
    let mut k: usize = 0;
    while k < n
        invariant
            t.wf(),
            i < t.nodes@.len(),
            n == t.nodes@[i as int].children@.len(),
            k <= n,
            first_named_child(*t, i as int) == named_child_from(*t, i as int, k as int),
        decreases n - k,
    {
        let c = t.nodes[i].children[k];
        assert(c < t.nodes@.len());
        if t.nodes[c].named {
            return Some(c);
        }
        k = k + 1;
    }
    None
}

/// The text of the node `o` names, or `d`.
pub fn node_text_or(t: &SyntaxTree, o: Option<usize>, d: &str) -> (r: String)
    requires
        o matches Some(c) ==> c < t.nodes@.len(),
    ensures
        r@ == text_or(*t, match o { Some(c) => Some(c as int), None => None }, d@),
{
    match o {
        Some(c) => t.nodes[c].text.clone(),
        None => String::from_str(d),
    }
}

/// What follows the last `.` or `:` of a callee's text: `a.b::c` calls `c`.
pub open spec fn last_segment(s: Seq<char>) -> Seq<char>
    decreases s.len(),
{
    if s.len() == 0 {
        s
    } else if s.last() == '.' || s.last() == ':' {
        Seq::empty()
    } else {
        last_segment(s.drop_last()).push(s.last())
    }
}

/// The name that a callee's text calls.
pub fn call_target(s: &str) -> (r: String)
    ensures
        r@ == last_segment(s@),
{
    let n = s.unicode_len();
    let mut k: usize = n;
    let mut done = false;
    assert(s@.subrange(0, n as int) =~= s@);
    assert(s@ =~= s@ + s@.subrange(n as int, n as int));
    while !done && k > 0
        invariant
            n == s@.len(),
            k <= n,
            last_segment(s@) == last_segment(s@.subrange(0, k as int)) + s@.subrange(k as int, n as int),
            done ==> k > 0 && (s@[k - 1] == '.' || s@[k - 1] == ':'),
        decreases k + (if done { 0int } else { 1int }),
    {
        let c = s.get_char(k - 1);
        if c == '.' || c == ':' {
            done = true;
        } else {
            let ghost pre = s@.subrange(0, k as int);
            assert(pre.drop_last() =~= s@.subrange(0, k - 1));
            assert(s@.subrange(k - 1, n as int) =~= seq![c] + s@.subrange(k as int, n as int));
            assert(last_segment(s@.subrange(0, k - 1)).push(c) + s@.subrange(k as int, n as int)
                =~= last_segment(s@.subrange(0, k - 1)) + s@.subrange(k - 1, n as int));
            k = k - 1;
        }
    }
    if k == 0 {
        assert(s@.subrange(0, 0) =~= Seq::<char>::empty());
    }
    assert(s@.subrange(k as int, n as int) =~= Seq::<char>::empty() + s@.subrange(k as int, n as int));
    String::from_str(s.substring_char(k, n))
}

/// Node kinds that are calls, in the grammars the index reads.
pub open spec fn is_call_kind(k: Seq<char>) -> bool {
    k == "call"@ || k == "call_expression"@ || k == "method_call_expression"@
}

fn call_kind(k: &str) -> (r: bool)
    ensures
        r == is_call_kind(k@),
{
    str_eq(k, "call") || str_eq(k, "call_expression") || str_eq(k, "method_call_expression")
}

/// The names called under node `i`.
pub open spec fn calls_under(t: SyntaxTree, i: int) -> Set<Seq<char>>
    decreases t.nodes@.len() - i, 1int, 0int,
{
    if 0 <= i < t.nodes@.len() {
        calls_among(t, i, t.nodes@[i].children@.len() as int)
    } else {
        Set::empty()
    }
}

/// The names contributed by child `c` of a node: the calls under it, and for
/// a call also the name that its callee's text ends in.
pub open spec fn calls_of_child(t: SyntaxTree, c: int) -> Set<Seq<char>>
    decreases t.nodes@.len() - c, 2int, 0int,
{
    if !(0 <= c < t.nodes@.len()) {
        Set::empty()
    } else if is_call_kind(t.nodes@[c].kind@) && t.nodes@[c].children@.len() > 0 {
        set![last_segment(t.nodes@[t.child(c, 0)].text@)].union(calls_under(t, c))
    } else {
        calls_under(t, c)
    }
}

/// The names called under the first `k` children of node `i`.
pub open spec fn calls_among(t: SyntaxTree, i: int, k: int) -> Set<Seq<char>>
    decreases t.nodes@.len() - i, 0int, k,
{
    if 0 <= i < t.nodes@.len() && 0 < k <= t.nodes@[i].children@.len() {
        let c = t.child(i, k - 1);
        let rest = calls_among(t, i, k - 1);
        if i < c < t.nodes@.len() {
            rest.union(calls_of_child(t, c))
        } else {
            rest
        }
    } else {
        Set::empty()
    }
}

/// Adds to `out` the names called under node `i`.
pub fn collect_calls(t: &SyntaxTree, i: usize, out: &mut Vec<String>)
    requires
        t.wf(),
        i < t.nodes@.len(),
        strictly_sorted(views(old(out)@)),
    ensures
        strictly_sorted(views(final(out)@)),
        forall|n: Seq<char>|
            #[trigger] views(final(out)@).contains(n) <==> (views(old(out)@).contains(n) || calls_under(
                *t,
                i as int,
            ).contains(n)),
    decreases t.nodes@.len() - i,
{
    let nc = t.nodes[i].children.len();
    let mut k: usize = 0;
    while k < nc
        invariant
            t.wf(),
            i < t.nodes@.len(),
            nc == t.nodes@[i as int].children@.len(),
            k <= nc,
            strictly_sorted(views(out@)),
            forall|n: Seq<char>|
                views(out@).contains(n) <==> (views(old(out)@).contains(n) || calls_among(
                    *t,
                    i as int,
                    k as int,
                ).contains(n)),
        decreases nc - k,
    {
        let c = t.nodes[i].children[k];
        assert(i < c < t.nodes@.len());
        let ghost before = views(out@);
        if call_kind(t.nodes[c].kind.as_str()) && t.nodes[c].children.len() > 0 {
            let f = t.nodes[c].children[0];
            assert(c < f < t.nodes@.len());
            let name = call_target(t.nodes[f].text.as_str());
            let ghost nm = name@;
            assert(calls_of_child(*t, c as int) == set![nm].union(calls_under(*t, c as int)));
            insert_sorted(out, name);
        } else {
            assert(calls_of_child(*t, c as int) == calls_under(*t, c as int));
        }
        let ghost mid = views(out@);
        collect_calls(t, c, out);
        assert forall|n: Seq<char>| views(out@).contains(n) <==> (before.contains(n) || calls_of_child(*t, c as int).contains(n)) by {
            assert(views(out@).contains(n) <==> (mid.contains(n) || calls_under(*t, c as int).contains(n)));
        }
        proof {
            assert(calls_among(*t, i as int, k as int + 1) == calls_among(*t, i as int, k as int).union(
                calls_of_child(*t, c as int),
            ));
            assert forall|n: Seq<char>|
                views(out@).contains(n) <==> (views(old(out)@).contains(n) || calls_among(
                    *t,
                    i as int,
                    k as int + 1,
                ).contains(n)) by {
                assert(views(out@).contains(n) <==> (before.contains(n) || calls_of_child(*t, c as int).contains(n)));
            }
        }
        k = k + 1;
    }
}

} // verus!
