//! Call-graph resolution: each raw call name is internal when some symbol of
//! the tree bears it, external otherwise, and every symbol learns its callers.
use vstd::prelude::*;
use crate::model::{Symbol, same_extracted, blank_symbol};
use crate::text::{views, strictly_sorted, contains_str, insert_sorted};

verus! {

/// The names of all symbols, in order.
pub open spec fn name_views(syms: Seq<Symbol>) -> Seq<Seq<char>> {
    syms.map_values(|s: Symbol| s.name@)
}

/// `s.custom_calls` and `s.lang_calls` are the sorted raw calls of `s` that are,
/// and that are not, among `known`.
pub open spec fn partitions_calls(s: Symbol, known: Seq<Seq<char>>) -> bool {
    &&& strictly_sorted(views(s.custom_calls@))
    &&& strictly_sorted(views(s.lang_calls@))
    &&& forall|n: Seq<char>|
        #![trigger views(s.custom_calls@).contains(n)]
        #![trigger views(s.lang_calls@).contains(n)]
        #![trigger views(s.calls@).contains(n)]
        (views(s.custom_calls@).contains(n) <==> (views(s.calls@).contains(n) && known.contains(n)))
        && (views(s.lang_calls@).contains(n) <==> (views(s.calls@).contains(n) && !known.contains(n)))
}

/// Some symbol of `syms` named `n` lists `callee` among its internal calls.
pub open spec fn has_caller(syms: Seq<Symbol>, n: Seq<char>, callee: Seq<char>) -> bool {
    exists|j: int|
        0 <= j < syms.len() && #[trigger] syms[j].name@ == n && views(
            syms[j].custom_calls@,
        ).contains(callee)
}

/// `s.called_by` is the sorted set of the names of its callers in `syms`.
pub open spec fn callers_exact(syms: Seq<Symbol>, s: Symbol) -> bool {
    &&& strictly_sorted(views(s.called_by@))
    &&& forall|n: Seq<char>|
        #[trigger] views(s.called_by@).contains(n) <==> has_caller(syms, n, s.name@)
}

/// Every symbol's calls are split by the names of the tree, and its callers are
/// exactly those whose internal calls name it.
pub open spec fn resolved(syms: Seq<Symbol>) -> bool {
    forall|i: int|
        0 <= i < syms.len() ==> partitions_calls(#[trigger] syms[i], name_views(syms))
            && callers_exact(syms, syms[i])
}

fn collect_names(symbols: &Vec<Symbol>) -> (names: Vec<String>)
    ensures
        views(names@) == name_views(symbols@),
{
    let mut names: Vec<String> = Vec::new();
    let mut i: usize = 0;
    while i < symbols.len()
        invariant
            i <= symbols.len(),
            names@.len() == i,
            forall|k: int| 0 <= k < i ==> names@[k]@ == symbols@[k].name@,
        decreases symbols.len() - i,
    {
        names.push(symbols[i].name.clone());
        i = i + 1;
    }
    assert(views(names@) =~= name_views(symbols@));
    names
}

/// Splits `calls` into the sorted names that `known` holds and the others.
fn split_calls(calls: &Vec<String>, known: &Vec<String>) -> (r: (Vec<String>, Vec<String>))
    ensures
        strictly_sorted(views(r.0@)),
        strictly_sorted(views(r.1@)),
        forall|n: Seq<char>|
            #![trigger views(r.0@).contains(n)]
            #![trigger views(r.1@).contains(n)]
            #![trigger views(calls@).contains(n)]
            (views(r.0@).contains(n) <==> (views(calls@).contains(n) && views(known@).contains(n)))
            && (views(r.1@).contains(n) <==> (views(calls@).contains(n) && !views(
                known@,
            ).contains(n))),
{
    let mut internal: Vec<String> = Vec::new();
    let mut external: Vec<String> = Vec::new();
    let mut k: usize = 0;
    while k < calls.len()
        invariant
            k <= calls.len(),
            strictly_sorted(views(internal@)),
            strictly_sorted(views(external@)),
            forall|n: Seq<char>|
                #![trigger views(internal@).contains(n)]
                #![trigger views(external@).contains(n)]
                (views(internal@).contains(n) <==> ((exists|j: int|
                    0 <= j < k && #[trigger] calls@[j]@ == n) && views(known@).contains(n)))
                && (views(external@).contains(n) <==> ((exists|j: int|
                    0 <= j < k && #[trigger] calls@[j]@ == n) && !views(known@).contains(n))),
        decreases calls.len() - k,
    {
        let c = calls[k].clone();
        if contains_str(known, &c) {
            insert_sorted(&mut internal, c);
        } else {
            insert_sorted(&mut external, c);
        }
        k = k + 1;
    }
    assert forall|n: Seq<char>|
        views(calls@).contains(n) <==> (exists|j: int| 0 <= j < calls@.len() && #[trigger] calls@[j]@ == n) by {
        if views(calls@).contains(n) {
            let j = choose|j: int| 0 <= j < views(calls@).len() && views(calls@)[j] == n;
            assert(calls@[j]@ == n);
        }
        if exists|j: int| 0 <= j < calls@.len() && #[trigger] calls@[j]@ == n {
            let j = choose|j: int| 0 <= j < calls@.len() && #[trigger] calls@[j]@ == n;
            assert(views(calls@)[j] == n);
        }
    }
    (internal, external)
}

/// The sorted names of the symbols whose internal calls name `callee`.
fn callers_of(symbols: &Vec<Symbol>, callee: &String) -> (r: Vec<String>)
    ensures
        strictly_sorted(views(r@)),
        forall|n: Seq<char>| #[trigger] views(r@).contains(n) <==> has_caller(symbols@, n, callee@),
{
    let mut out: Vec<String> = Vec::new();
    let mut j: usize = 0;
    while j < symbols.len()
        invariant
            j <= symbols.len(),
            strictly_sorted(views(out@)),
            forall|n: Seq<char>|
                #[trigger] views(out@).contains(n) <==> has_caller(symbols@.subrange(0, j as int), n, callee@),
        decreases symbols.len() - j,
    {
        let ghost pre = symbols@.subrange(0, j as int);
        let ghost post = symbols@.subrange(0, j as int + 1);
        let calls_it = contains_str(&symbols[j].custom_calls, callee);
        if calls_it {
            insert_sorted(&mut out, symbols[j].name.clone());
        }
        assert forall|n: Seq<char>|
            #[trigger] views(out@).contains(n) <==> has_caller(post, n, callee@) by {
            if has_caller(post, n, callee@) {
                let t = choose|t: int| 0 <= t < post.len() && #[trigger] post[t].name@ == n && views(post[t].custom_calls@).contains(callee@);
                if t < j {
                    assert(pre[t] == post[t]);
                    assert(has_caller(pre, n, callee@));
                }
            }
            if has_caller(pre, n, callee@) {
                let t = choose|t: int| 0 <= t < pre.len() && #[trigger] pre[t].name@ == n && views(pre[t].custom_calls@).contains(callee@);
                assert(pre[t] == post[t]);
                assert(has_caller(post, n, callee@));
            }
            if calls_it && n == symbols@[j as int].name@ {
                assert(post[j as int] == symbols@[j as int]);
                assert(has_caller(post, n, callee@));
            }
        }
        j = j + 1;
    }
    assert(symbols@.subrange(0, j as int) =~= symbols@);
    out
}

/// Rewrites every symbol's internal calls, external calls and callers from the
/// whole symbol set: a first sweep splits the calls by the names of the tree, a
/// second gathers the callers of each symbol from the internal calls of all. A
/// set that is resolved already comes back the same.
pub fn finalize_calls(symbols: &mut Vec<Symbol>)
    ensures
        final(symbols)@.len() == old(symbols)@.len(),
        forall|i: int|
            0 <= i < old(symbols)@.len() ==> same_extracted(
                #[trigger] final(symbols)@[i],
                old(symbols)@[i],
            ),
        resolved(final(symbols)@),
        resolved(old(symbols)@) ==> forall|i: int|
            0 <= i < old(symbols)@.len() ==> views((#[trigger] final(symbols)@[i]).custom_calls@) == views(
                old(symbols)@[i].custom_calls@,
            ) && views(final(symbols)@[i].lang_calls@) == views(old(symbols)@[i].lang_calls@)
                && views(final(symbols)@[i].called_by@) == views(old(symbols)@[i].called_by@),
{
    let names = collect_names(symbols);
    let ghost known = name_views(symbols@);
    let ghost orig = symbols@;
    let n = symbols.len();
    let mut i: usize = 0;
    while i < n
        invariant
            n == symbols@.len(),
            n == orig.len(),
            i <= n,
            views(names@) == known,
            forall|t: int| 0 <= t < n ==> same_extracted(#[trigger] symbols@[t], orig[t]),
            forall|t: int| 0 <= t < i ==> partitions_calls(#[trigger] symbols@[t], known),
        decreases n - i,
    {
        let mut s = blank_symbol();
        symbols.set_and_swap(i, &mut s);
        let (internal, external) = split_calls(&s.calls, &names);
        s.custom_calls = internal;
        s.lang_calls = external;
        symbols.set(i, s);
        i = i + 1;
    }
    assert(name_views(symbols@) =~= known);
    let ghost mid = symbols@;
    let mut i: usize = 0;
    while i < n
        invariant
            n == symbols@.len(),
            n == mid.len(),
            i <= n,
            forall|t: int| 0 <= t < n ==> same_extracted(#[trigger] symbols@[t], orig[t]),
            forall|t: int|
                0 <= t < n ==> (#[trigger] symbols@[t]).custom_calls == mid[t].custom_calls
                    && symbols@[t].lang_calls == mid[t].lang_calls,
            forall|t: int| 0 <= t < n ==> partitions_calls(#[trigger] mid[t], known),
            forall|t: int| 0 <= t < n ==> same_extracted(#[trigger] mid[t], orig[t]),
            forall|t: int| 0 <= t < i ==> callers_exact(mid, #[trigger] symbols@[t]),
        decreases n - i,
    {
        let callers = callers_of(symbols, &symbols[i].name);
        proof {
            assert forall|c: Seq<char>, m: Seq<char>| has_caller(symbols@, m, c) <==> has_caller(mid, m, c) by {
                if has_caller(symbols@, m, c) {
                    let t = choose|t: int| 0 <= t < symbols@.len() && #[trigger] symbols@[t].name@ == m && views(symbols@[t].custom_calls@).contains(c);
                    assert(mid[t].name@ == m);
                }
                if has_caller(mid, m, c) {
                    let t = choose|t: int| 0 <= t < mid.len() && #[trigger] mid[t].name@ == m && views(mid[t].custom_calls@).contains(c);
                    assert(symbols@[t].name@ == m);
                }
            }
        }
        let mut s = blank_symbol();
        symbols.set_and_swap(i, &mut s);
        s.called_by = callers;
        symbols.set(i, s);
        i = i + 1;
    }
    proof {
        let fin = symbols@;
        assert(name_views(fin) =~= known);
        assert forall|c: Seq<char>, m: Seq<char>| has_caller(fin, m, c) <==> has_caller(mid, m, c) by {
            if has_caller(fin, m, c) {
                let t = choose|t: int| 0 <= t < fin.len() && #[trigger] fin[t].name@ == m && views(fin[t].custom_calls@).contains(c);
                assert(mid[t].name@ == m);
            }
            if has_caller(mid, m, c) {
                let t = choose|t: int| 0 <= t < mid.len() && #[trigger] mid[t].name@ == m && views(mid[t].custom_calls@).contains(c);
                assert(fin[t].name@ == m);
            }
        }
        assert forall|t: int| 0 <= t < fin.len() implies partitions_calls(#[trigger] fin[t], name_views(fin))
            && callers_exact(fin, fin[t]) by {
            assert(partitions_calls(mid[t], known));
            assert(callers_exact(mid, fin[t]));
        }
        if resolved(orig) {
            lemma_resolution_unique(fin, orig);
        }
    }
}

/// After resolution, the internal and external calls of a symbol are disjoint
/// and together are exactly its raw calls.
pub proof fn lemma_calls_partitioned(syms: Seq<Symbol>, i: int, n: Seq<char>)
    requires
        resolved(syms),
        0 <= i < syms.len(),
    ensures
        !(views(syms[i].custom_calls@).contains(n) && views(syms[i].lang_calls@).contains(n)),
        views(syms[i].calls@).contains(n) <==> (views(syms[i].custom_calls@).contains(n)
            || views(syms[i].lang_calls@).contains(n)),
{
    assert(partitions_calls(syms[i], name_views(syms)));
}

/// After resolution, `t` lists `s` among its internal calls exactly when `s`
/// lists `t` among its callers, where no other symbol bears `t`'s name.
pub proof fn lemma_reverse_edges(syms: Seq<Symbol>, s: int, t: int)
    requires
        resolved(syms),
        0 <= s < syms.len(),
        0 <= t < syms.len(),
        forall|j: int| 0 <= j < syms.len() && syms[j].name@ == syms[t].name@ ==> j == t,
    ensures
        views(syms[t].custom_calls@).contains(syms[s].name@) <==> views(
            syms[s].called_by@,
        ).contains(syms[t].name@),
{
    assert(callers_exact(syms, syms[s]));
    if views(syms[t].custom_calls@).contains(syms[s].name@) {
        assert(has_caller(syms, syms[t].name@, syms[s].name@));
    }
}

/// After resolution, every symbol named in a caller list has that callee among
/// its internal calls, whatever the names.
pub proof fn lemma_callers_call(syms: Seq<Symbol>, s: int, n: Seq<char>)
    requires
        resolved(syms),
        0 <= s < syms.len(),
        views(syms[s].called_by@).contains(n),
    ensures
        exists|j: int|
            0 <= j < syms.len() && syms[j].name@ == n && views(syms[j].custom_calls@).contains(
                syms[s].name@,
            ),
{
    assert(callers_exact(syms, syms[s]));
    assert(has_caller(syms, n, syms[s].name@));
}

/// Resolution depends on the extracted fields alone: two resolved symbol sets
/// that agree on those agree on every symbol's internal calls, external calls
/// and callers.
pub proof fn lemma_resolution_unique(a: Seq<Symbol>, b: Seq<Symbol>)
    requires
        a.len() == b.len(),
        forall|i: int| 0 <= i < a.len() ==> same_extracted(#[trigger] a[i], b[i]),
        resolved(a),
        resolved(b),
    ensures
        forall|i: int|
            0 <= i < a.len() ==> views((#[trigger] a[i]).custom_calls@) == views(b[i].custom_calls@)
                && views(a[i].lang_calls@) == views(b[i].lang_calls@)
                && views(a[i].called_by@) == views(b[i].called_by@),
{
    assert(name_views(a) =~= name_views(b)) by {
        assert forall|i: int| 0 <= i < a.len() implies name_views(a)[i] == name_views(b)[i] by {
            assert(same_extracted(a[i], b[i]));
        }
    }
    assert forall|i: int| 0 <= i < a.len() implies views((#[trigger] a[i]).custom_calls@) == views(
        b[i].custom_calls@,
    ) && views(a[i].lang_calls@) == views(b[i].lang_calls@) by {
        assert(same_extracted(a[i], b[i]));
        assert(partitions_calls(a[i], name_views(a)));
        assert(partitions_calls(b[i], name_views(b)));
        crate::text::lemma_sorted_unique(views(a[i].custom_calls@), views(b[i].custom_calls@));
        crate::text::lemma_sorted_unique(views(a[i].lang_calls@), views(b[i].lang_calls@));
    }
    assert forall|c: Seq<char>, m: Seq<char>| has_caller(a, m, c) <==> has_caller(b, m, c) by {
        if has_caller(a, m, c) {
            let t = choose|t: int| 0 <= t < a.len() && #[trigger] a[t].name@ == m && views(a[t].custom_calls@).contains(c);
            assert(same_extracted(a[t], b[t]));
            assert(views(a[t].custom_calls@) == views(b[t].custom_calls@));
            assert(b[t].name@ == m);
        }
        if has_caller(b, m, c) {
            let t = choose|t: int| 0 <= t < b.len() && #[trigger] b[t].name@ == m && views(b[t].custom_calls@).contains(c);
            assert(same_extracted(a[t], b[t]));
            assert(views(a[t].custom_calls@) == views(b[t].custom_calls@));
            assert(a[t].name@ == m);
        }
    }
    assert forall|i: int| 0 <= i < a.len() implies views((#[trigger] a[i]).called_by@) == views(
        b[i].called_by@,
    ) by {
        assert(same_extracted(a[i], b[i]));
        assert(callers_exact(a, a[i]));
        assert(callers_exact(b, b[i]));
        crate::text::lemma_sorted_unique(views(a[i].called_by@), views(b[i].called_by@));
    }
}

/// After resolution, a name that no symbol bears is in no caller list.
pub proof fn lemma_callers_exist(syms: Seq<Symbol>, i: int, n: Seq<char>)
    requires
        resolved(syms),
        0 <= i < syms.len(),
        forall|j: int| 0 <= j < syms.len() ==> (#[trigger] syms[j]).name@ != n,
    ensures
        !views(syms[i].called_by@).contains(n),
{
    assert(callers_exact(syms, syms[i]));
    if views(syms[i].called_by@).contains(n) {
        assert(has_caller(syms, n, syms[i].name@));
        let j = choose|j: int| 0 <= j < syms.len() && #[trigger] syms[j].name@ == n && views(syms[j].custom_calls@).contains(syms[i].name@);
        assert(syms[j].name@ != n);
    }
}

} // verus!
