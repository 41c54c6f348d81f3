//! Strings as character sequences: equality, the code-point order that `str`'s
//! `Ord` follows, and sorted sets of strings.
use vstd::prelude::*;
use vstd::string::*;

verus! {

/// `a` sorts before `b`, deciding from position `i` on.
pub open spec fn lex_lt_from(a: Seq<char>, b: Seq<char>, i: int) -> bool
    decreases a.len() - i,
{
    if i >= a.len() {
        i < b.len()
    } else if i >= b.len() {
        false
    } else if a[i] != b[i] {
        (a[i] as int) < (b[i] as int)
    } else {
        lex_lt_from(a, b, i + 1)
    }
}

/// Lexicographic order by code point (that of UTF-8 bytes, which `str` uses).
pub open spec fn lex_lt(a: Seq<char>, b: Seq<char>) -> bool {
    lex_lt_from(a, b, 0)
}

pub proof fn lemma_lex_irreflexive(a: Seq<char>, i: int)
    requires
        0 <= i,
    ensures
        !lex_lt_from(a, a, i),
    decreases a.len() - i,
{
    if i < a.len() {
        lemma_lex_irreflexive(a, i + 1);
    }
}

pub proof fn lemma_lex_asymmetric(a: Seq<char>, b: Seq<char>, i: int)
    requires
        0 <= i,
        lex_lt_from(a, b, i),
    ensures
        !lex_lt_from(b, a, i),
    decreases a.len() - i,
{
    if i < a.len() && i < b.len() && a[i] == b[i] {
        lemma_lex_asymmetric(a, b, i + 1);
    }
}

pub proof fn lemma_lex_total(a: Seq<char>, b: Seq<char>, i: int)
    requires
        0 <= i <= a.len(),
        i <= b.len(),
        a.subrange(0, i) == b.subrange(0, i),
        a != b,
    ensures
        lex_lt_from(a, b, i) || lex_lt_from(b, a, i),
    decreases a.len() - i,
{
    if i == a.len() && i == b.len() {
        assert(a =~= a.subrange(0, i));
        assert(b =~= b.subrange(0, i));
    } else if i < a.len() && i < b.len() && a[i] == b[i] {
        assert(a.subrange(0, i + 1) =~= a.subrange(0, i).push(a[i]));
        assert(b.subrange(0, i + 1) =~= b.subrange(0, i).push(b[i]));
        lemma_lex_total(a, b, i + 1);
    } else if i < a.len() && i < b.len() {
        assert((a[i] as int) != (b[i] as int));
    }
}

pub proof fn lemma_lex_transitive(a: Seq<char>, b: Seq<char>, c: Seq<char>, i: int)
    requires
        0 <= i,
        lex_lt_from(a, b, i),
        lex_lt_from(b, c, i),
    ensures
        lex_lt_from(a, c, i),
    decreases a.len() - i,
{
    if i < a.len() && i < b.len() && i < c.len() && a[i] == b[i] && b[i] == c[i] {
        lemma_lex_transitive(a, b, c, i + 1);
    }
}

/// Two different strings are ordered one way or the other.
pub proof fn lemma_lex_trichotomy(a: Seq<char>, b: Seq<char>)
    ensures
        a == b || lex_lt(a, b) || lex_lt(b, a),
        !(lex_lt(a, b) && lex_lt(b, a)),
        !lex_lt(a, a),
{
    lemma_lex_irreflexive(a, 0);
    if lex_lt(a, b) {
        lemma_lex_asymmetric(a, b, 0);
    }
    if a != b {
        assert(a.subrange(0, 0) =~= b.subrange(0, 0));
        lemma_lex_total(a, b, 0);
    }
}

/// Whether `a` sorts before `b`.
pub fn str_lt(a: &str, b: &str) -> (r: bool)
    ensures
        r == lex_lt(a@, b@),
{
    let la = a.unicode_len();
    let lb = b.unicode_len();
    let mut i: usize = 0;
    while i < la && i < lb
        invariant
            la == a@.len(),
            lb == b@.len(),
            i <= la,
            i <= lb,
            lex_lt(a@, b@) == lex_lt_from(a@, b@, i as int),
        decreases la - i,
    {
        let ca = a.get_char(i);
        let cb = b.get_char(i);
        if ca != cb {
            return (ca as u32) < (cb as u32);
        }
        i = i + 1;
    }
    i < lb && i == la
}

/// The character sequences of a sequence of strings.
pub open spec fn views(v: Seq<String>) -> Seq<Seq<char>> {
    v.map_values(|s: String| s@)
}

pub proof fn lemma_views_push(v: Seq<String>, x: String)
    ensures
        views(v.push(x)) == views(v).push(x@),
{
    assert(views(v.push(x)) =~= views(v).push(x@));
}

/// Every element sorts strictly before those after it: sorted, no repeats.
pub open spec fn strictly_sorted(s: Seq<Seq<char>>) -> bool {
    forall|i: int, j: int| 0 <= i < j < s.len() ==> lex_lt(#[trigger] s[i], #[trigger] s[j])
}

/// Whether `v` holds a string equal to `x`.
pub fn contains_str(v: &Vec<String>, x: &String) -> (r: bool)
    ensures
        r == views(v@).contains(x@),
{
    let mut k: usize = 0;
    while k < v.len()
        invariant
            k <= v.len(),
            forall|i: int| 0 <= i < k ==> v@[i]@ != x@,
        decreases v.len() - k,
    {
        if v[k] == *x {
            assert(views(v@)[k as int] == x@);
            return true;
        }
        k = k + 1;
    }
    proof {
        if views(v@).contains(x@) {
            let j = choose|j: int| 0 <= j < views(v@).len() && views(v@)[j] == x@;
            assert(v@[j]@ == x@);
        }
    }
    false
}

/// Adds `x` to the strictly sorted `v`, where it is not there yet.
pub fn insert_sorted(v: &mut Vec<String>, x: String)
    requires
        strictly_sorted(views(old(v)@)),
    ensures
        strictly_sorted(views(final(v)@)),
        forall|n: Seq<char>|
            views(final(v)@).contains(n) <==> (views(old(v)@).contains(n) || n == x@),
{
    let ghost s0 = views(v@);
    let mut k: usize = 0;
    let mut found = false;
    let mut done = false;
    while !done && k < v.len()
        invariant
            v@ == old(v)@,
            s0 == views(v@),
            k <= v.len(),
            forall|i: int| 0 <= i < k ==> lex_lt(#[trigger] s0[i], x@),
            done ==> k < v.len() && !lex_lt(s0[k as int], x@),
            found ==> done,
            done ==> (found <==> s0[k as int] == x@),
        decreases v.len() - k + (if done { 0int } else { 1int }),
    {
        if str_lt(v[k].as_str(), x.as_str()) {
            k = k + 1;
        } else {
            done = true;
            found = v[k] == x;
        }
    }
    if found {
        assert(s0.contains(x@));
        return;
    }
    proof {
        if k < s0.len() {
            lemma_lex_trichotomy(s0[k as int], x@);
            assert(lex_lt(x@, s0[k as int]));
        }
    }
    let ghost xv = x@;
    v.insert(k, x);
    let ghost s1 = views(v@);
    assert(s1 =~= s0.insert(k as int, xv));
    assert forall|i: int, j: int| 0 <= i < j < s1.len() implies lex_lt(
        #[trigger] s1[i],
        #[trigger] s1[j],
    ) by {
        if j < k {
            assert(s1[i] == s0[i] && s1[j] == s0[j]);
        } else if j == k {
            assert(s1[i] == s0[i]);
        } else if i == k {
            assert(s1[j] == s0[j - 1]);
            if j - 1 > k {
                lemma_lex_transitive(xv, s0[k as int], s0[j - 1], 0);
            }
        } else if i < k {
            assert(s1[i] == s0[i] && s1[j] == s0[j - 1]);
        } else {
            assert(s1[i] == s0[i - 1] && s1[j] == s0[j - 1]);
        }
    }
    assert forall|n: Seq<char>| s1.contains(n) <==> (s0.contains(n) || n == xv) by {
        if s1.contains(n) {
            let j = choose|j: int| 0 <= j < s1.len() && s1[j] == n;
            if j < k {
                assert(s0[j] == n);
            } else if j > k {
                assert(s0[j - 1] == n);
            }
        }
        if s0.contains(n) {
            let j = choose|j: int| 0 <= j < s0.len() && s0[j] == n;
            if j < k {
                assert(s1[j] == n);
            } else {
                assert(s1[j + 1] == n);
            }
        }
        if n == xv {
            assert(s1[k as int] == n);
        }
    }
}

/// Two strictly sorted sequences that hold the same strings are equal.
pub proof fn lemma_sorted_unique(a: Seq<Seq<char>>, b: Seq<Seq<char>>)
    requires
        strictly_sorted(a),
        strictly_sorted(b),
        forall|n: Seq<char>| a.contains(n) <==> b.contains(n),
    ensures
        a == b,
    decreases a.len(),
{
    if a.len() == 0 {
        if b.len() > 0 {
            assert(b.contains(b[0]));
        }
        assert(a =~= b);
    } else {
        assert(a.contains(a[0]));
        assert(b.len() > 0);
        assert(b.contains(b[0]));
        let i = choose|i: int| 0 <= i < a.len() && a[i] == b[0];
        let j = choose|j: int| 0 <= j < b.len() && b[j] == a[0];
        lemma_lex_trichotomy(a[0], b[0]);
        if i > 0 {
            assert(lex_lt(a[0], a[i]));
            if j > 0 {
                assert(lex_lt(b[0], b[j]));
            }
        } else if j > 0 {
            assert(lex_lt(b[0], b[j]));
        }
        assert(a[0] == b[0]);
        let a1 = a.drop_first();
        let b1 = b.drop_first();
        assert forall|n: Seq<char>| a1.contains(n) <==> b1.contains(n) by {
            if a1.contains(n) {
                let k = choose|k: int| 0 <= k < a1.len() && a1[k] == n;
                assert(a[k + 1] == n);
                assert(lex_lt(a[0], n));
                lemma_lex_trichotomy(a[0], n);
                assert(b.contains(n));
                let q = choose|q: int| 0 <= q < b.len() && b[q] == n;
                assert(q != 0);
                assert(b1[q - 1] == n);
            }
            if b1.contains(n) {
                let k = choose|k: int| 0 <= k < b1.len() && b1[k] == n;
                assert(b[k + 1] == n);
                assert(lex_lt(b[0], n));
                lemma_lex_trichotomy(b[0], n);
                assert(a.contains(n));
                let q = choose|q: int| 0 <= q < a.len() && a[q] == n;
                assert(q != 0);
                assert(a1[q - 1] == n);
            }
        }
        lemma_sorted_unique(a1, b1);
        assert(a =~= seq![a[0]] + a1);
        assert(b =~= seq![b[0]] + b1);
    }
}

} // verus!
