//! Incremental synchronisation: which files changed between two fingerprint
//! lists, and how the index drops what they made stale.
use vstd::prelude::*;
use crate::model::{Context, FileInfo, RepoStats, Symbol, same_extracted};
use crate::text::{views, strictly_sorted, insert_sorted};
use crate::paths::str_eq;
use crate::resolve::{finalize_calls, resolved};

verus! {

/// The content fingerprint of one file, keyed by its full path.
#[derive(Clone, Debug, PartialEq, Eq)]
pub struct Fingerprint {
    pub path: String,
    pub hash: String,
}

/// The files to extract again, and the files that are gone.
#[derive(Clone, Debug, PartialEq, Eq)]
pub struct SyncPlan {
    pub changed: Vec<String>,
    pub removed: Vec<String>,
}

/// No two entries share a path: the list is a map from path to fingerprint.
pub open spec fn paths_unique(v: Seq<Fingerprint>) -> bool {
    forall|i: int, j: int| 0 <= i < j < v.len() ==> (#[trigger] v[i]).path@ != (#[trigger] v[j]).path@
}

/// Whether no two entries of `v` share a path.
pub fn fingerprints_unique(v: &Vec<Fingerprint>) -> (r: bool)
    ensures
        r == paths_unique(v@),
{
    let mut j: usize = 0;
    while j < v.len()
        invariant
            j <= v.len(),
            forall|a: int, b: int| 0 <= a < b < j ==> (#[trigger] v@[a]).path@ != (#[trigger] v@[b]).path@,
        decreases v.len() - j,
    {
        let mut i: usize = 0;
        while i < j
            invariant
                i <= j < v.len(),
                forall|a: int| 0 <= a < i ==> (#[trigger] v@[a]).path@ != v@[j as int].path@,
            decreases j - i,
        {
            if str_eq(v[i].path.as_str(), v[j].path.as_str()) {
                return false;
            }
            i = i + 1;
        }
        j = j + 1;
    }
    true
}

/// Whether the stored index may be synchronised rather than rebuilt: the
/// stored statistics equal the current ones.
pub fn may_sync(stored: RepoStats, current: RepoStats) -> (r: bool)
    ensures
        r == (stored == current),
{
    stored.file_count == current.file_count && stored.total_bytes == current.total_bytes
        && stored.total_lines == current.total_lines
}

/// `v` has an entry for path `p`.
pub open spec fn has_path(v: Seq<Fingerprint>, p: Seq<char>) -> bool {
    exists|k: int| 0 <= k < v.len() && (#[trigger] v[k]).path@ == p
}

/// `v` has an entry for path `p` with fingerprint `h`.
pub open spec fn has_entry(v: Seq<Fingerprint>, p: Seq<char>, h: Seq<char>) -> bool {
    exists|k: int| 0 <= k < v.len() && (#[trigger] v[k]).path@ == p && v[k].hash@ == h
}

/// `p` is in the new list with a fingerprint that the old list does not give it:
/// the file is new or its content changed.
pub open spec fn is_changed(old: Seq<Fingerprint>, new: Seq<Fingerprint>, p: Seq<char>) -> bool {
    exists|k: int|
        0 <= k < new.len() && (#[trigger] new[k]).path@ == p && !has_entry(old, p, new[k].hash@)
}

/// `p` was in the old list and is not in the new one.
pub open spec fn is_removed(old: Seq<Fingerprint>, new: Seq<Fingerprint>, p: Seq<char>) -> bool {
    has_path(old, p) && !has_path(new, p)
}

fn find_entry(v: &Vec<Fingerprint>, p: &String, h: &String) -> (r: bool)
    ensures
        r == has_entry(v@, p@, h@),
{
    let mut k: usize = 0;
    while k < v.len()
        invariant
            k <= v.len(),
            forall|m: int| 0 <= m < k ==> !((#[trigger] v@[m]).path@ == p@ && v@[m].hash@ == h@),
        decreases v.len() - k,
    {
        if str_eq(v[k].path.as_str(), p.as_str()) && str_eq(v[k].hash.as_str(), h.as_str()) {
            return true;
        }
        k = k + 1;
    }
    false
}

fn find_path(v: &Vec<Fingerprint>, p: &String) -> (r: bool)
    ensures
        r == has_path(v@, p@),
{
    let mut k: usize = 0;
    while k < v.len()
        invariant
            k <= v.len(),
            forall|m: int| 0 <= m < k ==> (#[trigger] v@[m]).path@ != p@,
        decreases v.len() - k,
    {
        if str_eq(v[k].path.as_str(), p.as_str()) {
            return true;
        }
        k = k + 1;
    }
    false
}

/// The sorted paths that are new or changed in `new`, and the sorted paths of
/// `old` that `new` no longer has.
pub fn plan_sync(old: &Vec<Fingerprint>, new: &Vec<Fingerprint>) -> (r: SyncPlan)
    requires
        paths_unique(old@),
        paths_unique(new@),
    ensures
        strictly_sorted(views(r.changed@)),
        strictly_sorted(views(r.removed@)),
        forall|p: Seq<char>| #[trigger] views(r.changed@).contains(p) <==> is_changed(old@, new@, p),
        forall|p: Seq<char>| #[trigger] views(r.removed@).contains(p) <==> is_removed(old@, new@, p),
{
    let mut changed: Vec<String> = Vec::new();
    let mut k: usize = 0;
    while k < new.len()
        invariant
            k <= new.len(),
            strictly_sorted(views(changed@)),
            forall|p: Seq<char>|
                #[trigger] views(changed@).contains(p) <==> is_changed(old@, new@.subrange(0, k as int), p),
        decreases new.len() - k,
    {
        let ghost pre = new@.subrange(0, k as int);
        let ghost post = new@.subrange(0, k as int + 1);
        let fresh = !find_entry(old, &new[k].path, &new[k].hash);
        if fresh {
            insert_sorted(&mut changed, new[k].path.clone());
        }
        assert forall|p: Seq<char>|
            #[trigger] views(changed@).contains(p) <==> is_changed(old@, post, p) by {
            if is_changed(old@, post, p) {
                let m = choose|m: int| 0 <= m < post.len() && (#[trigger] post[m]).path@ == p && !has_entry(old@, p, post[m].hash@);
                if m < k {
                    assert(pre[m] == post[m]);
                }
            }
            if is_changed(old@, pre, p) {
                let m = choose|m: int| 0 <= m < pre.len() && (#[trigger] pre[m]).path@ == p && !has_entry(old@, p, pre[m].hash@);
                assert(pre[m] == post[m]);
            }
            if fresh && p == new@[k as int].path@ {
                assert(post[k as int] == new@[k as int]);
            }
        }
        k = k + 1;
    }
    assert(new@.subrange(0, k as int) =~= new@);
    let mut removed: Vec<String> = Vec::new();
    let mut k: usize = 0;
    while k < old.len()
        invariant
            k <= old.len(),
            strictly_sorted(views(removed@)),
            forall|p: Seq<char>|
                #[trigger] views(removed@).contains(p) <==> (is_removed(old@.subrange(0, k as int), new@, p)),
        decreases old.len() - k,
    {
        let ghost pre = old@.subrange(0, k as int);
        let ghost post = old@.subrange(0, k as int + 1);
        let gone = !find_path(new, &old[k].path);
        if gone {
            insert_sorted(&mut removed, old[k].path.clone());
        }
        assert forall|p: Seq<char>|
            #[trigger] views(removed@).contains(p) <==> is_removed(post, new@, p) by {
            if has_path(post, p) {
                let m = choose|m: int| 0 <= m < post.len() && (#[trigger] post[m]).path@ == p;
                if m < k {
                    assert(pre[m] == post[m]);
                }
            }
            if has_path(pre, p) {
                let m = choose|m: int| 0 <= m < pre.len() && (#[trigger] pre[m]).path@ == p;
                assert(pre[m] == post[m]);
            }
            if gone && p == old@[k as int].path@ {
                assert(post[k as int] == old@[k as int]);
            }
        }
        k = k + 1;
    }
    assert(old@.subrange(0, k as int) =~= old@);
    SyncPlan { changed, removed }
}

/// A file record survives when its path is not stale.
pub open spec fn file_kept(stale: Seq<Seq<char>>) -> spec_fn(FileInfo) -> bool {
    |f: FileInfo| !stale.contains(f.path@)
}

/// A symbol survives when its file is not stale.
pub open spec fn symbol_kept(stale: Seq<Seq<char>>) -> spec_fn(Symbol) -> bool {
    |s: Symbol| !stale.contains(s.file@)
}

fn blank_file() -> FileInfo {
    FileInfo { path: String::new(), language: String::new(), bytes: 0, lines: 0 }
}

fn contains_path(stale: &Vec<String>, p: &String) -> (r: bool)
    ensures
        r == views(stale@).contains(p@),
{
    crate::text::contains_str(stale, p)
}

/// Keeps the file records whose path is not in `stale`, in order.
pub fn retain_files(files: &mut Vec<FileInfo>, stale: &Vec<String>)
    ensures
        final(files)@ == old(files)@.filter(file_kept(views(stale@))),
{
    let ghost orig = files@;
    let mut out: Vec<FileInfo> = Vec::new();
    let mut k: usize = 0;
    while k < files.len()
        invariant
            files@.len() == orig.len(),
            k <= orig.len(),
            forall|m: int| k <= m < orig.len() ==> files@[m] == orig[m],
            out@ == orig.subrange(0, k as int).filter(file_kept(views(stale@))),
        decreases orig.len() - k,
    {
        let mut f = blank_file();
        files.set_and_swap(k, &mut f);
        let ghost before = out@;
        let ghost item = f;
        let gone = contains_path(stale, &f.path);
        if !gone {
            out.push(f);
        }
        proof {
            reveal(Seq::filter);
            let next = orig.subrange(0, k as int + 1);
            assert(next.drop_last() =~= orig.subrange(0, k as int));
            assert(next.last() == item);
            assert(views(stale@).contains(item.path@) == gone);
            assert(file_kept(views(stale@))(item) == !gone);
        }
        k = k + 1;
    }
    assert(orig.subrange(0, k as int) =~= orig);
    *files = out;
}

fn retain_symbols(symbols: &mut Vec<Symbol>, stale: &Vec<String>)
    ensures
        final(symbols)@ == old(symbols)@.filter(symbol_kept(views(stale@))),
{
    let ghost orig = symbols@;
    let mut out: Vec<Symbol> = Vec::new();
    let mut k: usize = 0;
    while k < symbols.len()
        invariant
            symbols@.len() == orig.len(),
            k <= orig.len(),
            forall|m: int| k <= m < orig.len() ==> symbols@[m] == orig[m],
            out@ == orig.subrange(0, k as int).filter(symbol_kept(views(stale@))),
        decreases orig.len() - k,
    {
        let mut s = crate::model::blank_symbol();
        symbols.set_and_swap(k, &mut s);
        let ghost before = out@;
        let ghost item = s;
        let gone = contains_path(stale, &s.file);
        if !gone {
            out.push(s);
        }
        proof {
            reveal(Seq::filter);
            let next = orig.subrange(0, k as int + 1);
            assert(next.drop_last() =~= orig.subrange(0, k as int));
            assert(next.last() == item);
            assert(views(stale@).contains(item.file@) == gone);
            assert(symbol_kept(views(stale@))(item) == !gone);
        }
        k = k + 1;
    }
    assert(orig.subrange(0, k as int) =~= orig);
    *symbols = out;
}

/// Every path that a plan makes stale: the changed and the removed ones.
pub open spec fn stale_paths(plan: SyncPlan) -> Seq<Seq<char>> {
    views(plan.changed@) + views(plan.removed@)
}

fn stale_list(plan: &SyncPlan) -> (r: Vec<String>)
    ensures
        views(r@) == stale_paths(*plan),
{
    let mut r: Vec<String> = Vec::new();
    let mut k: usize = 0;
    while k < plan.changed.len()
        invariant
            k <= plan.changed@.len(),
            views(r@) == views(plan.changed@).subrange(0, k as int),
        decreases plan.changed@.len() - k,
    {
        let c = plan.changed[k].clone();
        proof { crate::text::lemma_views_push(r@, c); }
        r.push(c);
        assert(views(r@) =~= views(plan.changed@).subrange(0, k as int + 1));
        k = k + 1;
    }
    let mut k: usize = 0;
    while k < plan.removed.len()
        invariant
            k <= plan.removed@.len(),
            views(r@) == views(plan.changed@) + views(plan.removed@).subrange(0, k as int),
        decreases plan.removed@.len() - k,
    {
        let c = plan.removed[k].clone();
        proof { crate::text::lemma_views_push(r@, c); }
        r.push(c);
        assert(views(r@) =~= views(plan.changed@) + views(plan.removed@).subrange(0, k as int + 1));
        k = k + 1;
    }
    assert(views(plan.removed@).subrange(0, k as int) =~= views(plan.removed@));
    assert(views(plan.changed@).subrange(0, plan.changed@.len() as int) =~= views(plan.changed@));
    r
}

/// `after` is `before` brought in step with `plan`: the records of changed
/// and removed files dropped, the fresh ones appended, and every symbol's calls
/// resolved again over the new symbol set.
pub open spec fn synced(
    before: Context,
    plan: SyncPlan,
    fresh_files: Seq<FileInfo>,
    fresh_symbols: Seq<Symbol>,
    after: Context,
) -> bool {
    let kept = before.symbols@.filter(symbol_kept(stale_paths(plan))) + fresh_symbols;
    &&& after.stats == before.stats
    &&& after.files@ == before.files@.filter(file_kept(stale_paths(plan))) + fresh_files
    &&& after.symbols@.len() == kept.len()
    &&& forall|i: int| 0 <= i < kept.len() ==> same_extracted(#[trigger] after.symbols@[i], kept[i])
    &&& resolved(after.symbols@)
}

/// Brings the index in step with a plan: drops every record of a changed or
/// removed file, appends the records extracted anew from the changed files,
/// and resolves the calls of the whole symbol set again.
pub fn apply_sync(ctx: &mut Context, plan: &SyncPlan, fresh_files: Vec<FileInfo>, fresh_symbols: Vec<Symbol>)
    ensures
        synced(*old(ctx), *plan, fresh_files@, fresh_symbols@, *final(ctx)),
{
    let stale = stale_list(plan);
    retain_files(&mut ctx.files, &stale);
    retain_symbols(&mut ctx.symbols, &stale);
    let mut fresh_files = fresh_files;
    let mut fresh_symbols = fresh_symbols;
    ctx.files.append(&mut fresh_files);
    ctx.symbols.append(&mut fresh_symbols);
    finalize_calls(&mut ctx.symbols);
}

/// The same fingerprint list before and after: nothing changed, nothing removed.
pub proof fn lemma_unchanged_plans_nothing(m: Seq<Fingerprint>, p: Seq<char>)
    ensures
        !is_changed(m, m, p),
        !is_removed(m, m, p),
{
    if is_changed(m, m, p) {
        let k = choose|k: int| 0 <= k < m.len() && (#[trigger] m[k]).path@ == p && !has_entry(m, p, m[k].hash@);
        assert(has_entry(m, p, m[k].hash@));
    }
}

proof fn lemma_filter_keeps_all<A>(s: Seq<A>, pred: spec_fn(A) -> bool)
    requires
        forall|i: int| 0 <= i < s.len() ==> pred(#[trigger] s[i]),
    ensures
        s.filter(pred) == s,
    decreases s.len(),
{
    reveal(Seq::filter);
    if s.len() > 0 {
        lemma_filter_keeps_all(s.drop_last(), pred);
        assert(s.drop_last().push(s.last()) =~= s);
    }
}

/// Synchronising a resolved index with an empty plan and nothing fresh gives
/// the same index back: same statistics, same file records, and symbols equal
/// in every field.
pub proof fn lemma_sync_idempotent(before: Context, plan: SyncPlan, after: Context)
    requires
        plan.changed@.len() == 0,
        plan.removed@.len() == 0,
        resolved(before.symbols@),
        synced(before, plan, Seq::empty(), Seq::empty(), after),
    ensures
        after.stats == before.stats,
        after.files@ == before.files@,
        after.symbols@.len() == before.symbols@.len(),
        forall|i: int|
            0 <= i < before.symbols@.len() ==> same_extracted(#[trigger] after.symbols@[i], before.symbols@[i])
                && views(after.symbols@[i].custom_calls@) == views(before.symbols@[i].custom_calls@)
                && views(after.symbols@[i].lang_calls@) == views(before.symbols@[i].lang_calls@)
                && views(after.symbols@[i].called_by@) == views(before.symbols@[i].called_by@),
{
    let stale = stale_paths(plan);
    assert(stale =~= Seq::<Seq<char>>::empty());
    lemma_filter_keeps_all(before.files@, file_kept(stale));
    lemma_filter_keeps_all(before.symbols@, symbol_kept(stale));
    assert(before.files@ + Seq::<FileInfo>::empty() =~= before.files@);
    assert(before.symbols@ + Seq::<Symbol>::empty() =~= before.symbols@);
    crate::resolve::lemma_resolution_unique(after.symbols@, before.symbols@);
}

/// Removing a file drops its record and its symbols from the index, and the
/// names that only its symbols bore from every caller list.
pub proof fn lemma_deletion_propagates(
    before: Context,
    plan: SyncPlan,
    fresh_files: Seq<FileInfo>,
    fresh_symbols: Seq<Symbol>,
    after: Context,
    p: Seq<char>,
    n: Seq<char>,
)
    requires
        synced(before, plan, fresh_files, fresh_symbols, after),
        views(plan.removed@).contains(p),
        forall|j: int| 0 <= j < fresh_files.len() ==> (#[trigger] fresh_files[j]).path@ != p,
        forall|j: int| 0 <= j < fresh_symbols.len() ==> (#[trigger] fresh_symbols[j]).file@ != p,
        forall|j: int|
            0 <= j < before.symbols@.len() && (#[trigger] before.symbols@[j]).name@ == n
                ==> before.symbols@[j].file@ == p,
        forall|j: int| 0 <= j < fresh_symbols.len() ==> (#[trigger] fresh_symbols[j]).name@ != n,
    ensures
        forall|j: int| 0 <= j < after.files@.len() ==> (#[trigger] after.files@[j]).path@ != p,
        forall|j: int| 0 <= j < after.symbols@.len() ==> (#[trigger] after.symbols@[j]).file@ != p,
        forall|i: int|
            0 <= i < after.symbols@.len() ==> !views((#[trigger] after.symbols@[i]).called_by@).contains(n),
{
    let stale = stale_paths(plan);
    assert(stale.contains(p)) by {
        let k = choose|k: int| 0 <= k < views(plan.removed@).len() && views(plan.removed@)[k] == p;
        assert(stale[views(plan.changed@).len() + k] == p);
    }
    let kf = before.files@.filter(file_kept(stale));
    let ks = before.symbols@.filter(symbol_kept(stale));
    #[allow(deprecated)]
    before.files@.filter_lemma(file_kept(stale));
    #[allow(deprecated)]
    before.symbols@.filter_lemma(symbol_kept(stale));
    assert forall|j: int| 0 <= j < after.files@.len() implies (#[trigger] after.files@[j]).path@ != p by {
        if j < kf.len() {
            assert(after.files@[j] == kf[j]);
            assert(file_kept(stale)(kf[j]));
        } else {
            assert(after.files@[j] == fresh_files[j - kf.len()]);
        }
    }
    let all = ks + fresh_symbols;
    assert forall|j: int| 0 <= j < after.symbols@.len() implies (#[trigger] after.symbols@[j]).file@ != p
        && after.symbols@[j].name@ != n by {
        assert(same_extracted(after.symbols@[j], all[j]));
        if j < ks.len() {
            assert(all[j] == ks[j]);
            assert(symbol_kept(stale)(ks[j]));
            if ks[j].name@ == n {
                lemma_filter_member(before.symbols@, symbol_kept(stale), j);
            }
        } else {
            assert(all[j] == fresh_symbols[j - ks.len()]);
        }
    }
    assert forall|i: int| 0 <= i < after.symbols@.len() implies !views((#[trigger] after.symbols@[i]).called_by@).contains(n) by {
        crate::resolve::lemma_callers_exist(after.symbols@, i, n);
    }
}

/// Every element of a filtered sequence comes from the sequence.
pub proof fn lemma_filter_member<A>(s: Seq<A>, pred: spec_fn(A) -> bool, j: int)
    requires
        0 <= j < s.filter(pred).len(),
    ensures
        exists|k: int| 0 <= k < s.len() && s[k] == s.filter(pred)[j],
    decreases s.len(),
{
    reveal(Seq::filter);
    if s.len() > 0 {
        let rest = s.drop_last().filter(pred);
        if j < rest.len() {
            lemma_filter_member(s.drop_last(), pred, j);
            let k = choose|k: int| 0 <= k < s.drop_last().len() && s.drop_last()[k] == rest[j];
            assert(s[k] == s.filter(pred)[j]);
        } else {
            assert(s[s.len() - 1] == s.filter(pred)[j]);
        }
    }
}

} // verus!
