//! Building the index: one file record per recognised file, the symbols of
//! each parse tree, and a resolution pass over them all; in full, or for the
//! files that a synchronisation plan names.
use vstd::prelude::*;
use crate::model::{Context, FileInfo, RepoStats, Symbol, same_extracted};
use crate::paths::{detect_language, language_of, str_eq};
use crate::snapshot::count_lines;
use crate::tree::SyntaxTree;
use crate::extract::{extract_python, extract_rust, extracted};
use crate::resolve::{finalize_calls, resolved};
use crate::sync::{
    Fingerprint, SyncPlan, apply_sync, synced, stale_paths, file_kept, is_changed, is_removed, has_path,
    has_entry,
};
use crate::text::views;

verus! {

/// A file to index: its path, its text, its size, and its parse tree, where
/// parsing succeeded.
#[derive(Clone, Debug, PartialEq, Eq)]
pub struct SourceFile {
    pub path: String,
    pub text: String,
    pub bytes: u64,
    pub tree: Option<SyntaxTree>,
}

/// Whether the tree's links and rows are as extraction needs them.
pub fn check_tree(t: &SyntaxTree) -> (r: bool)
    ensures
        r == t.wf(),
{
    let n = t.nodes.len();
    let mut i: usize = 0;
    while i < n
        invariant
            n == t.nodes@.len(),
            i <= n,
            forall|q: int|
                0 <= q < i ==> {
                    &&& (#[trigger] t.nodes@[q]).end_row < usize::MAX
                    &&& t.nodes@[q].start_row <= t.nodes@[q].end_row
                    &&& forall|k: int|
                        0 <= k < t.nodes@[q].children@.len() ==> q < #[trigger] t.nodes@[q].children@[k] < n
                },
        decreases n - i,
    {
        let node = &t.nodes[i];
        if node.end_row == usize::MAX || node.start_row > node.end_row {
            return false;
        }
        let m = node.children.len();
        let mut k: usize = 0;
        while k < m
            invariant
                n == t.nodes@.len(),
                i < n,
                *node == t.nodes@[i as int],
                m == node.children@.len(),
                k <= m,
                forall|j: int| 0 <= j < k ==> i < #[trigger] node.children@[j] < n,
            decreases m - k,
        {
            let c = node.children[k];
            if c <= i || c >= n {
                return false;
            }
            k = k + 1;
        }
        i = i + 1;
    }
    true
}

/// `syms` is the concatenation, in order, of the symbols that each
/// recognised file of `sources` contributes.
pub open spec fn symbols_from(syms: Seq<Symbol>, sources: Seq<SourceFile>) -> bool
    decreases sources.len(),
{
    if sources.len() == 0 {
        syms.len() == 0
    } else {
        let s = sources.last();
        if language_of(s.path@) is None {
            symbols_from(syms, sources.drop_last())
        } else {
            exists|m: int|
                0 <= m <= syms.len() && symbols_from(syms.subrange(0, m), sources.drop_last())
                    && symbols_of(syms.subrange(m, syms.len() as int), s)
        }
    }
}

/// The record of a recognised file.
pub open spec fn file_record(f: FileInfo, s: SourceFile) -> bool {
    &&& f.path@ == s.path@
    &&& Some(f.language@) == language_of(s.path@)
    &&& f.bytes == s.bytes
    &&& f.lines == count_lines(s.text@)
}

/// The symbols that a recognised file with a usable tree contributes.
pub open spec fn symbols_of(added: Seq<Symbol>, s: SourceFile) -> bool {
    match s.tree {
        Some(t) if t.wf() => extracted(added, t, s.path@, language_of(s.path@) == Some("python"@)),
        _ => added.len() == 0,
    }
}

/// Indexes one file: a file of no recognised language is left out; any other
/// gets its record, and the symbols of its tree where it has a usable one.
pub fn index_file(src: &SourceFile, files: &mut Vec<FileInfo>, symbols: &mut Vec<Symbol>)
    ensures
        language_of(src.path@) is None ==> final(files)@ == old(files)@ && final(symbols)@ == old(symbols)@,
        language_of(src.path@) is Some ==> {
            &&& final(files)@.len() == old(files)@.len() + 1
            &&& final(files)@.subrange(0, old(files)@.len() as int) == old(files)@
            &&& file_record(final(files)@.last(), *src)
            &&& final(symbols)@.len() >= old(symbols)@.len()
            &&& final(symbols)@.subrange(0, old(symbols)@.len() as int) == old(symbols)@
            &&& symbols_of(final(symbols)@.subrange(old(symbols)@.len() as int, final(symbols)@.len() as int), *src)
        },
{
    let lang = match detect_language(src.path.as_str()) {
        Some(l) => l,
        None => return,
    };
    let ghost before = symbols@;
    proof {
        reveal_strlit("python");
        reveal_strlit("rust");
    }
    let python = str_eq(lang, "python");
    match &src.tree {
        Some(t) => {
            if check_tree(t) {
                if python {
                    extract_python(t, src.path.as_str(), symbols);
                } else {
                    extract_rust(t, src.path.as_str(), symbols);
                }
            }
        },
        None => {},
    }
    proof {
        if symbols@.len() == before.len() {
            assert(symbols@.subrange(0, before.len() as int) =~= symbols@);
        }
    }
    let ghost pre_files = files@;
    files.push(FileInfo {
        path: src.path.clone(),
        language: String::from_str(lang),
        bytes: src.bytes,
        lines: crate::snapshot::line_count(src.text.as_str()),
    });
    assert(files@.subrange(0, pre_files.len() as int) =~= pre_files);
}

/// Every symbol names a file that has a record in `files`.
pub open spec fn symbols_have_files(files: Seq<FileInfo>, symbols: Seq<Symbol>) -> bool {
    forall|j: int| 0 <= j < symbols.len() ==> has_file(files, (#[trigger] symbols[j]).file@)
}

/// Some record of `files` has path `p`.
pub open spec fn has_file(files: Seq<FileInfo>, p: Seq<char>) -> bool {
    exists|f: int| 0 <= f < files.len() && (#[trigger] files[f]).path@ == p
}

/// The records of the recognised files among `sources`, in order.
pub open spec fn records_of(files: Seq<FileInfo>, sources: Seq<SourceFile>) -> bool {
    let rec = sources.filter(|s: SourceFile| language_of(s.path@) is Some);
    &&& files.len() == rec.len()
    &&& forall|j: int| 0 <= j < files.len() ==> file_record(#[trigger] files[j], rec[j])
}

/// The file records and the unresolved symbols of the given files.
pub fn index_files(sources: &Vec<SourceFile>) -> (r: (Vec<FileInfo>, Vec<Symbol>))
    ensures
        records_of(r.0@, sources@),
        symbols_from(r.1@, sources@),
        symbols_have_files(r.0@, r.1@),
{
    let mut files: Vec<FileInfo> = Vec::new();
    let mut symbols: Vec<Symbol> = Vec::new();
    let mut k: usize = 0;
    while k < sources.len()
        invariant
            k <= sources@.len(),
            records_of(files@, sources@.subrange(0, k as int)),
            symbols_from(symbols@, sources@.subrange(0, k as int)),
            symbols_have_files(files@, symbols@),
        decreases sources@.len() - k,
    {
        let ghost pre = sources@.subrange(0, k as int).filter(|s: SourceFile| language_of(s.path@) is Some);
        let ghost next = sources@.subrange(0, k as int + 1);
        let ghost old_files = files@;
        let ghost old_symbols = symbols@;
        proof {
            reveal(Seq::filter);
            assert(next.drop_last() =~= sources@.subrange(0, k as int));
            assert(next.last() == sources@[k as int]);
        }
        index_file(&sources[k], &mut files, &mut symbols);
        proof {
            let src = sources@[k as int];
            if language_of(src.path@) is Some {
                assert(next.filter(|s: SourceFile| language_of(s.path@) is Some) == pre.push(src));
                assert forall|j: int| 0 <= j < files@.len() implies file_record(
                    #[trigger] files@[j],
                    pre.push(src)[j],
                ) by {
                    if j < old_files.len() {
                        assert(files@[j] == old_files[j]);
                    }
                }
                lemma_new_symbols_have_file(old_files, files@, old_symbols, symbols@, src);
                assert(symbols@.subrange(0, old_symbols.len() as int) == old_symbols);
                assert(symbols_from(symbols@, next));
            } else {
                assert(next.filter(|s: SourceFile| language_of(s.path@) is Some) == pre);
                assert(symbols_from(symbols@, next));
            }
        }
        k = k + 1;
    }
    assert(sources@.subrange(0, k as int) =~= sources@);
    (files, symbols)
}

/// Builds the whole index from the files of a tree.
pub fn build_context(stats: RepoStats, sources: &Vec<SourceFile>) -> (r: Context)
    ensures
        r.stats == stats,
        records_of(r.files@, sources@),
        exists|raw: Seq<Symbol>|
            symbols_from(raw, sources@) && raw.len() == r.symbols@.len() && forall|i: int|
                0 <= i < raw.len() ==> same_extracted(#[trigger] r.symbols@[i], raw[i]),
        symbols_have_files(r.files@, r.symbols@),
        resolved(r.symbols@),
{
    let (files, mut symbols) = index_files(sources);
    let ghost unresolved = symbols@;
    finalize_calls(&mut symbols);
    proof {
        lemma_resolution_keeps_files(files@, unresolved, symbols@);
        assert(symbols_from(unresolved, sources@));
    }
    Context { stats, files, symbols }
}

/// Synchronises the index with a plan, given the files that the plan marks
/// changed, read and parsed anew, each once (a changed file that could not be
/// read is left out): their records replace the stale ones.
pub fn incremental_update(ctx: &mut Context, plan: &SyncPlan, sources: &Vec<SourceFile>)
    requires
        forall|j: int| 0 <= j < sources@.len() ==> views(plan.changed@).contains((#[trigger] sources@[j]).path@),
        forall|i: int, j: int|
            0 <= i < j < sources@.len() ==> (#[trigger] sources@[i]).path@ != (#[trigger] sources@[j]).path@,
    ensures
        exists|fresh_files: Seq<FileInfo>, fresh_symbols: Seq<Symbol>|
            records_of(fresh_files, sources@) && symbols_from(fresh_symbols, sources@)
                && symbols_have_files(fresh_files, fresh_symbols)
                && synced(*old(ctx), *plan, fresh_files, fresh_symbols, *final(ctx)),
{
    let (files, symbols) = index_files(sources);
    let ghost ff = files@;
    let ghost fs = symbols@;
    apply_sync(ctx, plan, files, symbols);
    assert(records_of(ff, sources@) && symbols_from(fs, sources@) && symbols_have_files(ff, fs)
        && synced(*old(ctx), *plan, ff, fs, *ctx));
}

proof fn lemma_resolution_keeps_files(files: Seq<FileInfo>, before: Seq<Symbol>, after: Seq<Symbol>)
    requires
        symbols_have_files(files, before),
        after.len() == before.len(),
        forall|i: int| 0 <= i < before.len() ==> same_extracted(#[trigger] after[i], before[i]),
    ensures
        symbols_have_files(files, after),
{
    assert forall|j: int| 0 <= j < after.len() implies has_file(files, (#[trigger] after[j]).file@) by {
        assert(same_extracted(after[j], before[j]));
        let f = choose|f: int| 0 <= f < files.len() && (#[trigger] files[f]).path@ == before[j].file@;
        assert(files[f].path@ == after[j].file@);
    }
}

proof fn lemma_new_symbols_have_file(
    old_files: Seq<FileInfo>,
    files: Seq<FileInfo>,
    old_symbols: Seq<Symbol>,
    symbols: Seq<Symbol>,
    src: SourceFile,
)
    requires
        symbols_have_files(old_files, old_symbols),
        files.len() == old_files.len() + 1,
        files.subrange(0, old_files.len() as int) == old_files,
        file_record(files.last(), src),
        symbols.len() >= old_symbols.len(),
        symbols.subrange(0, old_symbols.len() as int) == old_symbols,
        symbols_of(symbols.subrange(old_symbols.len() as int, symbols.len() as int), src),
    ensures
        symbols_have_files(files, symbols),
{
    let added = symbols.subrange(old_symbols.len() as int, symbols.len() as int);
    assert forall|j: int| 0 <= j < symbols.len() implies has_file(files, (#[trigger] symbols[j]).file@) by {
        if j < old_symbols.len() {
            assert(symbols[j] == old_symbols[j]);
            let f = choose|f: int| 0 <= f < old_files.len() && (#[trigger] old_files[f]).path@ == old_symbols[j].file@;
            assert(files[f] == old_files[f]);
            assert(has_file(files, symbols[j].file@));
        } else {
            let q = j - old_symbols.len();
            assert(added[q] == symbols[j]);
            let t = src.tree->0;
            let python = language_of(src.path@) == Some("python"@);
            let d = crate::extract::top_decls(t, python);
            if python {
                assert(crate::extract::python_symbol(added[q], t, src.path@, d[q]));
            } else {
                assert(crate::extract::rust_symbol(added[q], t, src.path@, d[q]));
            }
            assert(files[files.len() - 1].path@ == symbols[j].file@);
            assert(has_file(files, symbols[j].file@));
        }
    }
}

/// Synchronisation keeps the records and the fingerprints in step: where the
/// records were those of the old list's paths, the plan is that of the two
/// lists, and fresh records came for exactly the changed paths, the records
/// afterwards are those of the new list's paths.
pub proof fn lemma_sync_tracks_fingerprints(
    before: Context,
    old_fp: Seq<Fingerprint>,
    new_fp: Seq<Fingerprint>,
    plan: SyncPlan,
    fresh_files: Seq<FileInfo>,
    fresh_symbols: Seq<Symbol>,
    after: Context,
    p: Seq<char>,
)
    requires
        synced(before, plan, fresh_files, fresh_symbols, after),
        forall|q: Seq<char>| #[trigger] views(plan.changed@).contains(q) <==> is_changed(old_fp, new_fp, q),
        forall|q: Seq<char>| #[trigger] views(plan.removed@).contains(q) <==> is_removed(old_fp, new_fp, q),
        forall|q: Seq<char>| #[trigger] has_file(before.files@, q) <==> has_path(old_fp, q),
        forall|q: Seq<char>| #[trigger] has_file(fresh_files, q) <==> views(plan.changed@).contains(q),
    ensures
        has_file(after.files@, p) <==> has_path(new_fp, p),
{
    let stale = stale_paths(plan);
    let kf = before.files@.filter(file_kept(stale));
    #[allow(deprecated)]
    before.files@.filter_lemma(file_kept(stale));
    assert(stale.contains(p) <==> (views(plan.changed@).contains(p) || views(plan.removed@).contains(p))) by {
        if stale.contains(p) {
            let k = choose|k: int| 0 <= k < stale.len() && stale[k] == p;
            if k >= views(plan.changed@).len() {
                assert(views(plan.removed@)[k - views(plan.changed@).len()] == p);
            } else {
                assert(views(plan.changed@)[k] == p);
            }
        }
        if views(plan.changed@).contains(p) {
            let k = choose|k: int| 0 <= k < views(plan.changed@).len() && views(plan.changed@)[k] == p;
            assert(stale[k] == p);
        }
        if views(plan.removed@).contains(p) {
            let k = choose|k: int| 0 <= k < views(plan.removed@).len() && views(plan.removed@)[k] == p;
            assert(stale[views(plan.changed@).len() + k] == p);
        }
    }
    if has_file(after.files@, p) {
        let j = choose|j: int| 0 <= j < after.files@.len() && (#[trigger] after.files@[j]).path@ == p;
        if j < kf.len() {
            assert(after.files@[j] == kf[j]);
            assert(file_kept(stale)(kf[j]));
            crate::sync::lemma_filter_member(before.files@, file_kept(stale), j);
            let k = choose|k: int| 0 <= k < before.files@.len() && before.files@[k] == kf[j];
            assert(has_file(before.files@, p));
            if !has_path(new_fp, p) {
                assert(is_removed(old_fp, new_fp, p));
            }
        } else {
            assert(after.files@[j] == fresh_files[j - kf.len()]);
            assert(has_file(fresh_files, p));
            let k = choose|k: int| 0 <= k < new_fp.len() && (#[trigger] new_fp[k]).path@ == p && !has_entry(old_fp, p, new_fp[k].hash@);
        }
    }
    if has_path(new_fp, p) {
        let k = choose|k: int| 0 <= k < new_fp.len() && (#[trigger] new_fp[k]).path@ == p;
        if views(plan.changed@).contains(p) {
            assert(has_file(fresh_files, p));
            let j = choose|j: int| 0 <= j < fresh_files.len() && (#[trigger] fresh_files[j]).path@ == p;
            assert(after.files@[kf.len() + j] == fresh_files[j]);
        } else {
            assert(!is_changed(old_fp, new_fp, p));
            assert(has_entry(old_fp, p, new_fp[k].hash@));
            assert(has_path(old_fp, p));
            assert(has_file(before.files@, p));
            assert(!is_removed(old_fp, new_fp, p));
            let f = choose|f: int| 0 <= f < before.files@.len() && (#[trigger] before.files@[f]).path@ == p;
            assert(!stale.contains(p));
            assert(file_kept(stale)(before.files@[f]));
            assert(kf.contains(before.files@[f]));
            let q = choose|q: int| 0 <= q < kf.len() && kf[q] == before.files@[f];
            assert(after.files@[q] == kf[q]);
        }
    }
}

} // verus!
