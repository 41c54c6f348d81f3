//! The snapshot of a tree: aggregate statistics and the content fingerprint of
//! each recognised source file, from what a walk of the tree found.
use vstd::prelude::*;
use crate::model::RepoStats;
use crate::paths::{should_ignore, detect_language, has_ignored_segment, language_of};
use crate::sync::Fingerprint;

verus! {

/// One entry that a walk of the tree produced.
#[derive(Clone, Debug, PartialEq, Eq)]
pub struct WalkEntry {
    pub path: String,
    /// A regular file, not a directory or a link.
    pub is_file: bool,
    /// The size from the file's metadata, where that could be read.
    pub size: Option<u64>,
    /// The content as UTF-8 text, where it could be read as such.
    pub text: Option<String>,
    /// The raw content, where it could be read.
    pub data: Option<Vec<u8>>,
}

/// The number of lines that `str::lines` yields: one per `\n`, and one more for
/// a last line that does not end in one.
pub open spec fn count_lines(s: Seq<char>) -> nat {
    newlines(s) + if s.len() > 0 && s.last() != '\n' { 1nat } else { 0nat }
}

pub open spec fn newlines(s: Seq<char>) -> nat
    decreases s.len(),
{
    if s.len() == 0 {
        0
    } else {
        newlines(s.drop_last()) + if s.last() == '\n' { 1nat } else { 0nat }
    }
}

/// Relies on `str::lines`, counted: the text is split at each `\n` (with an
/// optional `\r` before it), and a final line ending yields no empty line.
#[verifier::external_body]
pub(crate) fn line_count(s: &str) -> (r: usize)
    ensures
        r == count_lines(s@),
{
    s.lines().count()
}

/// What `blake3::hash` gives for the bytes, as lower-case hex.
pub uninterp spec fn blake3_hex(data: Seq<u8>) -> Seq<char>;

/// Relies on `blake3::hash` and `Hash::to_hex`: the digest of the bytes, as 64
/// hex digits.
#[verifier::external_body]
fn content_hash(data: &[u8]) -> (r: String)
    ensures
        r@ == blake3_hex(data@),
        r@.len() == 64,
{
    blake3::hash(data).to_hex().to_string()
}

/// The fingerprint of a file's bytes.
pub fn fingerprint(data: &Vec<u8>) -> (r: String)
    ensures
        r@ == blake3_hex(data@),
        r@.len() == 64,
{
    content_hash(data.as_slice())
}

/// The entry is a file that the index sees: not under an ignored name, and of
/// a recognised language.
pub open spec fn visible(e: WalkEntry) -> bool {
    e.is_file && !has_ignored_segment(e.path@) && language_of(e.path@) is Some
}

fn is_visible(e: &WalkEntry) -> (r: bool)
    ensures
        r == visible(*e),
{
    e.is_file && !should_ignore(e.path.as_str()) && detect_language(e.path.as_str()).is_some()
}

/// Files counted, bytes and lines, over the first entries, without bound.
pub open spec fn file_total(es: Seq<WalkEntry>) -> nat
    decreases es.len(),
{
    if es.len() == 0 {
        0
    } else {
        let e = es.last();
        file_total(es.drop_last()) + if visible(e) && e.size is Some { 1nat } else { 0nat }
    }
}

pub open spec fn byte_total(es: Seq<WalkEntry>) -> nat
    decreases es.len(),
{
    if es.len() == 0 {
        0
    } else {
        let e = es.last();
        byte_total(es.drop_last()) + if visible(e) && e.size is Some { e.size->0 as nat } else { 0nat }
    }
}

pub open spec fn line_total(es: Seq<WalkEntry>) -> nat
    decreases es.len(),
{
    if es.len() == 0 {
        0
    } else {
        let e = es.last();
        line_total(es.drop_last()) + if visible(e) && e.size is Some && e.text is Some {
            count_lines(e.text->0@)
        } else {
            0nat
        }
    }
}

pub open spec fn capped(n: nat, max: nat) -> nat {
    if n > max { max } else { n }
}

/// Counts the visible files whose size could be read, sums their sizes and
/// their lines (of those read as text); each total stops at its type's limit.
pub fn compute_repo_stats(entries: &Vec<WalkEntry>) -> (r: RepoStats)
    ensures
        r.file_count == capped(file_total(entries@), usize::MAX as nat),
        r.total_bytes == capped(byte_total(entries@), u64::MAX as nat),
        r.total_lines == capped(line_total(entries@), usize::MAX as nat),
{
    let mut stats = RepoStats { file_count: 0, total_bytes: 0, total_lines: 0 };
    let mut k: usize = 0;
    while k < entries.len()
        invariant
            k <= entries@.len(),
            stats.file_count == capped(file_total(entries@.subrange(0, k as int)), usize::MAX as nat),
            stats.total_bytes == capped(byte_total(entries@.subrange(0, k as int)), u64::MAX as nat),
            stats.total_lines == capped(line_total(entries@.subrange(0, k as int)), usize::MAX as nat),
        decreases entries@.len() - k,
    {
        let e = &entries[k];
        proof {
            assert(entries@.subrange(0, k as int + 1).drop_last() =~= entries@.subrange(0, k as int));
        }
        if is_visible(e) {
            match e.size {
                Some(size) => {
                    stats.file_count = stats.file_count.saturating_add(1);
                    stats.total_bytes = stats.total_bytes.saturating_add(size);
                    match &e.text {
                        Some(text) => {
                            stats.total_lines = stats.total_lines.saturating_add(line_count(text.as_str()));
                        },
                        None => {},
                    }
                },
                None => {},
            }
        }
        k = k + 1;
    }
    assert(entries@.subrange(0, k as int) =~= entries@);
    stats
}

/// The entries that get a fingerprint: visible files whose bytes were read.
pub open spec fn hashed(e: WalkEntry) -> bool {
    visible(e) && e.data is Some
}

/// The fingerprint of each visible file whose bytes were read, in walk order.
pub fn compute_file_hashes(entries: &Vec<WalkEntry>) -> (r: Vec<Fingerprint>)
    ensures
        r@.len() == entries@.filter(|e: WalkEntry| hashed(e)).len(),
        forall|j: int|
            0 <= j < r@.len() ==> (#[trigger] r@[j]).path@ == entries@.filter(|e: WalkEntry| hashed(e))[j].path@
                && r@[j].hash@ == blake3_hex(entries@.filter(|e: WalkEntry| hashed(e))[j].data->0@),
{
    let mut out: Vec<Fingerprint> = Vec::new();
    let mut k: usize = 0;
    while k < entries.len()
        invariant
            k <= entries@.len(),
            out@.len() == entries@.subrange(0, k as int).filter(|e: WalkEntry| hashed(e)).len(),
            forall|j: int|
                0 <= j < out@.len() ==> (#[trigger] out@[j]).path@ == entries@.subrange(0, k as int).filter(
                    |e: WalkEntry| hashed(e),
                )[j].path@ && out@[j].hash@ == blake3_hex(
                    entries@.subrange(0, k as int).filter(|e: WalkEntry| hashed(e))[j].data->0@,
                ),
        decreases entries@.len() - k,
    {
        let e = &entries[k];
        let ghost pre = entries@.subrange(0, k as int).filter(|e: WalkEntry| hashed(e));
        let ghost next = entries@.subrange(0, k as int + 1);
        proof {
            reveal(Seq::filter);
            assert(next.drop_last() =~= entries@.subrange(0, k as int));
            assert(next.last() == *e);
        }
        if is_visible(e) {
            match &e.data {
                Some(data) => {
                    out.push(Fingerprint { path: e.path.clone(), hash: fingerprint(data) });
                    assert(next.filter(|e: WalkEntry| hashed(e)) == pre.push(*e));
                },
                None => {
                    assert(next.filter(|e: WalkEntry| hashed(e)) == pre);
                },
            }
        } else {
            assert(next.filter(|e: WalkEntry| hashed(e)) == pre);
        }
        k = k + 1;
    }
    assert(entries@.subrange(0, k as int) =~= entries@);
    out
}

} // verus!
