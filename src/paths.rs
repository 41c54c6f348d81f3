//! Which paths the index sees: ignored directories, and the language that a
//! file's extension names.
use vstd::prelude::*;
use vstd::string::*;

verus! {

/// Whether two strings hold the same characters.
pub fn str_eq(a: &str, b: &str) -> (r: bool)
    ensures
        r == (a@ == b@),
{
    let la = a.unicode_len();
    if la != b.unicode_len() {
        return false;
    }
    let mut i: usize = 0;
    while i < la
        invariant
            la == a@.len(),
            la == b@.len(),
            i <= la,
            forall|k: int| 0 <= k < i ==> a@[k] == b@[k],
        decreases la - i,
    {
        if a.get_char(i) != b.get_char(i) {
            return false;
        }
        i = i + 1;
    }
    assert(a@ =~= b@);
    true
}

/// Directory and file names under which nothing is indexed: version control,
/// virtual environments, dependencies, build output, caches, editor metadata.
pub open spec fn ignored_name(s: Seq<char>) -> bool {
    s == ".git"@ || s == ".venv"@ || s == "venv"@ || s == "env"@ || s == ".env"@
        || s == "__pycache__"@ || s == "node_modules"@ || s == "target"@ || s == "dist"@
        || s == "build"@ || s == ".out"@ || s == ".cache"@ || s == ".idea"@ || s == ".vscode"@
}

fn is_ignored_name(s: &str) -> (r: bool)
    ensures
        r == ignored_name(s@),
{
    str_eq(s, ".git") || str_eq(s, ".venv") || str_eq(s, "venv") || str_eq(s, "env")
        || str_eq(s, ".env") || str_eq(s, "__pycache__") || str_eq(s, "node_modules")
        || str_eq(s, "target") || str_eq(s, "dist") || str_eq(s, "build") || str_eq(s, ".out")
        || str_eq(s, ".cache") || str_eq(s, ".idea") || str_eq(s, ".vscode")
}

/// `p[i..j]` is one whole `/`-separated segment of `p`.
pub open spec fn is_segment(p: Seq<char>, i: int, j: int) -> bool {
    &&& 0 <= i <= j <= p.len()
    &&& i == 0 || p[i - 1] == '/'
    &&& j == p.len() || p[j] == '/'
    &&& forall|k: int| i <= k < j ==> p[k] != '/'
}

/// Some segment of the path is an ignored name.
pub open spec fn has_ignored_segment(p: Seq<char>) -> bool {
    exists|i: int, j: int| #[trigger] is_segment(p, i, j) && ignored_name(p.subrange(i, j))
}

/// Whether any `/`-separated segment of `path` is an ignored name.
pub fn should_ignore(path: &str) -> (r: bool)
    ensures
        r == has_ignored_segment(path@),
{
    let n = path.unicode_len();
    let ghost p = path@;
    let mut start: usize = 0;
    let mut k: usize = 0;
    while k < n
        invariant
            n == p.len(),
            p == path@,
            start <= k <= n,
            start == 0 || p[start - 1] == '/',
            forall|m: int| start <= m < k ==> p[m] != '/',
            forall|i: int, j: int|
                #[trigger] is_segment(p, i, j) && j < start ==> !ignored_name(p.subrange(i, j)),
        decreases n - k,
    {
        if path.get_char(k) == '/' {
            if is_ignored_name(path.substring_char(start, k)) {
                assert(is_segment(p, start as int, k as int));
                return true;
            }
            proof {
                lemma_segments_before(p, start as int, k as int);
            }
            start = k + 1;
        }
        k = k + 1;
    }
    if is_ignored_name(path.substring_char(start, n)) {
        assert(is_segment(p, start as int, n as int));
        return true;
    }
    proof {
        lemma_segments_before(p, start as int, n as int);
    }
    false
}

/// Where `p[start..k]` is a segment that is not ignored, and no earlier one is,
/// no segment that ends by `k` is.
proof fn lemma_segments_before(p: Seq<char>, start: int, k: int)
    requires
        0 <= start <= k <= p.len(),
        start == 0 || p[start - 1] == '/',
        forall|m: int| start <= m < k ==> p[m] != '/',
        k == p.len() || p[k] == '/',
        !ignored_name(p.subrange(start, k)),
        forall|i: int, j: int|
            #[trigger] is_segment(p, i, j) && j < start ==> !ignored_name(p.subrange(i, j)),
    ensures
        forall|i: int, j: int|
            #[trigger] is_segment(p, i, j) && j <= k ==> !ignored_name(p.subrange(i, j)),
{
    assert forall|i: int, j: int| #[trigger] is_segment(p, i, j) && j <= k implies !ignored_name(
        p.subrange(i, j),
    ) by {
        if j >= start {
            if i < start {
                assert(p[start - 1] == '/');
            }
            if i > start {
                assert(p[i - 1] == '/');
            }
            if j < k {
                assert(p[j] == '/');
            }
        }
    }
}

/// The file name (after the last `/`) has a non-empty stem and the extension
/// `ext`: `p` ends in `.` followed by `ext`, and a character other than `/`
/// comes before that dot.
pub open spec fn has_extension(p: Seq<char>, ext: Seq<char>) -> bool {
    let k = p.len() - ext.len() - 1;
    &&& k >= 1
    &&& p[k] == '.'
    &&& p[k - 1] != '/'
    &&& p.subrange(k + 1, p.len() as int) == ext
}

fn ends_with_extension(p: &str, ext: &str) -> (r: bool)
    requires
        ext@.len() > 0,
    ensures
        r == has_extension(p@, ext@),
{
    let n = p.unicode_len();
    let e = ext.unicode_len();
    if n < 2 || n - 2 < e {
        return false;
    }
    let k = n - e - 1;
    if p.get_char(k) != '.' || p.get_char(k - 1) == '/' {
        return false;
    }
    str_eq(p.substring_char(k + 1, n), ext)
}

/// The language of a recognised source file, by its extension.
pub open spec fn language_of(p: Seq<char>) -> Option<Seq<char>> {
    if has_extension(p, "py"@) {
        Some("python"@)
    } else if has_extension(p, "rs"@) {
        Some("rust"@)
    } else {
        None
    }
}

/// `"python"` for a `.py` file, `"rust"` for a `.rs` file, `None` for any other.
pub fn detect_language(path: &str) -> (r: Option<&'static str>)
    ensures
        match r {
            Some(l) => language_of(path@) == Some(l@),
            None => language_of(path@) is None,
        },
{
    proof {
        reveal_strlit("py");
        reveal_strlit("rs");
    }
    if ends_with_extension(path, "py") {
        Some("python")
    } else if ends_with_extension(path, "rs") {
        Some("rust")
    } else {
        None
    }
}

} // verus!
