//! Symbol extraction: the top-level functions and classes of a parse tree,
//! each as a uniform record whatever the language.
use vstd::prelude::*;
use vstd::string::*;
use crate::model::Symbol;
use crate::text::{views, strictly_sorted};
use crate::paths::str_eq;
use crate::tree::{
    SyntaxTree, SyntaxNode, field_child, first_named_child, text_or, calls_under, child_by_field,
    named_child, node_text_or, collect_calls,
};

verus! {

/// A character of Unicode's White_Space property, as `char::is_whitespace`
/// and `str::trim` use it.
pub open spec fn is_space(c: char) -> bool {
    let v = c as int;
    (9 <= v <= 13) || v == 32 || v == 0x85 || v == 0xa0 || v == 0x1680 || (0x2000 <= v <= 0x200a)
        || v == 0x2028 || v == 0x2029 || v == 0x202f || v == 0x205f || v == 0x3000
}

fn space(c: char) -> (r: bool)
    ensures
        r == is_space(c),
{
    let v = c as u32;
    (9 <= v && v <= 13) || v == 32 || v == 0x85 || v == 0xa0 || v == 0x1680 || (0x2000 <= v && v
        <= 0x200a) || v == 0x2028 || v == 0x2029 || v == 0x202f || v == 0x205f || v == 0x3000
}

pub open spec fn strip_space_front(s: Seq<char>) -> Seq<char>
    decreases s.len(),
{
    if s.len() > 0 && is_space(s[0]) {
        strip_space_front(s.drop_first())
    } else {
        s
    }
}

pub open spec fn strip_space_back(s: Seq<char>) -> Seq<char>
    decreases s.len(),
{
    if s.len() > 0 && is_space(s.last()) {
        strip_space_back(s.drop_last())
    } else {
        s
    }
}

/// A string without white space at either end, as `str::trim` leaves it.
pub open spec fn trimmed(s: Seq<char>) -> Seq<char> {
    strip_space_back(strip_space_front(s))
}

/// Removes the white space at both ends of `s`.
pub fn trim_space(s: &str) -> (r: String)
    ensures
        r@ == trimmed(s@),
{
    let n = s.unicode_len();
    let mut a: usize = 0;
    assert(s@.subrange(0, n as int) =~= s@);
    while a < n && space(s.get_char(a))
        invariant
            n == s@.len(),
            a <= n,
            strip_space_front(s@) == strip_space_front(s@.subrange(a as int, n as int)),
        decreases n - a,
    {
        assert(s@.subrange(a as int, n as int).drop_first() =~= s@.subrange(a + 1, n as int));
        a = a + 1;
    }
    let mut b: usize = n;
    while b > a && space(s.get_char(b - 1))
        invariant
            n == s@.len(),
            a <= b <= n,
            strip_space_back(s@.subrange(a as int, n as int)) == strip_space_back(s@.subrange(a as int, b as int)),
        decreases b - a,
    {
        assert(s@.subrange(a as int, b as int).drop_last() =~= s@.subrange(a as int, b - 1));
        b = b - 1;
    }
    String::from_str(s.substring_char(a, b))
}

pub open spec fn opt_view(o: Option<String>) -> Option<Seq<char>> {
    match o {
        Some(s) => Some(s@),
        None => None,
    }
}

pub open spec fn is_quote(c: char) -> bool {
    c == '"' || c == '\''
}

pub open spec fn strip_front(s: Seq<char>) -> Seq<char>
    decreases s.len(),
{
    if s.len() > 0 && is_quote(s[0]) {
        strip_front(s.drop_first())
    } else {
        s
    }
}

pub open spec fn strip_back(s: Seq<char>) -> Seq<char>
    decreases s.len(),
{
    if s.len() > 0 && is_quote(s.last()) {
        strip_back(s.drop_last())
    } else {
        s
    }
}

/// A string literal's text without the quote characters at either end.
pub open spec fn trim_quotes(s: Seq<char>) -> Seq<char> {
    strip_back(strip_front(s))
}

/// Removes the quote characters (`"` and `'`) at both ends of `s`.
pub fn strip_quotes(s: &str) -> (r: String)
    ensures
        r@ == trim_quotes(s@),
{
    let n = s.unicode_len();
    let mut a: usize = 0;
    assert(s@.subrange(0, n as int) =~= s@);
    while a < n && (s.get_char(a) == '"' || s.get_char(a) == '\'')
        invariant
            n == s@.len(),
            a <= n,
            strip_front(s@) == strip_front(s@.subrange(a as int, n as int)),
        decreases n - a,
    {
        assert(s@.subrange(a as int, n as int).drop_first() =~= s@.subrange(a + 1, n as int));
        a = a + 1;
    }
    let mut b: usize = n;
    while b > a && (s.get_char(b - 1) == '"' || s.get_char(b - 1) == '\'')
        invariant
            n == s@.len(),
            a <= b <= n,
            strip_back(s@.subrange(a as int, n as int)) == strip_back(s@.subrange(a as int, b as int)),
        decreases b - a,
    {
        assert(s@.subrange(a as int, b as int).drop_last() =~= s@.subrange(a as int, b - 1));
        b = b - 1;
    }
    String::from_str(s.substring_char(a, b))
}

/// One parameter node as (name, type). In Python: a bare identifier or a
/// `*args` / `**kwargs` pattern is its own name, of type `unknown`; a typed
/// parameter is named by its first named child; a parameter with a default
/// gives its `name` field; types come from the `type` field, else `unknown`.
/// In Rust: a parameter with a pattern gives it and its type. Anything else
/// (separators, `self`) is no parameter.
pub open spec fn param_entry(t: SyntaxTree, p: int, python: bool) -> Option<(Seq<char>, Seq<char>)> {
    let n = t.nodes@[p];
    let ty = text_or(t, field_child(t, p, "type"@), "unknown"@);
    if python {
        if n.kind@ == "identifier"@ || n.kind@ == "list_splat_pattern"@
            || n.kind@ == "dictionary_splat_pattern"@ {
            Some((n.text@, "unknown"@))
        } else if n.kind@ == "typed_parameter"@ {
            Some((text_or(t, first_named_child(t, p), "<?>"@), ty))
        } else if n.kind@ == "default_parameter"@ || n.kind@ == "typed_default_parameter"@ {
            Some((text_or(t, field_child(t, p, "name"@), "<?>"@), ty))
        } else {
            None
        }
    } else {
        match field_child(t, p, "pattern"@) {
            Some(q) => Some((t.nodes@[q].text@, ty)),
            None => None,
        }
    }
}

/// The parameters among the first `k` children of the parameter list `ps`.
pub open spec fn params_from(t: SyntaxTree, ps: int, k: int, python: bool) -> Seq<(Seq<char>, Seq<char>)>
    decreases k,
{
    if 0 < k <= t.nodes@[ps].children@.len() {
        let rest = params_from(t, ps, k - 1, python);
        match param_entry(t, t.child(ps, k - 1), python) {
            Some(e) => rest.push(e),
            None => rest,
        }
    } else {
        Seq::empty()
    }
}

/// The parameters of declaration `i`, from its `parameters` field.
pub open spec fn params_of(t: SyntaxTree, i: int, python: bool) -> Seq<(Seq<char>, Seq<char>)> {
    match field_child(t, i, "parameters"@) {
        Some(ps) => params_from(t, ps, t.nodes@[ps].children@.len() as int, python),
        None => Seq::empty(),
    }
}

/// `inputs` and `input_types` hold the names and types of `params`, in order.
pub open spec fn params_match(
    inputs: Seq<String>,
    input_types: Seq<String>,
    params: Seq<(Seq<char>, Seq<char>)>,
) -> bool {
    &&& inputs.len() == params.len()
    &&& input_types.len() == params.len()
    &&& forall|j: int|
        0 <= j < params.len() ==> (#[trigger] inputs[j])@ == params[j].0 && input_types[j]@ == params[j].1
}

/// The record extracted for declaration `i` of `t` in `file`.
pub open spec fn symbol_of(
    s: Symbol,
    t: SyntaxTree,
    i: int,
    file: Seq<char>,
    kind: Seq<char>,
    params: Seq<(Seq<char>, Seq<char>)>,
    output: Seq<char>,
    doc: Option<Seq<char>>,
) -> bool {
    &&& s.kind@ == kind
    &&& s.name@ == text_or(t, field_child(t, i, "name"@), "<?>"@)
    &&& s.file@ == file
    &&& params_match(s.inputs@, s.input_types@, params)
    &&& s.output@ == output
    &&& strictly_sorted(views(s.calls@))
    &&& forall|n: Seq<char>| #[trigger] views(s.calls@).contains(n) <==> calls_under(t, i).contains(n)
    &&& s.custom_calls@.len() == 0
    &&& s.lang_calls@.len() == 0
    &&& s.called_by@.len() == 0
    &&& opt_view(s.doc) == doc
    &&& s.line_start == t.nodes@[i].start_row + 1
    &&& s.line_end == t.nodes@[i].end_row + 1
}

/// A Python docstring: a string literal that is the first statement of the
/// body, without its quotes.
pub open spec fn python_doc_of(t: SyntaxTree, i: int) -> Option<Seq<char>> {
    match field_child(t, i, "body"@) {
        None => None,
        Some(b) => match first_named_child(t, b) {
            None => None,
            Some(f) => if t.nodes@[f].kind@ == "expression_statement"@ {
                match first_named_child(t, f) {
                    Some(s) => if t.nodes@[s].kind@ == "string"@ {
                        Some(trim_quotes(t.nodes@[s].text@))
                    } else {
                        None
                    },
                    None => None,
                }
            } else {
                None
            },
        },
    }
}

/// The docstring of the Python function or class at node `i`.
pub fn python_doc(t: &SyntaxTree, i: usize) -> (r: Option<String>)
    requires
        t.wf(),
        i < t.nodes@.len(),
    ensures
        opt_view(r) == python_doc_of(*t, i as int),
{
    let body = match child_by_field(t, i, "body") {
        Some(b) => b,
        None => return None,
    };
    let first = match named_child(t, body) {
        Some(f) => f,
        None => return None,
    };
    if !str_eq(t.nodes[first].kind.as_str(), "expression_statement") {
        return None;
    }
    let s = match named_child(t, first) {
        Some(s) => s,
        None => return None,
    };
    if !str_eq(t.nodes[s].kind.as_str(), "string") {
        return None;
    }
    Some(strip_quotes(t.nodes[s].text.as_str()))
}

fn parameters(t: &SyntaxTree, i: usize, python: bool) -> (r: (Vec<String>, Vec<String>))
    requires
        t.wf(),
        i < t.nodes@.len(),
    ensures
        params_match(r.0@, r.1@, params_of(*t, i as int, python)),
{
    let mut inputs: Vec<String> = Vec::new();
    let mut types: Vec<String> = Vec::new();
    let ps = match child_by_field(t, i, "parameters") {
        Some(ps) => ps,
        None => {
            assert(params_match(inputs@, types@, params_of(*t, i as int, python)));
            return (inputs, types);
        },
    };
    let nc = t.nodes[ps].children.len();
    let mut k: usize = 0;
    while k < nc
        invariant
            t.wf(),
            ps < t.nodes@.len(),
            field_child(*t, i as int, "parameters"@) == Some(ps as int),
            nc == t.nodes@[ps as int].children@.len(),
            k <= nc,
            inputs@.len() == params_from(*t, ps as int, k as int, python).len(),
            types@.len() == inputs@.len(),
            forall|j: int|
                0 <= j < inputs@.len() ==> (#[trigger] inputs@[j])@ == params_from(*t, ps as int, k as int, python)[j].0
                    && types@[j]@ == params_from(*t, ps as int, k as int, python)[j].1,
        decreases nc - k,
    {
        let p = t.nodes[ps].children[k];
        assert(p < t.nodes@.len());
        let ghost prev_in = inputs@;
        let ghost prev_ty = types@;
        let ghost prev = params_from(*t, ps as int, k as int, python);
        if python {
            let kind = t.nodes[p].kind.as_str();
            if str_eq(kind, "identifier") || str_eq(kind, "list_splat_pattern") || str_eq(
                kind,
                "dictionary_splat_pattern",
            ) {
                inputs.push(t.nodes[p].text.clone());
                types.push(String::from_str("unknown"));
            } else if str_eq(kind, "typed_parameter") {
                inputs.push(node_text_or(t, named_child(t, p), "<?>"));
                types.push(node_text_or(t, child_by_field(t, p, "type"), "unknown"));
            } else if str_eq(kind, "default_parameter") || str_eq(kind, "typed_default_parameter") {
                inputs.push(node_text_or(t, child_by_field(t, p, "name"), "<?>"));
                types.push(node_text_or(t, child_by_field(t, p, "type"), "unknown"));
            }
        } else {
            match child_by_field(t, p, "pattern") {
                Some(q) => {
                    inputs.push(t.nodes[q].text.clone());
                    types.push(node_text_or(t, child_by_field(t, p, "type"), "unknown"));
                },
                None => {},
            }
        }
        proof {
            let next = params_from(*t, ps as int, k as int + 1, python);
            assert(t.child(ps as int, k as int) == p as int);
            match param_entry(*t, p as int, python) {
                Some(e) => {
                    assert(next == prev.push(e));
                    assert(inputs@ == prev_in.push(inputs@.last()));
                },
                None => {
                    assert(next == prev);
                },
            }
            assert forall|j: int| 0 <= j < inputs@.len() implies (#[trigger] inputs@[j])@ == next[j].0
                && types@[j]@ == next[j].1 by {
                if j < prev_in.len() {
                    assert(inputs@[j] == prev_in[j]);
                    assert(types@[j] == prev_ty[j]);
                }
            }
        }
        k = k + 1;
    }
    assert(params_match(inputs@, types@, params_from(*t, ps as int, k as int, python)));
    assert(params_of(*t, i as int, python) == params_from(*t, ps as int, nc as int, python));
    (inputs, types)
}

fn calls_of(t: &SyntaxTree, i: usize) -> (r: Vec<String>)
    requires
        t.wf(),
        i < t.nodes@.len(),
    ensures
        strictly_sorted(views(r@)),
        forall|n: Seq<char>| #[trigger] views(r@).contains(n) <==> calls_under(*t, i as int).contains(n),
{
    let mut out: Vec<String> = Vec::new();
    collect_calls(t, i, &mut out);
    out
}

/// The record of the Python function at node `i`.
pub fn extract_python_fn(t: &SyntaxTree, i: usize, file: &str) -> (s: Symbol)
    requires
        t.wf(),
        i < t.nodes@.len(),
    ensures
        symbol_of(
            s,
            *t,
            i as int,
            file@,
            "function"@,
            params_of(*t, i as int, true),
            text_or(*t, field_child(*t, i as int, "return_type"@), "unknown"@),
            python_doc_of(*t, i as int),
        ),
{
    let (inputs, input_types) = parameters(t, i, true);
    Symbol {
        kind: String::from_str("function"),
        name: node_text_or(t, child_by_field(t, i, "name"), "<?>"),
        file: String::from_str(file),
        inputs,
        input_types,
        output: node_text_or(t, child_by_field(t, i, "return_type"), "unknown"),
        calls: calls_of(t, i),
        custom_calls: Vec::new(),
        lang_calls: Vec::new(),
        called_by: Vec::new(),
        doc: python_doc(t, i),
        line_start: t.nodes[i].start_row + 1,
        line_end: t.nodes[i].end_row + 1,
    }
}

/// The record of the Python class at node `i`.
pub fn extract_python_class(t: &SyntaxTree, i: usize, file: &str) -> (s: Symbol)
    requires
        t.wf(),
        i < t.nodes@.len(),
    ensures
        symbol_of(
            s,
            *t,
            i as int,
            file@,
            "class"@,
            Seq::empty(),
            "unknown"@,
            python_doc_of(*t, i as int),
        ),
{
    Symbol {
        kind: String::from_str("class"),
        name: node_text_or(t, child_by_field(t, i, "name"), "<?>"),
        file: String::from_str(file),
        inputs: Vec::new(),
        input_types: Vec::new(),
        output: String::from_str("unknown"),
        calls: calls_of(t, i),
        custom_calls: Vec::new(),
        lang_calls: Vec::new(),
        called_by: Vec::new(),
        doc: python_doc(t, i),
        line_start: t.nodes[i].start_row + 1,
        line_end: t.nodes[i].end_row + 1,
    }
}

/// A `///` line comment (not a `////` one, which Rust does not read as doc).
pub open spec fn is_doc_comment(n: SyntaxNode) -> bool {
    &&& n.kind@ == "line_comment"@
    &&& n.text@.len() >= 3
    &&& n.text@.subrange(0, 3) == "///"@
    &&& (n.text@.len() == 3 || n.text@[3] != '/')
}

/// The text of a doc comment after its `///`, trimmed.
pub open spec fn doc_line(n: SyntaxNode) -> Seq<char> {
    trimmed(n.text@.subrange(3, n.text@.len() as int))
}

/// The run of doc comments among the root's children that ends just before
/// position `k`, in source order.
pub open spec fn doc_lines(t: SyntaxTree, k: int) -> Seq<Seq<char>>
    decreases k,
{
    if t.nodes@.len() > 0 && 0 < k <= t.nodes@[0].children@.len() && is_doc_comment(
        t.nodes@[t.child(0, k - 1)],
    ) {
        doc_lines(t, k - 1).push(doc_line(t.nodes@[t.child(0, k - 1)]))
    } else {
        Seq::empty()
    }
}

/// Lines joined by `\n`.
pub open spec fn join_lines(s: Seq<Seq<char>>) -> Seq<char>
    decreases s.len(),
{
    if s.len() == 0 {
        Seq::empty()
    } else if s.len() == 1 {
        s[0]
    } else {
        join_lines(s.drop_last()) + "\n"@ + s.last()
    }
}

/// The documentation of the Rust item at root position `k`: the doc comment
/// lines right before it, joined, or none where there are none.
pub open spec fn rust_doc_of(t: SyntaxTree, k: int) -> Option<Seq<char>> {
    let lines = doc_lines(t, k);
    if lines.len() == 0 {
        None
    } else {
        Some(join_lines(lines))
    }
}

fn doc_comment(n: &SyntaxNode) -> (r: bool)
    ensures
        r == is_doc_comment(*n),
{
    if !str_eq(n.kind.as_str(), "line_comment") {
        return false;
    }
    let text = n.text.as_str();
    let len = text.unicode_len();
    len >= 3 && str_eq(text.substring_char(0, 3), "///") && (len == 3 || text.get_char(3) != '/')
}

/// The doc comment lines right before the Rust item at root position `k`.
pub fn rust_doc(t: &SyntaxTree, k: usize) -> (r: Option<String>)
    requires
        t.wf(),
        t.nodes@.len() > 0,
        k <= t.nodes@[0].children@.len(),
    ensures
        opt_view(r) == rust_doc_of(*t, k as int),
{
    let mut m: usize = k;
    let mut done = false;
    let ghost mut acc: Seq<Seq<char>> = Seq::empty();
    while !done && m > 0
        invariant
            t.wf(),
            t.nodes@.len() > 0,
            m <= k <= t.nodes@[0].children@.len(),
            doc_lines(*t, k as int) == doc_lines(*t, m as int) + acc,
            acc.len() == k - m,
            forall|q: int| 0 <= q < acc.len() ==> #[trigger] acc[q] == doc_line(t.nodes@[t.child(0, m + q)]),
            forall|q: int| m <= q < k ==> is_doc_comment(#[trigger] t.nodes@[t.child(0, q)]),
            done ==> doc_lines(*t, m as int).len() == 0,
        decreases m + (if done { 0int } else { 1int }),
    {
        let c = t.nodes[0].children[m - 1];
        assert(c < t.nodes@.len());
        if doc_comment(&t.nodes[c]) {
            let ghost old_acc = acc;
            proof {
                let line = doc_line(t.nodes@[c as int]);
                assert(doc_lines(*t, m as int) == doc_lines(*t, m - 1).push(line));
                assert(doc_lines(*t, m - 1) + seq![line].add(acc) =~= doc_lines(*t, m as int) + acc);
                acc = seq![line].add(acc);
            }
            m = m - 1;
            proof {
                assert(t.child(0, m as int) == c as int);
                assert(is_doc_comment(t.nodes@[t.child(0, m as int)]));
                assert forall|q: int| 0 <= q < acc.len() implies #[trigger] acc[q] == doc_line(t.nodes@[t.child(0, m + q)]) by {
                    if q == 0 {
                        assert(t.child(0, m as int) == c as int);
                        assert(acc[0] == doc_line(t.nodes@[c as int]));
                    } else {
                        assert(acc[q] == old_acc[q - 1]);
                        assert(m + q == (m + 1) + (q - 1));
                    }
                }
            }
        } else {
            done = true;
        }
    }
    assert(doc_lines(*t, m as int) =~= Seq::<Seq<char>>::empty());
    assert(doc_lines(*t, k as int) =~= acc);
    if m == k {
        return None;
    }
    let mut out = String::new();
    let mut j: usize = m;
    while j < k
        invariant
            t.wf(),
            t.nodes@.len() > 0,
            m < k <= t.nodes@[0].children@.len(),
            m <= j <= k,
            acc.len() == k - m,
            forall|q: int| 0 <= q < acc.len() ==> #[trigger] acc[q] == doc_line(t.nodes@[t.child(0, m + q)])
                && is_doc_comment(t.nodes@[t.child(0, m + q)]),
            out@ == join_lines(acc.subrange(0, j - m)),
        decreases k - j,
    {
        let c = t.nodes[0].children[j];
        assert(c < t.nodes@.len());
        assert(acc[j - m] == doc_line(t.nodes@[t.child(0, m + (j - m))]));
        assert(is_doc_comment(t.nodes@[c as int]));
        let text = t.nodes[c].text.as_str();
        let line = trim_space(text.substring_char(3, text.unicode_len()));
        assert(line@ == acc[j - m]);
        let ghost pre = acc.subrange(0, j - m);
        let ghost post = acc.subrange(0, j - m + 1);
        assert(post.drop_last() =~= pre);
        if j > m {
            out.append("\n");
            out.append(line.as_str());
            proof { reveal_strlit("\n"); }
        } else {
            out = line;
        }
        j = j + 1;
    }
    assert(acc.subrange(0, k - m) =~= acc);
    Some(out)
}

/// Python's top-level declarations: functions and classes.
pub open spec fn is_python_decl(kind: Seq<char>) -> bool {
    kind == "function_definition"@ || kind == "class_definition"@
}

/// The declaration that root child `c` holds: itself, or the definition that
/// its decorators wrap.
pub open spec fn python_decl_node(t: SyntaxTree, c: int) -> Option<int> {
    if is_python_decl(t.nodes@[c].kind@) {
        Some(c)
    } else if t.nodes@[c].kind@ == "decorated_definition"@ {
        match field_child(t, c, "definition"@) {
            Some(d) => if is_python_decl(t.nodes@[d].kind@) {
                Some(d)
            } else {
                None
            },
            None => None,
        }
    } else {
        None
    }
}

/// Rust's top-level type declarations, indexed as classes.
pub open spec fn is_rust_type_decl(kind: Seq<char>) -> bool {
    kind == "struct_item"@ || kind == "enum_item"@ || kind == "union_item"@ || kind == "trait_item"@
        || kind == "type_item"@
}

/// Root child `c` is a declaration that extraction indexes.
pub open spec fn is_decl_at(t: SyntaxTree, c: int, python: bool) -> bool {
    if python {
        python_decl_node(t, c) is Some
    } else {
        t.nodes@[c].kind@ == "function_item"@ || is_rust_type_decl(t.nodes@[c].kind@)
    }
}

/// The root positions, among the first `k` children of the root, of the
/// declarations that extraction indexes.
pub open spec fn decls_from(t: SyntaxTree, k: int, python: bool) -> Seq<int>
    decreases k,
{
    if t.nodes@.len() > 0 && 0 < k <= t.nodes@[0].children@.len() {
        let rest = decls_from(t, k - 1, python);
        if is_decl_at(t, t.child(0, k - 1), python) {
            rest.push(k - 1)
        } else {
            rest
        }
    } else {
        Seq::empty()
    }
}

/// The root positions of all indexed declarations.
pub open spec fn top_decls(t: SyntaxTree, python: bool) -> Seq<int> {
    if t.nodes@.len() > 0 {
        decls_from(t, t.nodes@[0].children@.len() as int, python)
    } else {
        Seq::empty()
    }
}

/// The record of the Python declaration at root position `k`.
pub open spec fn python_symbol(s: Symbol, t: SyntaxTree, file: Seq<char>, k: int) -> bool {
    let c = python_decl_node(t, t.child(0, k))->0;
    if t.nodes@[c].kind@ == "function_definition"@ {
        symbol_of(
            s,
            t,
            c,
            file,
            "function"@,
            params_of(t, c, true),
            text_or(t, field_child(t, c, "return_type"@), "unknown"@),
            python_doc_of(t, c),
        )
    } else {
        symbol_of(s, t, c, file, "class"@, Seq::empty(), "unknown"@, python_doc_of(t, c))
    }
}

/// The record of the Rust function or type at root position `k`.
pub open spec fn rust_symbol(s: Symbol, t: SyntaxTree, file: Seq<char>, k: int) -> bool {
    let c = t.child(0, k);
    if t.nodes@[c].kind@ == "function_item"@ {
        symbol_of(
            s,
            t,
            c,
            file,
            "function"@,
            params_of(t, c, false),
            text_or(t, field_child(t, c, "return_type"@), "unknown"@),
            rust_doc_of(t, k),
        )
    } else {
        symbol_of(s, t, c, file, "class"@, Seq::empty(), "unknown"@, rust_doc_of(t, k))
    }
}

fn python_decl(t: &SyntaxTree, c: usize) -> (r: Option<usize>)
    requires
        t.wf(),
        c < t.nodes@.len(),
    ensures
        r matches Some(d) ==> python_decl_node(*t, c as int) == Some(d as int) && d < t.nodes@.len(),
        r is None ==> python_decl_node(*t, c as int) is None,
{
    let kind = t.nodes[c].kind.as_str();
    if str_eq(kind, "function_definition") || str_eq(kind, "class_definition") {
        return Some(c);
    }
    if !str_eq(kind, "decorated_definition") {
        return None;
    }
    match child_by_field(t, c, "definition") {
        Some(d) => {
            let dk = t.nodes[d].kind.as_str();
            if str_eq(dk, "function_definition") || str_eq(dk, "class_definition") {
                Some(d)
            } else {
                None
            }
        },
        None => None,
    }
}

fn rust_type_decl(kind: &str) -> (r: bool)
    ensures
        r == is_rust_type_decl(kind@),
{
    str_eq(kind, "struct_item") || str_eq(kind, "enum_item") || str_eq(kind, "union_item") || str_eq(
        kind,
        "trait_item",
    ) || str_eq(kind, "type_item")
}

/// The record of each top-level declaration, in order.
pub open spec fn extracted(out: Seq<Symbol>, t: SyntaxTree, file: Seq<char>, python: bool) -> bool {
    let d = top_decls(t, python);
    &&& out.len() == d.len()
    &&& forall|j: int|
        0 <= j < d.len() ==> if python {
            python_symbol(#[trigger] out[j], t, file, d[j])
        } else {
            rust_symbol(out[j], t, file, d[j])
        }
}

fn extract_top(t: &SyntaxTree, file: &str, python: bool) -> (r: Vec<Symbol>)
    requires
        t.wf(),
    ensures
        extracted(r@, *t, file@, python),
{
    let mut out: Vec<Symbol> = Vec::new();
    if t.nodes.len() == 0 {
        return out;
    }
    let n = t.nodes[0].children.len();
    let mut k: usize = 0;
    while k < n
        invariant
            t.wf(),
            t.nodes@.len() > 0,
            n == t.nodes@[0].children@.len(),
            k <= n,
            out@.len() == decls_from(*t, k as int, python).len(),
            forall|j: int|
                0 <= j < out@.len() ==> if python {
                    python_symbol(#[trigger] out@[j], *t, file@, decls_from(*t, k as int, python)[j])
                } else {
                    rust_symbol(out@[j], *t, file@, decls_from(*t, k as int, python)[j])
                },
        decreases n - k,
    {
        let c = t.nodes[0].children[k];
        assert(0 < c < t.nodes@.len());
        let kind = t.nodes[c].kind.as_str();
        if python {
            match python_decl(t, c) {
                Some(d) => {
                    if str_eq(t.nodes[d].kind.as_str(), "function_definition") {
                        out.push(extract_python_fn(t, d, file));
                    } else {
                        out.push(extract_python_class(t, d, file));
                    }
                },
                None => {},
            }
        } else if str_eq(kind, "function_item") {
            let (inputs, input_types) = parameters(t, c, false);
            out.push(Symbol {
                kind: String::from_str("function"),
                name: node_text_or(t, child_by_field(t, c, "name"), "<?>"),
                file: String::from_str(file),
                inputs,
                input_types,
                output: node_text_or(t, child_by_field(t, c, "return_type"), "unknown"),
                calls: calls_of(t, c),
                custom_calls: Vec::new(),
                lang_calls: Vec::new(),
                called_by: Vec::new(),
                doc: rust_doc(t, k),
                line_start: t.nodes[c].start_row + 1,
                line_end: t.nodes[c].end_row + 1,
            });
        } else if rust_type_decl(kind) {
            out.push(Symbol {
                kind: String::from_str("class"),
                name: node_text_or(t, child_by_field(t, c, "name"), "<?>"),
                file: String::from_str(file),
                inputs: Vec::new(),
                input_types: Vec::new(),
                output: String::from_str("unknown"),
                calls: calls_of(t, c),
                custom_calls: Vec::new(),
                lang_calls: Vec::new(),
                called_by: Vec::new(),
                doc: rust_doc(t, k),
                line_start: t.nodes[c].start_row + 1,
                line_end: t.nodes[c].end_row + 1,
            });
        }
        k = k + 1;
    }
    out
}

/// Appends to `out` the records of the top-level functions and classes of a
/// Python parse tree, decorated ones included.
pub fn extract_python(t: &SyntaxTree, file: &str, out: &mut Vec<Symbol>)
    requires
        t.wf(),
    ensures
        final(out)@.len() >= old(out)@.len(),
        final(out)@.subrange(0, old(out)@.len() as int) == old(out)@,
        extracted(final(out)@.subrange(old(out)@.len() as int, final(out)@.len() as int), *t, file@, true),
{
    let mut found = extract_top(t, file, true);
    let ghost pre = out@;
    let ghost add = found@;
    out.append(&mut found);
    assert(out@.subrange(0, pre.len() as int) =~= pre);
    assert(out@.subrange(pre.len() as int, out@.len() as int) =~= add);
}

/// Appends to `out` the records of the top-level functions and type
/// declarations (structs, enums, unions, traits, type aliases) of a Rust parse
/// tree.
pub fn extract_rust(t: &SyntaxTree, file: &str, out: &mut Vec<Symbol>)
    requires
        t.wf(),
    ensures
        final(out)@.len() >= old(out)@.len(),
        final(out)@.subrange(0, old(out)@.len() as int) == old(out)@,
        extracted(final(out)@.subrange(old(out)@.len() as int, final(out)@.len() as int), *t, file@, false),
{
    let mut found = extract_top(t, file, false);
    let ghost pre = out@;
    let ghost add = found@;
    out.append(&mut found);
    assert(out@.subrange(0, pre.len() as int) =~= pre);
    assert(out@.subrange(pre.len() as int, out@.len() as int) =~= add);
}

} // verus!
