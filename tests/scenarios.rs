use repo_index::extract::{extract_python, extract_rust, rust_doc, python_doc, strip_quotes};
use repo_index::index::{build_context, check_tree, incremental_update, SourceFile};
use repo_index::model::{Context, Symbol};
use repo_index::resolve::finalize_calls;
use repo_index::snapshot::fingerprint;
use repo_index::sync::{fingerprints_unique, may_sync, plan_sync, Fingerprint};
use repo_index::tree::{SyntaxNode, SyntaxTree};

struct Builder {
    nodes: Vec<SyntaxNode>,
}

impl Builder {
    fn new(kind: &str, text: &str, rows: (usize, usize)) -> Builder {
        let mut b = Builder { nodes: Vec::new() };
        b.push(None, kind, None, true, text, rows);
        b
    }

    fn push(
        &mut self,
        parent: Option<usize>,
        kind: &str,
        field: Option<&str>,
        named: bool,
        text: &str,
        rows: (usize, usize),
    ) -> usize {
        let id = self.nodes.len();
        self.nodes.push(SyntaxNode {
            kind: kind.to_string(),
            field: field.map(|f| f.to_string()),
            named,
            text: text.to_string(),
            start_row: rows.0,
            end_row: rows.1,
            children: Vec::new(),
        });
        if let Some(p) = parent {
            self.nodes[p].children.push(id);
        }
        id
    }

    fn add(&mut self, parent: usize, kind: &str, field: Option<&str>, text: &str, row: usize) -> usize {
        self.push(Some(parent), kind, field, true, text, (row, row))
    }

    fn done(self) -> SyntaxTree {
        SyntaxTree { nodes: self.nodes }
    }
}

/// `def helper(): pass` and `def main(): helper()`, shaped as the Python
/// grammar parses them.
fn python_a() -> SyntaxTree {
    let mut b = Builder::new("module", "def helper(): pass\ndef main(): helper()\n", (0, 2));
    let f = b.add(0, "function_definition", None, "def helper(): pass", 0);
    b.push(Some(f), "def", None, false, "def", (0, 0));
    b.add(f, "identifier", Some("name"), "helper", 0);
    b.add(f, "parameters", Some("parameters"), "()", 0);
    b.push(Some(f), ":", None, false, ":", (0, 0));
    let body = b.add(f, "block", Some("body"), "pass", 0);
    b.add(body, "pass_statement", None, "pass", 0);
    let m = b.add(0, "function_definition", None, "def main(): helper()", 1);
    b.push(Some(m), "def", None, false, "def", (1, 1));
    b.add(m, "identifier", Some("name"), "main", 1);
    b.add(m, "parameters", Some("parameters"), "()", 1);
    let body = b.add(m, "block", Some("body"), "helper()", 1);
    let st = b.add(body, "expression_statement", None, "helper()", 1);
    let call = b.add(st, "call", None, "helper()", 1);
    b.add(call, "identifier", Some("function"), "helper", 1);
    b.add(call, "argument_list", Some("arguments"), "()", 1);
    b.done()
}

/// `/// Entry point.` then `fn run(x: i32) -> i32 { main(); foo::bar(x) }`,
/// optionally without the call of `main`.
fn rust_b(calls_main: bool) -> SyntaxTree {
    let mut b = Builder::new("source_file", "", (0, 2));
    b.add(0, "line_comment", None, "/// Entry point.", 0);
    let f = b.push(Some(0), "function_item", None, true, "fn run", (1, 3));
    b.add(f, "identifier", Some("name"), "run", 1);
    let ps = b.add(f, "parameters", Some("parameters"), "(x: i32)", 1);
    let p = b.add(ps, "parameter", None, "x: i32", 1);
    b.add(p, "identifier", Some("pattern"), "x", 1);
    b.add(p, "primitive_type", Some("type"), "i32", 1);
    b.add(f, "primitive_type", Some("return_type"), "i32", 1);
    let body = b.push(Some(f), "block", Some("body"), true, "{ }", (1, 3));
    if calls_main {
        let st = b.add(body, "expression_statement", None, "main();", 2);
        let c = b.add(st, "call_expression", None, "main()", 2);
        b.add(c, "identifier", Some("function"), "main", 2);
        b.add(c, "arguments", Some("arguments"), "()", 2);
    }
    let c = b.add(body, "call_expression", None, "foo::bar(x)", 3);
    b.add(c, "scoped_identifier", Some("function"), "foo::bar", 3);
    b.add(c, "arguments", Some("arguments"), "(x)", 3);
    b.done()
}

fn strings(v: &[&str]) -> Vec<String> {
    v.iter().map(|s| s.to_string()).collect()
}

fn find<'a>(ctx: &'a Context, name: &str) -> &'a Symbol {
    ctx.symbols.iter().find(|s| s.name == name).unwrap()
}

fn source(path: &str, text: &str, tree: SyntaxTree) -> SourceFile {
    SourceFile { path: path.to_string(), text: text.to_string(), bytes: text.len() as u64, tree: Some(tree) }
}

fn fp(path: &str, content: &str) -> Fingerprint {
    Fingerprint { path: path.to_string(), hash: fingerprint(&content.as_bytes().to_vec()) }
}

fn stats() -> repo_index::model::RepoStats {
    repo_index::model::RepoStats { file_count: 2, total_bytes: 10, total_lines: 4 }
}

#[test]
fn helper_and_main_resolve() {
    let mut symbols = Vec::new();
    extract_python(&python_a(), "a.py", &mut symbols);
    assert_eq!(symbols.len(), 2);
    finalize_calls(&mut symbols);
    let ctx = Context { stats: stats(), files: Vec::new(), symbols };
    let main = find(&ctx, "main");
    let helper = find(&ctx, "helper");
    assert_eq!(main.custom_calls, strings(&["helper"]));
    assert_eq!(helper.called_by, strings(&["main"]));
    assert!(helper.lang_calls.is_empty());
    assert!(helper.custom_calls.is_empty());
    assert_eq!(main.line_start, 2);
    assert_eq!(main.line_end, 2);
    assert_eq!(main.kind, "function");
    assert_eq!(main.output, "unknown");
}

#[test]
fn rust_function_record() {
    let t = rust_b(true);
    assert!(check_tree(&t));
    let mut out = Vec::new();
    extract_rust(&t, "b.rs", &mut out);
    assert_eq!(out.len(), 1);
    let run = &out[0];
    assert_eq!(run.name, "run");
    assert_eq!(run.inputs, strings(&["x"]));
    assert_eq!(run.input_types, strings(&["i32"]));
    assert_eq!(run.output, "i32");
    assert_eq!(run.calls, strings(&["bar", "main"]));
    assert_eq!(run.doc, Some("Entry point.".to_string()));
    assert_eq!((run.line_start, run.line_end), (2, 4));
    assert_eq!(rust_doc(&t, 0), None);
}

#[test]
fn cross_file_calls_partition() {
    let ctx = build_context(
        stats(),
        &vec![source("a.py", "a", python_a()), source("b.rs", "b", rust_b(true))],
    );
    assert_eq!(ctx.files.len(), 2);
    let run = find(&ctx, "run");
    assert_eq!(run.custom_calls, strings(&["main"]));
    assert_eq!(run.lang_calls, strings(&["bar"]));
    assert_eq!(find(&ctx, "main").called_by, strings(&["run"]));
    for s in &ctx.symbols {
        for c in &s.calls {
            assert!(s.custom_calls.contains(c) != s.lang_calls.contains(c));
        }
        assert_eq!(s.custom_calls.len() + s.lang_calls.len(), s.calls.len());
    }
    for s in &ctx.symbols {
        for t in &ctx.symbols {
            assert_eq!(t.custom_calls.contains(&s.name), s.called_by.contains(&t.name));
        }
    }
}

#[test]
fn editing_one_file_keeps_the_other() {
    let mut ctx = build_context(
        stats(),
        &vec![source("a.py", "a", python_a()), source("b.rs", "b1", rust_b(true))],
    );
    let before: Vec<(usize, usize)> =
        ctx.symbols.iter().filter(|s| s.file == "a.py").map(|s| (s.line_start, s.line_end)).collect();
    let old = vec![fp("a.py", "a"), fp("b.rs", "b1")];
    let new = vec![fp("a.py", "a"), fp("b.rs", "b2")];
    let plan = plan_sync(&old, &new);
    assert_eq!(plan.changed, strings(&["b.rs"]));
    assert!(plan.removed.is_empty());
    incremental_update(&mut ctx, &plan, &vec![source("b.rs", "b2", rust_b(false))]);
    let after: Vec<(usize, usize)> =
        ctx.symbols.iter().filter(|s| s.file == "a.py").map(|s| (s.line_start, s.line_end)).collect();
    assert_eq!(before, after);
    assert!(ctx.files.iter().any(|f| f.path == "a.py"));
    assert_eq!(find(&ctx, "run").calls, strings(&["bar"]));
    assert!(find(&ctx, "main").called_by.is_empty());
}

#[test]
fn deleting_a_file_drops_its_callers() {
    let mut ctx = build_context(
        stats(),
        &vec![source("a.py", "a", python_a()), source("b.rs", "b", rust_b(true))],
    );
    let mut b = Builder::new("source_file", "", (0, 0));
    let f = b.add(0, "function_item", None, "fn main() { run() }", 0);
    b.add(f, "identifier", Some("name"), "main", 0);
    let body = b.add(f, "block", Some("body"), "{ run() }", 0);
    let c = b.add(body, "call_expression", None, "run()", 0);
    b.add(c, "identifier", Some("function"), "run", 0);
    let mut other = ctx.clone();
    incremental_update(
        &mut other,
        &plan_sync(&vec![], &vec![fp("c.rs", "c")]),
        &vec![source("c.rs", "c", b.done())],
    );
    assert_eq!(find(&other, "run").called_by, strings(&["main"]));
    let old = vec![fp("a.py", "a"), fp("b.rs", "b")];
    let new = vec![fp("b.rs", "b")];
    let plan = plan_sync(&old, &new);
    assert_eq!(plan.removed, strings(&["a.py"]));
    assert!(plan.changed.is_empty());
    let mut with_main = build_context(
        stats(),
        &vec![source("a.py", "a", python_a()), source("b.rs", "b", rust_b(true))],
    );
    let mut a_calls_run = Builder::new("module", "", (0, 0));
    let g = a_calls_run.add(0, "function_definition", None, "def go(): run()", 0);
    a_calls_run.add(g, "identifier", Some("name"), "go", 0);
    let body = a_calls_run.add(g, "block", Some("body"), "run()", 0);
    let st = a_calls_run.add(body, "expression_statement", None, "run()", 0);
    let call = a_calls_run.add(st, "call", None, "run()", 0);
    a_calls_run.add(call, "identifier", Some("function"), "run", 0);
    incremental_update(
        &mut with_main,
        &plan_sync(&vec![fp("a.py", "a")], &vec![fp("a.py", "a2")]),
        &vec![source("a.py", "a2", a_calls_run.done())],
    );
    assert_eq!(find(&with_main, "run").called_by, strings(&["go"]));
    incremental_update(&mut with_main, &plan, &vec![]);
    assert!(with_main.symbols.iter().all(|s| s.file != "a.py"));
    assert!(with_main.files.iter().all(|f| f.path != "a.py"));
    assert!(find(&with_main, "run").called_by.is_empty());
    incremental_update(&mut ctx, &plan, &vec![]);
    assert_eq!(ctx.symbols.len(), 1);
    assert_eq!(ctx.files.len(), 1);
}

#[test]
fn second_run_changes_nothing() {
    let sources = vec![source("a.py", "a", python_a()), source("b.rs", "b", rust_b(true))];
    let ctx = build_context(stats(), &sources);
    let hashes = vec![fp("a.py", "a"), fp("b.rs", "b")];
    let plan = plan_sync(&hashes, &hashes);
    assert!(plan.changed.is_empty() && plan.removed.is_empty());
    let mut again = ctx.clone();
    incremental_update(&mut again, &plan, &vec![]);
    assert_eq!(again, ctx);
}

#[test]
fn sync_matches_full_rebuild() {
    let mut ctx = build_context(
        stats(),
        &vec![source("a.py", "a", python_a()), source("b.rs", "b1", rust_b(true))],
    );
    let plan = plan_sync(&vec![fp("a.py", "a"), fp("b.rs", "b1")], &vec![fp("b.rs", "b2")]);
    incremental_update(&mut ctx, &plan, &vec![source("b.rs", "b2", rust_b(false))]);
    let full = build_context(stats(), &vec![source("b.rs", "b2", rust_b(false))]);
    assert_eq!(ctx.files, full.files);
    assert_eq!(ctx.symbols, full.symbols);
}

#[test]
fn docstring_without_quotes() {
    let mut b = Builder::new("module", "", (0, 1));
    let c = b.add(0, "class_definition", None, "class K: \"\"\"Doc.\"\"\"", 0);
    b.add(c, "identifier", Some("name"), "K", 0);
    let body = b.add(c, "block", Some("body"), "\"\"\"Doc.\"\"\"", 1);
    let st = b.add(body, "expression_statement", None, "\"\"\"Doc.\"\"\"", 1);
    b.add(st, "string", None, "\"\"\"Doc.\"\"\"", 1);
    let t = b.done();
    assert_eq!(python_doc(&t, c), Some("Doc.".to_string()));
    let mut out = Vec::new();
    extract_python(&t, "k.py", &mut out);
    assert_eq!(out[0].kind, "class");
    assert_eq!(out[0].doc, Some("Doc.".to_string()));
    assert_eq!(strip_quotes("'x'"), "x");
    assert_eq!(strip_quotes("\"\""), "");
}

#[test]
fn typed_and_untyped_python_params() {
    let mut b = Builder::new("module", "", (0, 0));
    let f = b.add(0, "function_definition", None, "def f(a, b: int) -> str: pass", 0);
    b.add(f, "identifier", Some("name"), "f", 0);
    let ps = b.add(f, "parameters", Some("parameters"), "(a, b: int)", 0);
    b.add(ps, "identifier", None, "a", 0);
    b.push(Some(ps), ",", None, false, ",", (0, 0));
    let tp = b.add(ps, "typed_parameter", None, "b: int", 0);
    b.add(tp, "identifier", None, "b", 0);
    b.add(tp, "type", Some("type"), "int", 0);
    b.add(f, "type", Some("return_type"), "str", 0);
    let mut out = Vec::new();
    extract_python(&b.done(), "f.py", &mut out);
    assert_eq!(out[0].inputs, strings(&["a", "b"]));
    assert_eq!(out[0].input_types, strings(&["unknown", "int"]));
    assert_eq!(out[0].output, "str");
}

#[test]
fn malformed_tree_is_skipped() {
    let mut t = python_a();
    t.nodes[1].children.push(0);
    assert!(!check_tree(&t));
    let ctx = build_context(stats(), &vec![source("a.py", "a\nb", t)]);
    assert_eq!(ctx.files.len(), 1);
    assert_eq!(ctx.files[0].lines, 2);
    assert!(ctx.symbols.is_empty());
}

#[test]
fn decorated_definitions_are_indexed() {
    let mut b = Builder::new("module", "", (0, 3));
    let dec = b.push(Some(0), "decorated_definition", None, true, "@d\ndef f(): pass", (0, 1));
    b.add(dec, "decorator", None, "@d", 0);
    let f = b.push(Some(dec), "function_definition", Some("definition"), true, "def f(): pass", (1, 1));
    b.add(f, "identifier", Some("name"), "f", 1);
    let dc = b.push(Some(0), "decorated_definition", None, true, "@d\nclass C: pass", (2, 3));
    b.add(dc, "decorator", None, "@d", 2);
    let c = b.push(Some(dc), "class_definition", Some("definition"), true, "class C: pass", (3, 3));
    b.add(c, "identifier", Some("name"), "C", 3);
    let mut out = Vec::new();
    extract_python(&b.done(), "d.py", &mut out);
    assert_eq!(out.len(), 2);
    assert_eq!((out[0].name.as_str(), out[0].kind.as_str(), out[0].line_start), ("f", "function", 2));
    assert_eq!((out[1].name.as_str(), out[1].kind.as_str()), ("C", "class"));
}

#[test]
fn default_and_splat_params() {
    let mut b = Builder::new("module", "", (0, 0));
    let f = b.add(0, "function_definition", None, "def f(x=1, y: int = 2, *args, **kw)", 0);
    b.add(f, "identifier", Some("name"), "f", 0);
    let ps = b.add(f, "parameters", Some("parameters"), "(x=1, y: int = 2, *args, **kw)", 0);
    let d = b.add(ps, "default_parameter", None, "x=1", 0);
    b.add(d, "identifier", Some("name"), "x", 0);
    b.add(d, "integer", Some("value"), "1", 0);
    let td = b.add(ps, "typed_default_parameter", None, "y: int = 2", 0);
    b.add(td, "identifier", Some("name"), "y", 0);
    b.add(td, "type", Some("type"), "int", 0);
    b.add(td, "integer", Some("value"), "2", 0);
    b.add(ps, "list_splat_pattern", None, "*args", 0);
    b.add(ps, "dictionary_splat_pattern", None, "**kw", 0);
    let mut out = Vec::new();
    extract_python(&b.done(), "f.py", &mut out);
    assert_eq!(out[0].inputs, strings(&["x", "y", "*args", "**kw"]));
    assert_eq!(out[0].input_types, strings(&["unknown", "int", "unknown", "unknown"]));
}

#[test]
fn calls_inside_calls() {
    let mut b = Builder::new("module", "", (0, 0));
    let f = b.add(0, "function_definition", None, "def f(): a.f(g(h()))", 0);
    b.add(f, "identifier", Some("name"), "f", 0);
    let body = b.add(f, "block", Some("body"), "a.f(g(h()))", 0);
    let outer = b.add(body, "call", None, "a.f(g(h()))", 0);
    b.add(outer, "attribute", Some("function"), "a.f", 0);
    let args = b.add(outer, "argument_list", Some("arguments"), "(g(h()))", 0);
    let inner = b.add(args, "call", None, "g(h())", 0);
    b.add(inner, "identifier", Some("function"), "g", 0);
    let args2 = b.add(inner, "argument_list", Some("arguments"), "(h())", 0);
    let innermost = b.add(args2, "call", None, "h()", 0);
    b.add(innermost, "identifier", Some("function"), "h", 0);
    let mut out = Vec::new();
    extract_python(&b.done(), "c.py", &mut out);
    assert_eq!(out[0].calls, strings(&["f", "g", "h"]));
}

#[test]
fn rust_types_and_four_slash_comments() {
    let mut b = Builder::new("source_file", "", (0, 4));
    b.add(0, "line_comment", None, "//// not doc", 0);
    let st = b.push(Some(0), "struct_item", None, true, "struct P { x: i32 }", (1, 1));
    b.add(st, "type_identifier", Some("name"), "P", 1);
    b.add(0, "line_comment", None, "/// An enum.", 2);
    let en = b.push(Some(0), "enum_item", None, true, "enum E { A }", (3, 4));
    b.add(en, "type_identifier", Some("name"), "E", 3);
    let mut out = Vec::new();
    extract_rust(&b.done(), "t.rs", &mut out);
    assert_eq!(out.len(), 2);
    assert_eq!((out[0].name.as_str(), out[0].kind.as_str()), ("P", "class"));
    assert_eq!(out[0].doc, None);
    assert_eq!(out[1].doc, Some("An enum.".to_string()));
    assert_eq!((out[1].line_start, out[1].line_end), (4, 5));
}

#[test]
fn rows_out_of_order_are_malformed() {
    let mut t = python_a();
    t.nodes[1].start_row = 5;
    assert!(!check_tree(&t));
}

#[test]
fn duplicate_fingerprint_paths_are_found() {
    assert!(fingerprints_unique(&vec![fp("a.py", "a"), fp("b.rs", "b")]));
    assert!(!fingerprints_unique(&vec![fp("a.py", "a"), fp("a.py", "b")]));
    assert_eq!(fingerprint(&b"x".to_vec()).len(), 64);
}

#[test]
fn resolving_twice_changes_nothing() {
    let mut symbols = Vec::new();
    extract_python(&python_a(), "a.py", &mut symbols);
    extract_rust(&rust_b(true), "b.rs", &mut symbols);
    finalize_calls(&mut symbols);
    let once = symbols.clone();
    finalize_calls(&mut symbols);
    assert_eq!(symbols, once);
}

#[test]
fn sync_only_when_stats_agree() {
    let s = stats();
    let mut other = stats();
    other.total_lines += 1;
    assert!(may_sync(s, s));
    assert!(!may_sync(s, other));
}

#[test]
fn doc_lines_are_trimmed() {
    assert_eq!(repo_index::extract::trim_space(" \t\u{a0}x y\u{3000}\n"), "x y");
    assert_eq!(repo_index::extract::trim_space("   "), "");
    assert_eq!(repo_index::extract::trim_space("x"), "x");
}
