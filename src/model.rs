//! The index: aggregate statistics, one record per file, one per symbol.
use vstd::prelude::*;

verus! {

/// Aggregate figures over the recognised source files of a tree.
#[derive(Clone, Copy, Debug, PartialEq, Eq, Structural)]
pub struct RepoStats {
    pub file_count: usize,
    pub total_bytes: u64,
    pub total_lines: usize,
}

/// One indexed file.
#[derive(Clone, Debug, PartialEq, Eq)]
pub struct FileInfo {
    pub path: String,
    pub language: String,
    pub bytes: u64,
    pub lines: usize,
}

/// One top-level function or class of a file.
///
/// `calls` are the raw call-target names seen in its body; `custom_calls` and
/// `lang_calls` split them into names defined somewhere in the tree and the
/// rest; `called_by` names the symbols whose `custom_calls` name this one.
#[derive(Clone, Debug, PartialEq, Eq)]
pub struct Symbol {
    pub kind: String,
    pub name: String,
    pub file: String,
    pub inputs: Vec<String>,
    pub input_types: Vec<String>,
    pub output: String,
    pub calls: Vec<String>,
    pub custom_calls: Vec<String>,
    pub lang_calls: Vec<String>,
    pub called_by: Vec<String>,
    pub doc: Option<String>,
    pub line_start: usize,
    pub line_end: usize,
}

/// The whole index of a tree.
#[derive(Clone, Debug, PartialEq, Eq)]
pub struct Context {
    pub stats: RepoStats,
    pub files: Vec<FileInfo>,
    pub symbols: Vec<Symbol>,
}

/// The fields that extraction fills, and that call resolution leaves alone.
pub open spec fn same_extracted(a: Symbol, b: Symbol) -> bool {
    &&& a.kind == b.kind
    &&& a.name == b.name
    &&& a.file == b.file
    &&& a.inputs == b.inputs
    &&& a.input_types == b.input_types
    &&& a.output == b.output
    &&& a.calls == b.calls
    &&& a.doc == b.doc
    &&& a.line_start == b.line_start
    &&& a.line_end == b.line_end
}

/// A symbol with every field empty, to hold a place while one is moved out.
pub fn blank_symbol() -> (s: Symbol)
    ensures
        s.name@ == Seq::<char>::empty(),
        s.calls@.len() == 0,
        s.custom_calls@.len() == 0,
        s.lang_calls@.len() == 0,
        s.called_by@.len() == 0,
{
    Symbol {
        kind: String::new(),
        name: String::new(),
        file: String::new(),
        inputs: Vec::new(),
        input_types: Vec::new(),
        output: String::new(),
        calls: Vec::new(),
        custom_calls: Vec::new(),
        lang_calls: Vec::new(),
        called_by: Vec::new(),
        doc: None,
        line_start: 0,
        line_end: 0,
    }
}

} // verus!
