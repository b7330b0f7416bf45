//! The part of a Python syntax tree that test discovery reads.
//!
//! A parser outside this library produces the tree; these types hold, as plain
//! values, what the discovery logic needs of it: the top-level statements of a
//! module, the names an import brings in, the statements of a class body and
//! the decorators of classes and functions.

use vstd::prelude::*;

verus! {

/// One imported name, `name` or `name as asname`.
#[derive(Debug)]
pub struct Alias {
    pub name: String,
    pub asname: Option<String>,
}

/// An expression, as far as decorators need it.
pub enum Expr {
    /// A bare name, such as `skip`.
    Name(String),
    /// An attribute access `value.attr`, such as `unittest.skipIf`.
    Attribute(Box<Expr>, String),
    /// Any other expression shape (calls, subscripts, literals, ...).
    Other,
}

/// `import a.b [as c], ...`
#[derive(Debug)]
pub struct StmtImport {
    pub names: Vec<Alias>,
}

/// `from [.]*module import name [as alias], ...`
#[derive(Debug)]
pub struct StmtImportFrom {
    pub module: Option<String>,
    pub names: Vec<Alias>,
    pub level: Option<u32>,
}

/// `def name(...)`, with its decorators; its body is not examined.
pub struct StmtFunctionDef {
    pub name: String,
    pub decorator_list: Vec<Expr>,
}

/// `class name(bases):` with its direct body statements and decorators.
pub struct StmtClassDef {
    pub name: String,
    pub bases: Vec<Expr>,
    pub body: Vec<Stmt>,
    pub decorator_list: Vec<Expr>,
}

/// `raise exc`
pub struct StmtRaise {
    pub exc: Option<Expr>,
}

/// A statement of a module or of a class body.
pub enum Stmt {
    Import(StmtImport),
    ImportFrom(StmtImportFrom),
    ClassDef(StmtClassDef),
    FunctionDef(StmtFunctionDef),
    Raise(StmtRaise),
    /// Any statement that discovery ignores.
    Other,
}

/// The optional string seen as an optional character sequence.
pub open spec fn opt_str(o: Option<String>) -> Option<Seq<char>> {
    match o {
        Some(s) => Some(s@),
        None => None,
    }
}

impl View for Alias {
    type V = (Seq<char>, Option<Seq<char>>);

    open spec fn view(&self) -> (Seq<char>, Option<Seq<char>>) {
        (self.name@, opt_str(self.asname))
    }
}

} // verus!
