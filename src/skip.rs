//! Import resolution and skip-decorator detection.

use vstd::prelude::*;
use crate::models::{
    import_from_view_of, import_table, import_view_of, Import, ImportKey, ImportMap,
    ImportTable, ImportView, Statements,
};
use crate::syntax::{Expr, StmtClassDef, StmtFunctionDef, StmtImport, StmtImportFrom};
use crate::text::str_eq;

verus! {

/// The imports of a file in the order they are merged: every plain import,
/// then every `from` import.
pub open spec fn imports_of(imports: Seq<StmtImport>, import_froms: Seq<StmtImportFrom>) -> Seq<ImportView> {
    imports.map_values(|s: StmtImport| import_view_of(s)) + import_froms.map_values(
        |s: StmtImportFrom| import_from_view_of(s),
    )
}

/// Builds the table of what a file imports: one record per referenced
/// module, level and form, whose names are merged over all imports of it.
pub fn module_runner(imports: &Vec<StmtImport>, import_froms: &Vec<StmtImportFrom>) -> (r: ImportMap)
    ensures
        r.wf(),
        r@ == import_table(imports_of(imports@, import_froms@)),
{
    let ghost all = imports_of(imports@, import_froms@);
    let ghost n = imports@.len();
    let mut result = ImportMap::new();
    let mut i: usize = 0;
    assert(all.take(0) =~= Seq::empty());
    while i < imports.len()
        invariant
            result.wf(),
            all == imports_of(imports@, import_froms@),
            n == imports@.len(),
            i <= n,
            result@ == import_table(all.take(i as int)),
        decreases n - i,
    {
        let imp = Import::from(&imports[i]);
        result.insert_import(&imp);
        assert(all.take(i + 1).drop_last() =~= all.take(i as int));
        i = i + 1;
    }
    let mut j: usize = 0;
    while j < import_froms.len()
        invariant
            result.wf(),
            all == imports_of(imports@, import_froms@),
            n == imports@.len(),
            j <= import_froms@.len(),
            result@ == import_table(all.take(n + j)),
        decreases import_froms@.len() - j,
    {
        let imp = Import::from(&import_froms[j]);
        result.insert_import(&imp);
        assert(all.take(n + j + 1).drop_last() =~= all.take(n + j));
        j = j + 1;
    }
    assert(all.take(n + j) =~= all);
    result
}

/// How a decorator marks a test as skipped.
#[derive(Clone, Copy, Debug, PartialEq, Eq, Structural)]
pub enum SkipStatus {
    /// No recognised skip marker.
    NotSkipped,
    /// Skipped only when a condition holds (`skipIf`, `skipUnless`).
    Conditional,
    /// Always skipped (`skip`).
    Unconditional,
}

/// The module of the test framework.
pub open spec fn framework_module() -> Seq<char> {
    "unittest"@
}

/// The key of `import unittest [as name]`.
pub open spec fn framework_key() -> ImportKey {
    (Some(framework_module()), 0, false)
}

/// The file imports the framework's module, in whatever form or level.
pub open spec fn imports_framework_spec(t: ImportTable) -> bool {
    exists|k: ImportKey| t.contains_key(k) && k.0 == Some(framework_module())
}

/// `b` is the local name that `import unittest [as b]` binds.
pub open spec fn names_framework(t: ImportTable, b: Seq<char>) -> bool {
    &&& t.contains_key(framework_key())
    &&& t[framework_key()].contains_key(framework_module())
    &&& match t[framework_key()][framework_module()] {
        Some(a) => a == b,
        None => b == framework_module(),
    }
}

/// The skip marker that a decorator is, if it is one: the bare name `skip`,
/// or `skip`, `skipIf` or `skipUnless` taken from the framework's module.
pub open spec fn decorator_skip(d: Expr, t: ImportTable) -> Option<SkipStatus> {
    match d {
        Expr::Name(id) => if id@ == "skip"@ {
            Some(SkipStatus::Unconditional)
        } else {
            None
        },
        Expr::Attribute(base, attr) => match *base {
            Expr::Name(b) => if !names_framework(t, b@) {
                None
            } else if attr@ == "skip"@ {
                Some(SkipStatus::Unconditional)
            } else if attr@ == "skipIf"@ || attr@ == "skipUnless"@ {
                Some(SkipStatus::Conditional)
            } else {
                None
            },
            _ => None,
        },
        Expr::Other => None,
    }
}

/// The strongest skip marker among a list of decorators.
pub open spec fn skip_status_of(ds: Seq<Expr>, t: ImportTable) -> SkipStatus {
    if exists|i: int| 0 <= i < ds.len() && decorator_skip(ds[i], t) == Some(SkipStatus::Unconditional) {
        SkipStatus::Unconditional
    } else if exists|i: int| 0 <= i < ds.len() && decorator_skip(ds[i], t) == Some(SkipStatus::Conditional) {
        SkipStatus::Conditional
    } else {
        SkipStatus::NotSkipped
    }
}

/// Whether the file imports the test framework's module at all.
pub fn imports_framework(statements: &Statements) -> (r: bool)
    ensures
        r == imports_framework_spec(statements.import_table@),
{
    let records = &statements.import_table.records;
    let ghost t = statements.import_table@;
    let mut i: usize = 0;
    while i < records.len()
        invariant
            i <= records@.len(),
            records == &statements.import_table.records,
            t == statements.import_table@,
            forall|k: int| 0 <= k < i ==> records@[k].key().0 != Some(framework_module()),
        decreases records@.len() - i,
    {
        let found = match &records[i].module {
            Some(m) => str_eq(m.as_str(), "unittest"),
            None => false,
        };
        if found {
            proof {
                crate::table::lemma_table_dom(records@, crate::models::record_key(), crate::models::record_table(), records@[i as int].key());
            }
            return true;
        }
        i = i + 1;
    }
    proof {
        if imports_framework_spec(t) {
            let k = choose|k: ImportKey| t.contains_key(k) && k.0 == Some(framework_module());
            crate::table::lemma_table_dom(records@, crate::models::record_key(), crate::models::record_table(), k);
        }
    }
    false
}

/// Whether `b` is the local name of the framework's module.
fn is_framework_name(imports: &ImportMap, b: &str) -> (r: bool)
    requires
        imports.wf(),
    ensures
        r == names_framework(imports@, b@),
{
    let module = Some(String::from_str("unittest"));
    match imports.get(&module, 0, false) {
        None => false,
        Some(rec) => match rec.get("unittest") {
            None => false,
            Some(n) => match &n.alias {
                Some(a) => str_eq(a.as_str(), b),
                None => str_eq(b, "unittest"),
            },
        },
    }
}

/// The skip marker that one decorator is, if it is one.
pub fn decorator_skip_status(d: &Expr, imports: &ImportMap) -> (r: Option<SkipStatus>)
    requires
        imports.wf(),
    ensures
        r == decorator_skip(*d, imports@),
{
    match d {
        Expr::Name(id) => if str_eq(id.as_str(), "skip") {
            Some(SkipStatus::Unconditional)
        } else {
            None
        },
        Expr::Attribute(base, attr) => match &**base {
            Expr::Name(b) => if !is_framework_name(imports, b.as_str()) {
                None
            } else if str_eq(attr.as_str(), "skip") {
                Some(SkipStatus::Unconditional)
            } else if str_eq(attr.as_str(), "skipIf") || str_eq(attr.as_str(), "skipUnless") {
                Some(SkipStatus::Conditional)
            } else {
                None
            },
            _ => None,
        },
        Expr::Other => None,
    }
}

fn decorators_skip_status(ds: &Vec<Expr>, imports: &ImportMap) -> (r: SkipStatus)
    requires
        imports.wf(),
    ensures
        r == skip_status_of(ds@, imports@),
{
    let mut conditional = false;
    let mut i: usize = 0;
    while i < ds.len()
        invariant
            imports.wf(),
            i <= ds@.len(),
            forall|k: int| 0 <= k < i ==> decorator_skip(ds@[k], imports@) != Some(SkipStatus::Unconditional),
            conditional == exists|k: int| 0 <= k < i && decorator_skip(ds@[k], imports@) == Some(SkipStatus::Conditional),
        decreases ds@.len() - i,
    {
        match decorator_skip_status(&ds[i], imports) {
            Some(SkipStatus::Unconditional) => {
                return SkipStatus::Unconditional;
            },
            Some(SkipStatus::Conditional) => {
                conditional = true;
            },
            _ => {},
        }
        i = i + 1;
    }
    if conditional {
        SkipStatus::Conditional
    } else {
        SkipStatus::NotSkipped
    }
}

/// How a function's decorators mark it as skipped.
pub fn has_unittest_skip_for_func(func: &StmtFunctionDef, imports: &ImportMap) -> (r: SkipStatus)
    requires
        imports.wf(),
    ensures
        r == skip_status_of(func.decorator_list@, imports@),
{
    decorators_skip_status(&func.decorator_list, imports)
}

/// How a class's decorators mark it as skipped.
pub fn has_unittest_skip_for_class(class: &StmtClassDef, imports: &ImportMap) -> (r: SkipStatus)
    requires
        imports.wf(),
    ensures
        r == skip_status_of(class.decorator_list@, imports@),
{
    decorators_skip_status(&class.decorator_list, imports)
}

} // verus!
