//! Import records: one name an import brings in, and one import statement
//! normalised to the module it refers to and the names it takes from it.

use vstd::prelude::*;
use crate::syntax::{
    opt_str, Alias, StmtClassDef, StmtFunctionDef, StmtImport, StmtImportFrom, StmtRaise,
};
use crate::table::{keys_distinct, lemma_table_dom, lemma_table_push, lemma_table_update, table_of};

verus! {

/// An exported name with its optional local alias.
#[derive(Debug)]
pub struct Name {
    pub name: String,
    pub alias: Option<String>,
}

impl View for Name {
    type V = (Seq<char>, Option<Seq<char>>);

    open spec fn view(&self) -> (Seq<char>, Option<Seq<char>>) {
        (self.name@, opt_str(self.alias))
    }
}

impl Default for Name {
    fn default() -> (r: Self)
        ensures
            r@ == (Seq::<char>::empty(), None::<Seq<char>>),
    {
        Self { name: String::new(), alias: None }
    }
}

fn clone_opt_string(o: &Option<String>) -> (r: Option<String>)
    ensures
        r == *o,
{
    match o {
        Some(s) => Some(s.clone()),
        None => None,
    }
}

impl From<&Alias> for Name {
    fn from(a: &Alias) -> (r: Self) {
        Self { name: a.name.clone(), alias: clone_opt_string(&a.asname) }
    }
}

impl vstd::std_specs::convert::FromSpecImpl<&Alias> for Name {
    open spec fn obeys_from_spec() -> bool {
        true
    }

    open spec fn from_spec(a: &Alias) -> Self {
        Name { name: a.name, alias: a.asname }
    }
}

/// One import statement, normalised: the module it refers to, its relative
/// level, whether it is a `from` import, and the names it brings in.
#[derive(Debug)]
pub struct Import {
    pub name: Option<String>,
    pub alias: Vec<Name>,
    pub level: u32,
    pub from_import: bool,
}

/// The mathematical model of an [`Import`].
pub struct ImportView {
    pub name: Option<Seq<char>>,
    pub exports: Seq<(Seq<char>, Option<Seq<char>>)>,
    pub level: u32,
    pub from_import: bool,
}

impl View for Import {
    type V = ImportView;

    open spec fn view(&self) -> ImportView {
        ImportView {
            name: opt_str(self.name),
            exports: self.alias@.map_values(|n: Name| n@),
            level: self.level,
            from_import: self.from_import,
        }
    }
}

/// The default import: an empty absolute module name and no names.
pub open spec fn default_import_view() -> ImportView {
    ImportView {
        name: Some(Seq::<char>::empty()),
        exports: Seq::empty(),
        level: 0,
        from_import: false,
    }
}

/// What `import a.b [as c], ...` refers to: the first imported path alone,
/// exported under its own name with its optional alias.
pub open spec fn import_view_of(s: StmtImport) -> ImportView {
    if s.names@.len() == 0 {
        default_import_view()
    } else {
        ImportView {
            name: Some(s.names@[0].name@),
            exports: seq![s.names@[0]@],
            level: 0,
            from_import: false,
        }
    }
}

/// What `from module import ...` refers to: the module (absent for a bare
/// relative import), its level (0 when none is given) and every imported name.
pub open spec fn import_from_view_of(s: StmtImportFrom) -> ImportView {
    ImportView {
        name: opt_str(s.module),
        exports: s.names@.map_values(|a: Alias| a@),
        level: match s.level {
            Some(v) => v,
            None => 0,
        },
        from_import: true,
    }
}

impl Default for Import {
    fn default() -> (r: Self)
        ensures
            r@ == default_import_view(),
    {
        let r = Self { name: Some(String::new()), alias: Vec::new(), level: 0, from_import: false };
        assert(r@.exports =~= Seq::empty());
        r
    }
}

impl From<&StmtImport> for Import {
    fn from(stmt: &StmtImport) -> (r: Self)
        ensures
            r@ == import_view_of(*stmt),
    {
        let mut result = Self::default();
        if stmt.names.len() > 0 {
            let first = &stmt.names[0];
            result.name = Some(first.name.clone());
            result.alias.push(Name::from(first));
            assert(result@.exports =~= seq![stmt.names@[0]@]);
        }
        result
    }
}

impl vstd::std_specs::convert::FromSpecImpl<&StmtImport> for Import {
    open spec fn obeys_from_spec() -> bool {
        false
    }

    open spec fn from_spec(stmt: &StmtImport) -> Self {
        arbitrary()
    }
}

impl From<&StmtImportFrom> for Import {
    fn from(stmt: &StmtImportFrom) -> (r: Self)
        ensures
            r@ == import_from_view_of(*stmt),
    {
        let mut result = Self::default();
        result.from_import = true;
        result.name = clone_opt_string(&stmt.module);
        result.level = match stmt.level {
            Some(v) => v,
            None => 0,
        };
        let mut i: usize = 0;
        assert(result@.exports =~= stmt.names@.take(0).map_values(|a: Alias| a@));
        while i < stmt.names.len()
            invariant
                i <= stmt.names@.len(),
                result.name == stmt.module,
                result.level == (match stmt.level {
                    Some(v) => v,
                    None => 0u32,
                }),
                result.from_import,
                result.alias@.len() == i,
                result@.exports == stmt.names@.take(i as int).map_values(|a: Alias| a@),
            decreases stmt.names@.len() - i,
        {
            let n = Name::from(&stmt.names[i]);
            assert(n@ == stmt.names@[i as int]@);
            let ghost before = result.alias@;
            result.alias.push(n);
            assert(result.alias@ == before.push(n));
            assert forall|k: int| 0 <= k < i + 1 implies result.alias@[k]@ == stmt.names@[k]@ by {
                if k < i {
                    assert(before.map_values(|n: Name| n@)[k] == stmt.names@.take(i as int).map_values(|a: Alias| a@)[k]);
                }
            }
            assert(result@.exports =~= stmt.names@.take(i + 1).map_values(|a: Alias| a@));
            i = i + 1;
        }
        assert(stmt.names@.take(i as int) =~= stmt.names@);
        result
    }
}

impl vstd::std_specs::convert::FromSpecImpl<&StmtImportFrom> for Import {
    open spec fn obeys_from_spec() -> bool {
        false
    }

    open spec fn from_spec(stmt: &StmtImportFrom) -> Self {
        arbitrary()
    }
}

/// The module an import refers to: its name, relative level and form.
pub type ImportKey = (Option<Seq<char>>, u32, bool);

/// Exported names, each mapped to its optional local alias.
pub type ExportTable = Map<Seq<char>, Option<Seq<char>>>;

/// Everything a file imports, by module.
pub type ImportTable = Map<ImportKey, ExportTable>;

pub open spec fn entry_name() -> spec_fn((Seq<char>, Option<Seq<char>>)) -> Seq<char> {
    |e: (Seq<char>, Option<Seq<char>>)| e.0
}

pub open spec fn entry_alias() -> spec_fn((Seq<char>, Option<Seq<char>>)) -> Option<Seq<char>> {
    |e: (Seq<char>, Option<Seq<char>>)| e.1
}

/// The table that a list of exported names builds, a later alias for a name
/// replacing an earlier one.
pub open spec fn entries_table(e: Seq<(Seq<char>, Option<Seq<char>>)>) -> ExportTable {
    table_of(e, entry_name(), entry_alias())
}

pub open spec fn import_key(i: ImportView) -> ImportKey {
    (i.name, i.level, i.from_import)
}

/// The table after one more import: its names extend (and, name by name,
/// override) what earlier imports of the same module brought in.
pub open spec fn merge_import(t: ImportTable, i: ImportView) -> ImportTable {
    let k = import_key(i);
    let prev = if t.contains_key(k) {
        t[k]
    } else {
        Map::empty()
    };
    t.insert(k, prev.union_prefer_right(entries_table(i.exports)))
}

/// The table that a sequence of imports builds, in order.
pub open spec fn import_table(imports: Seq<ImportView>) -> ImportTable
    decreases imports.len(),
{
    if imports.len() == 0 {
        Map::empty()
    } else {
        merge_import(import_table(imports.drop_last()), imports.last())
    }
}

/// All names that imports of one module bring in.
#[derive(Debug)]
pub struct ImportRecord {
    pub module: Option<String>,
    pub level: u32,
    pub from_import: bool,
    pub exports: Vec<Name>,
}

impl ImportRecord {
    pub open spec fn key(&self) -> ImportKey {
        (opt_str(self.module), self.level, self.from_import)
    }

    pub open spec fn entries(&self) -> Seq<(Seq<char>, Option<Seq<char>>)> {
        self.exports@.map_values(|n: Name| n@)
    }

    /// Each exported name occurs once.
    pub open spec fn wf(&self) -> bool {
        keys_distinct(self.entries(), entry_name())
    }
}

impl View for ImportRecord {
    type V = ExportTable;

    open spec fn view(&self) -> ExportTable {
        entries_table(self.entries())
    }
}

pub open spec fn record_key() -> spec_fn(ImportRecord) -> ImportKey {
    |r: ImportRecord| r.key()
}

pub open spec fn record_table() -> spec_fn(ImportRecord) -> ExportTable {
    |r: ImportRecord| r@
}

/// What a file imports: one record per referenced module.
#[derive(Debug)]
pub struct ImportMap {
    pub records: Vec<ImportRecord>,
}

impl View for ImportMap {
    type V = ImportTable;

    open spec fn view(&self) -> ImportTable {
        table_of(self.records@, record_key(), record_table())
    }
}

fn opt_string_eq(a: &Option<String>, b: &Option<String>) -> (r: bool)
    ensures
        r == (opt_str(*a) == opt_str(*b)),
{
    match (a, b) {
        (Some(x), Some(y)) => *x == *y,
        (None, None) => true,
        _ => false,
    }
}

fn clone_name(n: &Name) -> (r: Name)
    ensures
        r == *n,
{
    Name { name: n.name.clone(), alias: clone_opt_string(&n.alias) }
}

impl ImportRecord {
    /// Adds one exported name, replacing the alias of an equal name.
    fn add_export(&mut self, n: &Name)
        requires
            old(self).wf(),
        ensures
            final(self).wf(),
            final(self).key() == old(self).key(),
            final(self)@ == old(self)@.insert(n@.0, n@.1),
    {
        let ghost e0 = self.entries();
        let mut i: usize = 0;
        while i < self.exports.len()
            invariant
                *self == *old(self),
                old(self).wf(),
                e0 == old(self).entries(),
                i <= self.exports@.len(),
                forall|k: int| 0 <= k < i ==> self.exports@[k].name@ != n.name@,
            decreases self.exports@.len() - i,
        {
            if self.exports[i].name == n.name {
                let m = clone_name(n);
                self.exports.set(i, m);
                proof {
                    assert(self.entries() =~= e0.update(i as int, n@));
                    lemma_table_update(e0, entry_name(), entry_alias(), i as int, n@);
                }
                return;
            }
            i = i + 1;
        }
        let m = clone_name(n);
        self.exports.push(m);
        proof {
            assert(self.entries() =~= e0.push(n@));
            lemma_table_push(e0, entry_name(), entry_alias(), n@);
            assert forall|x: int, y: int|
                0 <= x < self.entries().len() && 0 <= y < self.entries().len() && x != y
                implies self.entries()[x].0 != self.entries()[y].0 by {
                if x < e0.len() && y < e0.len() {
                    assert(e0[x].0 != e0[y].0);
                }
            }
        }
    }
}

impl ImportMap {
    /// The import of every record's key occurs once, and every record is
    /// well formed.
    pub open spec fn wf(&self) -> bool {
        &&& keys_distinct(self.records@, record_key())
        &&& forall|i: int| 0 <= i < self.records@.len() ==> #[trigger] self.records@[i].wf()
    }

    pub fn new() -> (r: Self)
        ensures
            r.wf(),
            r@ == Map::<ImportKey, ExportTable>::empty(),
    {
        ImportMap { records: Vec::new() }
    }

    /// The index of the record for the given module, if there is one.
    fn find(&self, module: &Option<String>, level: u32, from_import: bool) -> (r: Option<usize>)
        ensures
            match r {
                Some(j) => j < self.records@.len() && self.records@[j as int].key() == (
                opt_str(*module), level, from_import),
                None => forall|i: int|
                    0 <= i < self.records@.len() ==> self.records@[i].key() != (
                    opt_str(*module), level, from_import),
            },
    {
        let mut i: usize = 0;
        while i < self.records.len()
            invariant
                i <= self.records@.len(),
                forall|k: int|
                    0 <= k < i ==> self.records@[k].key() != (opt_str(*module), level, from_import),
            decreases self.records@.len() - i,
        {
            let r = &self.records[i];
            if r.level == level && r.from_import == from_import && opt_string_eq(&r.module, module) {
                return Some(i);
            }
            i = i + 1;
        }
        None
    }

    /// Adds the names of one import to the record of its module.
    pub fn insert_import(&mut self, imp: &Import)
        requires
            old(self).wf(),
        ensures
            final(self).wf(),
            final(self)@ == merge_import(old(self)@, imp@),
    {
        let ghost k = import_key(imp@);
        let ghost prev: ExportTable = if old(self)@.contains_key(k) {
            old(self)@[k]
        } else {
            Map::empty()
        };
        let j = match self.find(&imp.name, imp.level, imp.from_import) {
            Some(j) => {
                proof {
                    crate::table::lemma_table_value(self.records@, record_key(), record_table(), j as int);
                }
                j
            },
            None => {
                let rec = ImportRecord {
                    module: clone_opt_string(&imp.name),
                    level: imp.level,
                    from_import: imp.from_import,
                    exports: Vec::new(),
                };
                proof {
                    lemma_table_dom(self.records@, record_key(), record_table(), k);
                    lemma_table_push(self.records@, record_key(), record_table(), rec);
                    assert(rec.entries() =~= Seq::empty());
                    assert(rec@ =~= Map::empty());
                }
                let ghost before = self.records@;
                self.records.push(rec);
                proof {
                    assert forall|x: int, y: int|
                        0 <= x < self.records@.len() && 0 <= y < self.records@.len() && x != y
                        implies self.records@[x].key() != self.records@[y].key() by {
                        if x < before.len() && y < before.len() {
                            assert(before[x].key() != before[y].key());
                        }
                    }
                    assert forall|i: int| 0 <= i < self.records@.len() implies #[trigger] self.records@[i].wf() by {
                        if i < before.len() {
                            assert(before[i].wf());
                        }
                    }
                }
                self.records.len() - 1
            },
        };
        let mut e: usize = 0;
        assert(imp@.exports.take(0) =~= Seq::empty());
        assert(prev.union_prefer_right(entries_table(Seq::empty())) =~= prev);
        while e < imp.alias.len()
            invariant
                self.wf(),
                j < self.records@.len(),
                self.records@[j as int].key() == k,
                e <= imp.alias@.len(),
                self@ == old(self)@.insert(k, prev.union_prefer_right(entries_table(imp@.exports.take(e as int)))),
            decreases imp.alias@.len() - e,
        {
            let ghost before = self.records@;
            proof {
                crate::table::lemma_table_value(self.records@, record_key(), record_table(), j as int);
            }
            self.records[j].add_export(&imp.alias[e]);
            proof {
                assert(self.records@ == before.update(j as int, self.records@[j as int]));
                lemma_table_update(before, record_key(), record_table(), j as int, self.records@[j as int]);
                assert forall|i: int| 0 <= i < self.records@.len() implies #[trigger] self.records@[i].wf() by {
                    if i != j {
                        assert(before[i].wf());
                    }
                }
                let ex = imp@.exports;
                assert(ex.take(e + 1).drop_last() =~= ex.take(e as int));
                assert(ex[e as int] == imp.alias@[e as int]@);
                assert(prev.union_prefer_right(entries_table(ex.take(e + 1))) =~=
                    prev.union_prefer_right(entries_table(ex.take(e as int))).insert(ex[e as int].0, ex[e as int].1));
                assert(self@ =~= old(self)@.insert(k, prev.union_prefer_right(entries_table(ex.take(e + 1)))));
            }
            e = e + 1;
        }
        assert(imp@.exports.take(e as int) =~= imp@.exports);
    }
}

impl ImportRecord {
    /// The entry of an exported name, if the record has one.
    pub fn get(&self, name: &str) -> (r: Option<&Name>)
        requires
            self.wf(),
        ensures
            match r {
                Some(n) => self@.contains_key(name@) && self@[name@] == n@.1 && n.name@ == name@,
                None => !self@.contains_key(name@),
            },
    {
        let mut i: usize = 0;
        while i < self.exports.len()
            invariant
                self.wf(),
                i <= self.exports@.len(),
                forall|k: int| 0 <= k < i ==> self.exports@[k].name@ != name@,
            decreases self.exports@.len() - i,
        {
            if crate::text::str_eq(self.exports[i].name.as_str(), name) {
                proof {
                    crate::table::lemma_table_value(self.entries(), entry_name(), entry_alias(), i as int);
                }
                return Some(&self.exports[i]);
            }
            i = i + 1;
        }
        proof {
            lemma_table_dom(self.entries(), entry_name(), entry_alias(), name@);
            if self@.contains_key(name@) {
                let k = choose|k: int| 0 <= k < self.entries().len() && self.entries()[k].0 == name@;
                assert(self.exports@[k].name@ == name@);
            }
        }
        None
    }
}

impl ImportMap {
    /// The record of the given module, if anything imports it.
    pub fn get(&self, module: &Option<String>, level: u32, from_import: bool) -> (r: Option<&ImportRecord>)
        requires
            self.wf(),
        ensures
            match r {
                Some(rec) => self@.contains_key((opt_str(*module), level, from_import))
                    && self@[(opt_str(*module), level, from_import)] == rec@
                    && rec.wf()
                    && rec.key() == (opt_str(*module), level, from_import),
                None => !self@.contains_key((opt_str(*module), level, from_import)),
            },
    {
        match self.find(module, level, from_import) {
            Some(j) => {
                proof {
                    crate::table::lemma_table_value(self.records@, record_key(), record_table(), j as int);
                }
                Some(&self.records[j])
            },
            None => {
                proof {
                    lemma_table_dom(self.records@, record_key(), record_table(), (opt_str(*module), level, from_import));
                }
                None
            },
        }
    }
}

/// One parsed source file: its dotted module name and its top-level
/// statements, bucketed by kind, with the table of what it imports.
pub struct Statements {
    pub module: String,
    pub import_table: ImportMap,
    pub imports: Vec<StmtImport>,
    pub import_from: Vec<StmtImportFrom>,
    pub classes: Vec<StmtClassDef>,
    pub methods: Vec<StmtFunctionDef>,
    pub raises: Vec<StmtRaise>,
}

impl Statements {
    /// The unit of an empty file: no module name and no statements.
    pub open spec fn is_empty_unit(&self) -> bool {
        &&& self.module@.len() == 0
        &&& self.import_table.wf()
        &&& self.import_table@ == Map::<ImportKey, ExportTable>::empty()
        &&& self.imports@.len() == 0
        &&& self.import_from@.len() == 0
        &&& self.classes@.len() == 0
        &&& self.methods@.len() == 0
        &&& self.raises@.len() == 0
    }
}

impl Default for Statements {
    fn default() -> (r: Self)
        ensures
            r.is_empty_unit(),
    {
        Statements {
            module: String::new(),
            import_table: ImportMap::new(),
            imports: Vec::new(),
            import_from: Vec::new(),
            classes: Vec::new(),
            methods: Vec::new(),
            raises: Vec::new(),
        }
    }
}

} // verus!
