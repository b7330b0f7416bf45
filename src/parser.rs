//! The statement extractor: a file's dotted module name from its path, and
//! its top-level statements bucketed by kind.

use vstd::prelude::*;
use crate::models::{import_table, ImportMap, Statements};
use crate::aggregate::views;
use crate::enumerator::dotted;
use crate::skip::{imports_of, module_runner};
use crate::syntax::{Stmt, StmtClassDef, StmtFunctionDef, StmtImport, StmtImportFrom, StmtRaise};

verus! {

/// `d` is the index of the last `.` in `s`.
pub open spec fn last_dot_at(s: Seq<char>, d: int) -> bool {
    &&& 0 <= d < s.len()
    &&& s[d] == '.'
    &&& forall|k: int| d < k < s.len() ==> s[k] != '.'
}

/// A file name without its extension: the part before the last `.`, unless
/// that `.` is the first character or there is none.
pub open spec fn file_stem_spec(s: Seq<char>) -> Seq<char> {
    if exists|d: int| 0 < d && last_dot_at(s, d) {
        s.take(choose|d: int| 0 < d && last_dot_at(s, d))
    } else {
        s
    }
}

/// A path segment that names a file: not empty, `.` or `..`.
pub open spec fn has_stem(s: Seq<char>) -> bool {
    s.len() > 0 && s != seq!['.'] && s != seq!['.', '.']
}

/// The segments joined with `.`.
pub open spec fn join_dotted(parts: Seq<Seq<char>>) -> Seq<char>
    decreases parts.len(),
{
    if parts.len() == 0 {
        Seq::empty()
    } else if parts.len() == 1 {
        parts[0]
    } else {
        join_dotted(parts.drop_last()) + seq!['.'] + parts.last()
    }
}

/// The dotted module name of a file path given by its segments: every
/// directory, then the file's stem.
pub open spec fn module_name_of(segments: Seq<Seq<char>>) -> Seq<char> {
    join_dotted(segments.drop_last().push(file_stem_spec(segments.last())))
}

/// Why a path has no module name.
#[derive(Clone, Copy, Debug, PartialEq, Eq, Structural)]
pub enum ModuleNameError {
    /// The path has no segments.
    EmptyPath,
    /// The last segment names no file.
    NoFileStem,
}

/// The file name `s` without its extension.
pub fn file_stem(s: &str) -> (r: &str)
    ensures
        r@ == file_stem_spec(s@),
{
    let n = s.unicode_len();
    let mut i = n;
    while i > 0 && s.get_char(i - 1) != '.'
        invariant
            n == s@.len(),
            i <= n,
            forall|k: int| i <= k < n ==> s@[k] != '.',
        decreases i,
    {
        i = i - 1;
    }
    if i > 1 && s.get_char(i - 1) == '.' {
        let d = i - 1;
        proof {
            assert(last_dot_at(s@, d as int));
            let c = choose|d: int| 0 < d && last_dot_at(s@, d);
            if c < d {
                assert(s@[d as int] != '.');
            }
            if c > d {
                assert(s@[c] != '.');
            }
        }
        s.substring_char(0, d)
    } else {
        proof {
            if exists|d: int| 0 < d && last_dot_at(s@, d) {
                let c = choose|d: int| 0 < d && last_dot_at(s@, d);
                if c >= i {
                    assert(s@[c] != '.');
                }
            }
        }
        s
    }
}

/// The dotted module name of the file at the path with the given segments.
pub fn module_name(segments: &Vec<String>) -> (r: Result<String, ModuleNameError>)
    ensures
        segments@.len() == 0 ==> r == Err::<String, ModuleNameError>(ModuleNameError::EmptyPath),
        segments@.len() > 0 && !has_stem(segments@.last()@) ==> r == Err::<String, ModuleNameError>(
            ModuleNameError::NoFileStem,
        ),
        segments@.len() > 0 && has_stem(segments@.last()@) ==> r is Ok && r->Ok_0@ == module_name_of(
            segments@.map_values(|s: String| s@),
        ),
{
    let n = segments.len();
    if n == 0 {
        return Err(ModuleNameError::EmptyPath);
    }
    let last = segments[n - 1].as_str();
    proof {
        reveal_strlit("");
        reveal_strlit(".");
        reveal_strlit("..");
        assert(""@ =~= Seq::<char>::empty());
        assert("."@ =~= seq!['.']);
        assert(".."@ =~= seq!['.', '.']);
    }
    if crate::text::str_eq(last, "") || crate::text::str_eq(last, ".") || crate::text::str_eq(last, "..") {
        return Err(ModuleNameError::NoFileStem);
    }
    proof {
        if last@.len() == 0 {
            assert(last@ =~= ""@);
        }
    }
    let ghost segs = segments@.map_values(|s: String| s@);
    let ghost parts = segs.drop_last().push(file_stem_spec(segs.last()));
    let mut out = String::new();
    let mut i: usize = 0;
    assert(parts.take(0) =~= Seq::<Seq<char>>::empty());
    while i < n - 1
        invariant
            n == segments@.len(),
            n > 0,
            has_stem(segments@[n - 1]@),
            i <= n - 1,
            segs == segments@.map_values(|s: String| s@),
            parts == segs.drop_last().push(file_stem_spec(segs.last())),
            out@ == join_dotted(parts.take(i as int)),
        decreases n - 1 - i,
    {
        if i > 0 {
            out.append(".");
        }
        out.append(segments[i].as_str());
        proof {
            reveal_strlit(".");
            assert(parts.take(i + 1).drop_last() =~= parts.take(i as int));
            if i == 0 {
                assert(out@ =~= join_dotted(parts.take(1)));
            }
        }
        i = i + 1;
    }
    if n > 1 {
        out.append(".");
    }
    out.append(file_stem(last));
    proof {
        reveal_strlit(".");
        assert(parts.take(n as int).drop_last() =~= parts.take(n - 1));
        assert(parts.take(n as int) =~= parts);
        if n == 1 {
            assert(out@ =~= join_dotted(parts));
        }
    }
    Ok(out)
}

/// The plain imports among `s`, in order.
pub open spec fn imports_in(s: Seq<Stmt>) -> Seq<StmtImport>
    decreases s.len(),
{
    if s.len() == 0 {
        Seq::empty()
    } else {
        match s.last() {
            Stmt::Import(x) => imports_in(s.drop_last()).push(x),
            _ => imports_in(s.drop_last()),
        }
    }
}

/// The `from` imports among `s`, in order.
pub open spec fn import_froms_in(s: Seq<Stmt>) -> Seq<StmtImportFrom>
    decreases s.len(),
{
    if s.len() == 0 {
        Seq::empty()
    } else {
        match s.last() {
            Stmt::ImportFrom(x) => import_froms_in(s.drop_last()).push(x),
            _ => import_froms_in(s.drop_last()),
        }
    }
}

/// The class definitions among `s`, in order.
pub open spec fn classes_in(s: Seq<Stmt>) -> Seq<StmtClassDef>
    decreases s.len(),
{
    if s.len() == 0 {
        Seq::empty()
    } else {
        match s.last() {
            Stmt::ClassDef(x) => classes_in(s.drop_last()).push(x),
            _ => classes_in(s.drop_last()),
        }
    }
}

/// The function definitions among `s`, in order.
pub open spec fn functions_in(s: Seq<Stmt>) -> Seq<StmtFunctionDef>
    decreases s.len(),
{
    if s.len() == 0 {
        Seq::empty()
    } else {
        match s.last() {
            Stmt::FunctionDef(x) => functions_in(s.drop_last()).push(x),
            _ => functions_in(s.drop_last()),
        }
    }
}

/// The raise statements among `s`, in order.
pub open spec fn raises_in(s: Seq<Stmt>) -> Seq<StmtRaise>
    decreases s.len(),
{
    if s.len() == 0 {
        Seq::empty()
    } else {
        match s.last() {
            Stmt::Raise(x) => raises_in(s.drop_last()).push(x),
            _ => raises_in(s.drop_last()),
        }
    }
}

/// The statement buckets of `st` hold exactly the statements of `root` of
/// each kind, in order; other statements are dropped.
pub open spec fn bucketed(st: Statements, root: Seq<Stmt>) -> bool {
    &&& st.imports@ == imports_in(root)
    &&& st.import_from@ == import_froms_in(root)
    &&& st.classes@ == classes_in(root)
    &&& st.methods@ == functions_in(root)
    &&& st.raises@ == raises_in(root)
}

/// `st` is the unit extracted from the tree `root` of the file whose path has
/// the segments `segments`.
pub open spec fn extracted(st: Statements, segments: Seq<Seq<char>>, root: Seq<Stmt>) -> bool {
    &&& st.module@ == module_name_of(segments)
    &&& bucketed(st, root)
    &&& st.import_table.wf()
    &&& st.import_table@ == import_table(imports_of(st.imports@, st.import_from@))
}

/// Puts one top-level statement in its bucket.
fn add_top_level_statement(statements: &mut Statements, stmt: Stmt)
    ensures
        final(statements).module == old(statements).module,
        final(statements).import_table == old(statements).import_table,
        final(statements).imports@ == (match stmt {
            Stmt::Import(x) => old(statements).imports@.push(x),
            _ => old(statements).imports@,
        }),
        final(statements).import_from@ == (match stmt {
            Stmt::ImportFrom(x) => old(statements).import_from@.push(x),
            _ => old(statements).import_from@,
        }),
        final(statements).classes@ == (match stmt {
            Stmt::ClassDef(x) => old(statements).classes@.push(x),
            _ => old(statements).classes@,
        }),
        final(statements).methods@ == (match stmt {
            Stmt::FunctionDef(x) => old(statements).methods@.push(x),
            _ => old(statements).methods@,
        }),
        final(statements).raises@ == (match stmt {
            Stmt::Raise(x) => old(statements).raises@.push(x),
            _ => old(statements).raises@,
        }),
{
    match stmt {
        Stmt::Import(x) => statements.imports.push(x),
        Stmt::ImportFrom(x) => statements.import_from.push(x),
        Stmt::ClassDef(x) => statements.classes.push(x),
        Stmt::FunctionDef(x) => statements.methods.push(x),
        Stmt::Raise(x) => statements.raises.push(x),
        Stmt::Other => {},
    }
}

/// Builds the unit of a file from its path segments and the top-level
/// statements of its syntax tree. Nested definitions are not descended into.
pub fn build_statements(path_segments: &Vec<String>, root: Vec<Stmt>) -> (r: Result<Statements, ModuleNameError>)
    ensures
        path_segments@.len() == 0 ==> r == Err::<Statements, ModuleNameError>(ModuleNameError::EmptyPath),
        path_segments@.len() > 0 && !has_stem(path_segments@.last()@) ==> r == Err::<Statements, ModuleNameError>(
            ModuleNameError::NoFileStem,
        ),
        path_segments@.len() > 0 && has_stem(path_segments@.last()@) ==> r is Ok && extracted(
            r->Ok_0,
            path_segments@.map_values(|s: String| s@),
            root@,
        ),
{
    let module = match module_name(path_segments) {
        Ok(m) => m,
        Err(e) => {
            return Err(e);
        },
    };
    let mut states = Statements {
        module,
        import_table: ImportMap::new(),
        imports: Vec::new(),
        import_from: Vec::new(),
        classes: Vec::new(),
        methods: Vec::new(),
        raises: Vec::new(),
    };
    let ghost all = root@;
    let n = root.len();
    let mut rest = root;
    let mut k: usize = 0;
    proof {
        assert(all.take(0) =~= Seq::<Stmt>::empty());
        assert(all.skip(0) =~= all);
    }
    while rest.len() > 0
        invariant
            k <= all.len(),
            n == all.len(),
            rest@ == all.skip(k as int),
            states.module@ == module_name_of(path_segments@.map_values(|s: String| s@)),
            bucketed(states, all.take(k as int)),
        decreases rest@.len(),
    {
        let stmt = rest.remove(0);
        proof {
            assert(all.take(k + 1).drop_last() =~= all.take(k as int));
            assert(all.take(k + 1).last() == stmt);
            assert(rest@ =~= all.skip(k + 1));
        }
        add_top_level_statement(&mut states, stmt);
        k = k + 1;
    }
    proof {
        assert(all.take(k as int) =~= all);
    }
    states.import_table = module_runner(&states.imports, &states.import_from);
    Ok(states)
}

/// The unit of one source file: that of an empty file is the empty unit,
/// whatever its path; otherwise the unit built from its path and syntax tree.
pub fn source_unit(path_segments: &Vec<String>, source: &str, root: Vec<Stmt>) -> (r: Result<Statements, ModuleNameError>)
    ensures
        source@.len() == 0 ==> r is Ok && r->Ok_0.is_empty_unit(),
        source@.len() > 0 && path_segments@.len() == 0 ==> r == Err::<Statements, ModuleNameError>(
            ModuleNameError::EmptyPath,
        ),
        source@.len() > 0 && path_segments@.len() > 0 && !has_stem(path_segments@.last()@) ==> r == Err::<
            Statements,
            ModuleNameError,
        >(ModuleNameError::NoFileStem),
        source@.len() > 0 && path_segments@.len() > 0 && has_stem(path_segments@.last()@) ==> r is Ok && extracted(
            r->Ok_0,
            path_segments@.map_values(|s: String| s@),
            root@,
        ),
{
    if source.unicode_len() == 0 {
        return Ok(Statements::default());
    }
    build_statements(path_segments, root)
}

/// `name` qualified by `prefix`, when there is one.
pub open spec fn scoped(prefix: Seq<char>, name: Seq<char>) -> Seq<char> {
    if prefix.len() > 0 {
        dotted(prefix, name)
    } else {
        name
    }
}

/// The dotted paths of the functions defined among the first `n` statements
/// of a body whose own path is `path`, classes nested in it included.
pub open spec fn body_def_names(body: Seq<Stmt>, path: Seq<char>, n: int) -> Seq<Seq<char>>
    decreases body, n,
{
    if n <= 0 || n > body.len() {
        Seq::empty()
    } else {
        body_def_names(body, path, n - 1) + match body[n - 1] {
            Stmt::ClassDef(k) => body_def_names(k.body@, scoped(path, k.name@), k.body@.len() as int),
            Stmt::FunctionDef(f) => seq![dotted(path, f.name@)],
            _ => Seq::empty(),
        }
    }
}

/// The dotted paths of every function defined in a class, in the classes
/// nested in it too: `current` is the path of the enclosing scope and becomes
/// that of the class; the paths are appended to `names`.
pub fn make_path_def_name(stmt: &StmtClassDef, current: &mut String, names: &mut Vec<String>)
    ensures
        final(current)@ == scoped(old(current)@, stmt.name@),
        views(final(names)@) == views(old(names)@) + body_def_names(
            stmt.body@,
            scoped(old(current)@, stmt.name@),
            stmt.body@.len() as int,
        ),
    decreases stmt,
{
    proof {
        reveal_strlit(".");
        assert("."@ =~= seq!['.']);
    }
    let path = if current.unicode_len() > 0 {
        let mut p = current.clone();
        p.append(".");
        p.append(stmt.name.as_str());
        p
    } else {
        stmt.name.clone()
    };
    *current = path;
    let ghost path = current@;
    let mut i: usize = 0;
    assert(views(names@) =~= views(old(names)@) + body_def_names(stmt.body@, path, 0));
    while i < stmt.body.len()
        invariant
            path == scoped(old(current)@, stmt.name@),
            current@ == path,
            i <= stmt.body@.len(),
            views(names@) == views(old(names)@) + body_def_names(stmt.body@, path, i as int),
        decreases stmt.body@.len() - i,
    {
        let ghost before = views(names@);
        match &stmt.body[i] {
            Stmt::ClassDef(k) => {
                let tmp = current.clone();
                make_path_def_name(k, current, names);
                *current = tmp;
            },
            Stmt::FunctionDef(f) => {
                proof {
                    reveal_strlit(".");
                    assert("."@ =~= seq!['.']);
                }
                let mut n = current.clone();
                n.append(".");
                n.append(f.name.as_str());
                names.push(n);
                proof {
                    assert(views(names@) =~= before.push(dotted(path, f.name@)));
                }
            },
            _ => {},
        }
        proof {
            assert(views(names@) =~= views(old(names)@) + body_def_names(stmt.body@, path, i + 1));
        }
        i = i + 1;
    }
}

} // verus!
