//! The test unit enumerator: the dotted names that naming conventions make
//! addressable in one source file.

use vstd::prelude::*;
use crate::aggregate::NameSet;
use crate::models::Statements;
use crate::syntax::{Stmt, StmtClassDef, StmtFunctionDef};
use crate::text::{is_prefix_of, starts_with};

verus! {

/// The prefix that marks a function or method as a test.
pub open spec fn test_prefix() -> Seq<char> {
    "test_"@
}

/// The name marks a test.
pub open spec fn is_test_name(n: Seq<char>) -> bool {
    is_prefix_of(test_prefix(), n)
}

/// `a.b`
pub open spec fn dotted(a: Seq<char>, b: Seq<char>) -> Seq<char> {
    a + seq!['.'] + b
}

/// Every strict ancestor package path of the dotted module name `m`: each
/// non-empty part of `m` before one of its dots.
pub open spec fn module_prefixes(m: Seq<char>) -> Set<Seq<char>> {
    Set::new(|s: Seq<char>| exists|k: int| 0 < k < m.len() && m[k] == '.' && s == m.take(k))
}

/// `s` names the module-level test function at index `i`.
pub open spec fn is_test_function(st: Statements, i: int, s: Seq<char>) -> bool {
    let f = st.methods@[i];
    is_test_name(f.name@) && s == dotted(st.module@, f.name@)
}

/// `s` names the test method at index `b` of the body of class `c`.
pub open spec fn is_class_test_method(st: Statements, c: int, b: int, s: Seq<char>) -> bool {
    let class = st.classes@[c];
    match class.body@[b] {
        Stmt::FunctionDef(f) => is_test_name(f.name@) && s == dotted(dotted(st.module@, class.name@), f.name@),
        _ => false,
    }
}

/// Names of the module-level test functions among the first `n`.
pub open spec fn test_functions_upto(st: Statements, n: int) -> Set<Seq<char>> {
    Set::new(|s: Seq<char>| exists|i: int| 0 <= i < n && i < st.methods@.len() && is_test_function(st, i, s))
}

/// Names of the first `n` classes.
pub open spec fn class_nodes_upto(st: Statements, n: int) -> Set<Seq<char>> {
    Set::new(
        |s: Seq<char>|
            exists|c: int| 0 <= c < n && c < st.classes@.len() && s == dotted(st.module@, st.classes@[c].name@),
    )
}

/// Names of the test methods of the classes before `c`, and of the first `b`
/// body statements of class `c`.
pub open spec fn class_methods_upto(st: Statements, c: int, b: int) -> Set<Seq<char>> {
    Set::new(
        |s: Seq<char>|
            exists|ci: int, bi: int|
                0 <= ci < st.classes@.len() && 0 <= bi < st.classes@[ci].body@.len() && (ci < c || (ci == c
                    && bi < b)) && is_class_test_method(st, ci, bi, s),
    )
}

/// Every name that a unit makes addressable: the ancestor packages of its
/// module, the module, its test functions, its classes and their test
/// methods. The unit of an empty file has none.
pub open spec fn candidates(st: Statements) -> Set<Seq<char>> {
    if st.module@.len() == 0 {
        Set::empty()
    } else {
        module_prefixes(st.module@).insert(st.module@).union(
            test_functions_upto(st, st.methods@.len() as int),
        ).union(class_nodes_upto(st, st.classes@.len() as int)).union(
            class_methods_upto(st, st.classes@.len() as int, 0),
        )
    }
}

/// `s` is one of the names that the unit makes addressable.
pub open spec fn is_candidate(st: Statements, s: Seq<char>) -> bool {
    candidates(st).contains(s)
}

/// The dotted name of the module, or of a class or function in it, or of a
/// method of a class.
pub fn make_test_name(
    statements: &Statements,
    class: Option<&StmtClassDef>,
    func: Option<&StmtFunctionDef>,
) -> (r: String)
    ensures
        r@ == ({
            let m = statements.module@;
            let mc = match class {
                Some(c) => dotted(m, c.name@),
                None => m,
            };
            match func {
                Some(f) => dotted(mc, f.name@),
                None => mc,
            }
        }),
{
    proof {
        reveal_strlit(".");
    }
    let mut r = String::from_str(statements.module.as_str());
    match class {
        Some(c) => {
            r.append(".");
            r.append(c.name.as_str());
        },
        None => {},
    }
    match func {
        Some(f) => {
            r.append(".");
            r.append(f.name.as_str());
        },
        None => {},
    }
    proof {
        assert("."@ =~= seq!['.']);
    }
    r
}

proof fn lemma_functions_step(st: Statements, i: int)
    requires
        0 <= i < st.methods@.len(),
    ensures
        forall|s: Seq<char>|
            #[trigger] test_functions_upto(st, i + 1).contains(s) == (test_functions_upto(st, i).contains(s)
                || is_test_function(st, i, s)),
{
    assert forall|s: Seq<char>|
        #[trigger] test_functions_upto(st, i + 1).contains(s) implies (test_functions_upto(st, i).contains(s)
            || is_test_function(st, i, s)) by {
        let k = choose|k: int| 0 <= k < i + 1 && k < st.methods@.len() && is_test_function(st, k, s);
        if k < i {
            assert(test_functions_upto(st, i).contains(s));
        }
    }
}

proof fn lemma_class_nodes_step(st: Statements, c: int)
    requires
        0 <= c < st.classes@.len(),
    ensures
        class_nodes_upto(st, c + 1) == class_nodes_upto(st, c).insert(dotted(st.module@, st.classes@[c].name@)),
{
    assert forall|s: Seq<char>|
        #[trigger] class_nodes_upto(st, c + 1).contains(s) implies class_nodes_upto(st, c).insert(
            dotted(st.module@, st.classes@[c].name@),
        ).contains(s) by {
        let k = choose|k: int| 0 <= k < c + 1 && k < st.classes@.len() && s == dotted(st.module@, st.classes@[k].name@);
        if k < c {
            assert(class_nodes_upto(st, c).contains(s));
        }
    }
    assert(class_nodes_upto(st, c + 1) =~= class_nodes_upto(st, c).insert(dotted(st.module@, st.classes@[c].name@)));
}

proof fn lemma_class_methods_step(st: Statements, c: int, b: int)
    requires
        0 <= c < st.classes@.len(),
        0 <= b < st.classes@[c].body@.len(),
    ensures
        forall|s: Seq<char>|
            #[trigger] class_methods_upto(st, c, b + 1).contains(s) == (class_methods_upto(st, c, b).contains(s)
                || is_class_test_method(st, c, b, s)),
{
    assert forall|s: Seq<char>|
        #[trigger] class_methods_upto(st, c, b + 1).contains(s) implies (class_methods_upto(st, c, b).contains(s)
            || is_class_test_method(st, c, b, s)) by {
        let (ci, bi) = choose|ci: int, bi: int|
            0 <= ci < st.classes@.len() && 0 <= bi < st.classes@[ci].body@.len() && (ci < c || (ci == c && bi < b
                + 1)) && is_class_test_method(st, ci, bi, s);
        if ci < c || bi < b {
            assert(class_methods_upto(st, c, b).contains(s));
        }
    }
    assert forall|s: Seq<char>|
        is_class_test_method(st, c, b, s) implies #[trigger] class_methods_upto(st, c, b + 1).contains(s) by {
        assert(0 <= c < st.classes@.len() && 0 <= b < st.classes@[c].body@.len() && (c < c || (c == c && b < b + 1))
            && is_class_test_method(st, c, b, s));
    }
}

proof fn lemma_class_methods_next(st: Statements, c: int)
    requires
        0 <= c < st.classes@.len(),
    ensures
        class_methods_upto(st, c, st.classes@[c].body@.len() as int) == class_methods_upto(st, c + 1, 0),
{
    let n = st.classes@[c].body@.len() as int;
    assert forall|s: Seq<char>|
        #[trigger] class_methods_upto(st, c + 1, 0).contains(s) implies class_methods_upto(st, c, n).contains(s) by {
        let (ci, bi) = choose|ci: int, bi: int|
            0 <= ci < st.classes@.len() && 0 <= bi < st.classes@[ci].body@.len() && (ci < c + 1 || (ci == c + 1
                && bi < 0)) && is_class_test_method(st, ci, bi, s);
        assert(ci < c || (ci == c && bi < n));
    }
    assert(class_methods_upto(st, c, n) =~= class_methods_upto(st, c + 1, 0));
}

/// Adds every strict ancestor package path of the module name `m`.
fn add_module_prefixes(result: &mut NameSet, m: &str)
    requires
        old(result).wf(),
    ensures
        final(result).wf(),
        final(result)@ == old(result)@.union(module_prefixes(m@)),
{
    let n = m.unicode_len();
    let mut j: usize = 1;
    assert(old(result)@.union(Set::new(|s: Seq<char>| exists|k: int| 0 < k < 1 && m@[k] == '.' && s == m@.take(k)))
        =~= old(result)@);
    while j < n
        invariant
            n == m@.len(),
            1 <= j,
            result.wf(),
            result@ == old(result)@.union(
                Set::new(|s: Seq<char>| exists|k: int| 0 < k < j && k < n && m@[k] == '.' && s == m@.take(k)),
            ),
        decreases n - j,
    {
        let ghost before = result@;
        if m.get_char(j) == '.' {
            let p = String::from_str(m.substring_char(0, j));
            result.insert(p);
        }
        proof {
            let next = Set::new(|s: Seq<char>| exists|k: int| 0 < k < j + 1 && k < n && m@[k] == '.' && s == m@.take(k));
            let prev = Set::new(|s: Seq<char>| exists|k: int| 0 < k < j && k < n && m@[k] == '.' && s == m@.take(k));
            assert forall|s: Seq<char>| #[trigger] next.contains(s) implies prev.contains(s) || (m@[j as int] == '.'
                && s == m@.take(j as int)) by {
                let k = choose|k: int| 0 < k < j + 1 && k < n && m@[k] == '.' && s == m@.take(k);
                if k < j {
                    assert(prev.contains(s));
                }
            }
            if m@[j as int] == '.' {
                assert(next.contains(m@.take(j as int)));
            }
            assert(result@ =~= old(result)@.union(next));
        }
        j = j + 1;
    }
    proof {
        let last = Set::new(|s: Seq<char>| exists|k: int| 0 < k < j && k < n && m@[k] == '.' && s == m@.take(k));
        assert(last =~= module_prefixes(m@));
    }
}

/// Every name that the unit makes addressable: see [`candidates`].
pub fn enumerate_tests(statements: &Statements) -> (r: NameSet)
    ensures
        r.wf(),
        r@ == candidates(*statements),
{
    let ghost st = *statements;
    let mut result = NameSet::new();
    let m = statements.module.as_str();
    if m.unicode_len() == 0 {
        return result;
    }
    add_module_prefixes(&mut result, m);
    result.insert(make_test_name(statements, None, None));
    let ghost base = result@;
    let mut i: usize = 0;
    assert(base.union(test_functions_upto(st, 0)) =~= base);
    while i < statements.methods.len()
        invariant
            st == *statements,
            i <= st.methods@.len(),
            result.wf(),
            result@ == base.union(test_functions_upto(st, i as int)),
        decreases st.methods@.len() - i,
    {
        let f = &statements.methods[i];
        if starts_with(f.name.as_str(), "test_") {
            result.insert(make_test_name(statements, None, Some(f)));
        }
        proof {
            lemma_functions_step(st, i as int);
            assert(result@ =~= base.union(test_functions_upto(st, i + 1)));
        }
        i = i + 1;
    }
    let ghost base2 = result@;
    let mut c: usize = 0;
    assert(base2.union(class_nodes_upto(st, 0)).union(class_methods_upto(st, 0, 0)) =~= base2);
    while c < statements.classes.len()
        invariant
            st == *statements,
            c <= st.classes@.len(),
            result.wf(),
            result@ == base2.union(class_nodes_upto(st, c as int)).union(class_methods_upto(st, c as int, 0)),
        decreases st.classes@.len() - c,
    {
        let class = &statements.classes[c];
        result.insert(make_test_name(statements, Some(class), None));
        proof {
            lemma_class_nodes_step(st, c as int);
            assert(result@ =~= base2.union(class_nodes_upto(st, c + 1)).union(class_methods_upto(st, c as int, 0)));
        }
        let mut b: usize = 0;
        while b < class.body.len()
            invariant
                st == *statements,
                c < st.classes@.len(),
                class == &st.classes@[c as int],
                b <= class.body@.len(),
                result.wf(),
                result@ == base2.union(class_nodes_upto(st, c + 1)).union(class_methods_upto(st, c as int, b as int)),
            decreases class.body@.len() - b,
        {
            match &class.body[b] {
                Stmt::FunctionDef(f) => {
                    if starts_with(f.name.as_str(), "test_") {
                        result.insert(make_test_name(statements, Some(class), Some(f)));
                    }
                },
                _ => {},
            }
            proof {
                lemma_class_methods_step(st, c as int, b as int);
                assert(result@ =~= base2.union(class_nodes_upto(st, c + 1)).union(
                    class_methods_upto(st, c as int, b + 1),
                ));
            }
            b = b + 1;
        }
        proof {
            lemma_class_methods_next(st, c as int);
        }
        c = c + 1;
    }
    proof {
        assert(result@ =~= candidates(st));
    }
    result
}

/// Every ancestor package path of a unit's module and the module itself are
/// candidates, and the empty name never is.
pub proof fn lemma_module_nodes(st: Statements)
    requires
        st.module@.len() > 0,
    ensures
        candidates(st).contains(st.module@),
        forall|k: int|
            0 < k < st.module@.len() && st.module@[k] == '.' ==> candidates(st).contains(#[trigger] st.module@.take(k)),
        !candidates(st).contains(Seq::<char>::empty()),
{
    let m = st.module@;
    assert forall|k: int| 0 < k < m.len() && m[k] == '.' implies candidates(st).contains(#[trigger] m.take(k)) by {
        assert(module_prefixes(m).contains(m.take(k)));
    }
    let e = Seq::<char>::empty();
    if module_prefixes(m).contains(e) {
        let k = choose|k: int| 0 < k < m.len() && m[k] == '.' && e == m.take(k);
        assert(m.take(k).len() == k);
    }
    if test_functions_upto(st, st.methods@.len() as int).contains(e) {
        let i = choose|i: int| 0 <= i < st.methods@.len() && i < st.methods@.len() && is_test_function(st, i, e);
        assert(dotted(m, st.methods@[i].name@).len() > 0);
    }
    if class_nodes_upto(st, st.classes@.len() as int).contains(e) {
        let c = choose|c: int| 0 <= c < st.classes@.len() && c < st.classes@.len() && e == dotted(m, st.classes@[c].name@);
        assert(dotted(m, st.classes@[c].name@).len() > 0);
    }
    if class_methods_upto(st, st.classes@.len() as int, 0).contains(e) {
        let (ci, bi) = choose|ci: int, bi: int|
            0 <= ci < st.classes@.len() && 0 <= bi < st.classes@[ci].body@.len() && (ci < st.classes@.len() || (ci
                == st.classes@.len() && bi < 0)) && is_class_test_method(st, ci, bi, e);
        match st.classes@[ci].body@[bi] {
            Stmt::FunctionDef(f) => {
                assert(dotted(dotted(m, st.classes@[ci].name@), f.name@).len() > 0);
            },
            _ => {},
        }
    }
}

/// A unit with no module name, as that of an empty file, has no candidates.
pub proof fn lemma_empty_unit_has_no_candidates(st: Statements)
    requires
        st.module@.len() == 0,
    ensures
        candidates(st) == Set::<Seq<char>>::empty(),
{
}

/// A name without dots, as every Python identifier is.
pub open spec fn is_identifier(n: Seq<char>) -> bool {
    forall|k: int| 0 <= k < n.len() ==> n[k] != '.'
}

/// Every class and function name of the unit is an identifier.
pub open spec fn names_are_identifiers(st: Statements) -> bool {
    &&& forall|i: int| 0 <= i < st.methods@.len() ==> is_identifier(#[trigger] st.methods@[i].name@)
    &&& forall|c: int| 0 <= c < st.classes@.len() ==> is_identifier(#[trigger] st.classes@[c].name@)
    &&& forall|c: int, b: int|
        0 <= c < st.classes@.len() && 0 <= b < st.classes@[c].body@.len() ==> match #[trigger] st.classes@[c].body@[b] {
            Stmt::FunctionDef(f) => is_identifier(f.name@),
            _ => true,
        }
}

proof fn lemma_dotted_layout(a: Seq<char>, b: Seq<char>)
    ensures
        dotted(a, b).len() == a.len() + 1 + b.len(),
        dotted(a, b)[a.len() as int] == '.',
        forall|j: int| 0 <= j < a.len() ==> #[trigger] dotted(a, b)[j] == a[j],
        forall|j: int| 0 <= j < b.len() ==> #[trigger] dotted(a, b)[a.len() + 1 + j] == b[j],
{
}

/// A method of a class is a candidate exactly when its name carries the
/// test prefix, provided names are identifiers.
pub proof fn lemma_method_candidate_iff_prefixed(st: Statements, c: int, b: int)
    requires
        names_are_identifiers(st),
        st.module@.len() > 0,
        0 <= c < st.classes@.len(),
        0 <= b < st.classes@[c].body@.len(),
        st.classes@[c].body@[b] is FunctionDef,
    ensures
        ({
            let f = st.classes@[c].body@[b]->FunctionDef_0;
            candidates(st).contains(dotted(dotted(st.module@, st.classes@[c].name@), f.name@)) == is_test_name(
                f.name@,
            )
        }),
{
    let m = st.module@;
    let cn = st.classes@[c].name@;
    let f = st.classes@[c].body@[b]->FunctionDef_0;
    let fname = f.name@;
    let mc = dotted(m, cn);
    let s = dotted(mc, fname);
    let l = m.len() as int + 1;
    lemma_dotted_layout(m, cn);
    lemma_dotted_layout(mc, fname);
    assert(is_identifier(cn));
    let n_classes = st.classes@.len() as int;
    if is_test_name(fname) {
        assert(is_class_test_method(st, c, b, s));
        assert(class_methods_upto(st, n_classes, 0).contains(s));
    } else {
        if module_prefixes(m).contains(s) {
            let k = choose|k: int| 0 < k < m.len() && m[k] == '.' && s == m.take(k);
        }
        if test_functions_upto(st, st.methods@.len() as int).contains(s) {
            let i = choose|i: int| 0 <= i < st.methods@.len() && i < st.methods@.len() && is_test_function(st, i, s);
            let g = st.methods@[i].name@;
            lemma_dotted_layout(m, g);
            assert(is_identifier(g));
            assert(s[l + cn.len()] == '.');
            assert(dotted(m, g)[l + cn.len()] == g[cn.len() as int]);
        }
        if class_nodes_upto(st, n_classes).contains(s) {
            let c2 = choose|c2: int| 0 <= c2 < n_classes && c2 < st.classes@.len() && s == dotted(m, st.classes@[c2].name@);
            let g = st.classes@[c2].name@;
            lemma_dotted_layout(m, g);
            assert(is_identifier(g));
            assert(s[l + cn.len()] == '.');
            assert(dotted(m, g)[l + cn.len()] == g[cn.len() as int]);
        }
        if class_methods_upto(st, n_classes, 0).contains(s) {
            let (c2, b2) = choose|c2: int, b2: int|
                0 <= c2 < st.classes@.len() && 0 <= b2 < st.classes@[c2].body@.len() && (c2 < n_classes || (c2
                    == n_classes && b2 < 0)) && is_class_test_method(st, c2, b2, s);
            let f2 = st.classes@[c2].body@[b2]->FunctionDef_0;
            let cn2 = st.classes@[c2].name@;
            let mc2 = dotted(m, cn2);
            assert(is_identifier(cn2));
            assert(is_identifier(f2.name@));
            lemma_dotted_layout(m, cn2);
            lemma_dotted_layout(mc2, f2.name@);
            let s2 = dotted(mc2, f2.name@);
            assert(s == s2);
            if cn.len() < cn2.len() {
                assert(s[l + cn.len()] == '.');
                assert(s2[l + cn.len()] == cn2[cn.len() as int]);
            } else if cn2.len() < cn.len() {
                assert(s2[l + cn2.len()] == '.');
                assert(s[l + cn2.len()] == cn[cn2.len() as int]);
            } else {
                assert forall|j: int| 0 <= j < fname.len() implies fname[j] == f2.name@[j] by {
                    assert(s[mc.len() + 1 + j] == fname[j]);
                    assert(s2[mc2.len() + 1 + j] == f2.name@[j]);
                }
                assert(fname =~= f2.name@);
            }
        }
    }
}

} // verus!
