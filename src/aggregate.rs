//! The aggregator: sets of dotted names kept in lexicographic byte order,
//! without duplicates.

use vstd::prelude::*;
use vstd::utf8::{encode_utf8, encode_utf8_decode_utf8};
use crate::enumerator::{candidates, enumerate_tests};
use crate::models::Statements;

verus! {

/// Lexicographic order on byte strings: `a` comes strictly before `b`.
pub open spec fn lex_lt(a: Seq<u8>, b: Seq<u8>) -> bool
    decreases a.len(),
{
    if a.len() == 0 {
        b.len() > 0
    } else if b.len() == 0 {
        false
    } else if a[0] != b[0] {
        a[0] < b[0]
    } else {
        lex_lt(a.drop_first(), b.drop_first())
    }
}

/// The order of names: lexicographic over their UTF-8 bytes, which is also
/// the order of their code points.
pub open spec fn name_lt(a: Seq<char>, b: Seq<char>) -> bool {
    lex_lt(encode_utf8(a), encode_utf8(b))
}

/// `s` lists names in strictly increasing order.
pub open spec fn strictly_sorted(s: Seq<Seq<char>>) -> bool {
    forall|i: int, j: int| 0 <= i < j < s.len() ==> name_lt(s[i], s[j])
}

pub proof fn lemma_lex_irreflexive(a: Seq<u8>)
    ensures
        !lex_lt(a, a),
    decreases a.len(),
{
    if a.len() > 0 {
        lemma_lex_irreflexive(a.drop_first());
    }
}

pub proof fn lemma_lex_transitive(a: Seq<u8>, b: Seq<u8>, c: Seq<u8>)
    requires
        lex_lt(a, b),
        lex_lt(b, c),
    ensures
        lex_lt(a, c),
    decreases a.len(),
{
    if a.len() > 0 && b.len() > 0 && c.len() > 0 && a[0] == b[0] && b[0] == c[0] {
        lemma_lex_transitive(a.drop_first(), b.drop_first(), c.drop_first());
    }
}

pub proof fn lemma_lex_total(a: Seq<u8>, b: Seq<u8>)
    ensures
        a == b || lex_lt(a, b) || lex_lt(b, a),
    decreases a.len(),
{
    if a.len() > 0 && b.len() > 0 && a[0] == b[0] {
        lemma_lex_total(a.drop_first(), b.drop_first());
        if a.drop_first() == b.drop_first() {
            assert forall|k: int| 0 <= k < a.len() implies a[k] == b[k] by {
                if k > 0 {
                    assert(a[k] == a.drop_first()[k - 1]);
                    assert(b[k] == b.drop_first()[k - 1]);
                }
            }
            assert(a =~= b);
        }
    } else if a.len() == 0 && b.len() == 0 {
        assert(a =~= b);
    }
}

pub proof fn lemma_lex_asymmetric(a: Seq<u8>, b: Seq<u8>)
    requires
        lex_lt(a, b),
    ensures
        !lex_lt(b, a),
{
    if lex_lt(b, a) {
        lemma_lex_transitive(a, b, a);
        lemma_lex_irreflexive(a);
    }
}

/// Two names are ordered one way or the other unless they are equal.
pub proof fn lemma_name_total(a: Seq<char>, b: Seq<char>)
    ensures
        a == b || name_lt(a, b) || name_lt(b, a),
        !name_lt(a, a),
{
    lemma_lex_total(encode_utf8(a), encode_utf8(b));
    lemma_lex_irreflexive(encode_utf8(a));
    if encode_utf8(a) == encode_utf8(b) {
        encode_utf8_decode_utf8(a);
        encode_utf8_decode_utf8(b);
    }
}

/// Skipping a common prefix does not change the order.
proof fn lemma_lex_skip(a: Seq<u8>, b: Seq<u8>, i: int)
    requires
        0 <= i <= a.len(),
        i <= b.len(),
        forall|k: int| 0 <= k < i ==> a[k] == b[k],
    ensures
        lex_lt(a, b) == lex_lt(a.skip(i), b.skip(i)),
    decreases i,
{
    if i > 0 {
        assert(a.drop_first().skip(i - 1) =~= a.skip(i));
        assert(b.drop_first().skip(i - 1) =~= b.skip(i));
        lemma_lex_skip(a.drop_first(), b.drop_first(), i - 1);
    } else {
        assert(a.skip(0) =~= a);
        assert(b.skip(0) =~= b);
    }
}

/// Whether the bytes `a` come strictly before the bytes `b`.
fn bytes_lt(a: &[u8], b: &[u8]) -> (r: bool)
    ensures
        r == lex_lt(a@, b@),
{
    let mut i: usize = 0;
    while i < a.len() && i < b.len() && a[i] == b[i]
        invariant
            i <= a@.len(),
            i <= b@.len(),
            forall|k: int| 0 <= k < i ==> a@[k] == b@[k],
        decreases a@.len() - i,
    {
        i = i + 1;
    }
    proof {
        lemma_lex_skip(a@, b@, i as int);
    }
    if i == a.len() {
        i < b.len()
    } else if i == b.len() {
        false
    } else {
        a[i] < b[i]
    }
}

/// Whether the name `a` comes strictly before the name `b`.
pub fn name_less(a: &str, b: &str) -> (r: bool)
    ensures
        r == name_lt(a@, b@),
{
    bytes_lt(a.as_bytes(), b.as_bytes())
}

/// The names of a list of strings.
pub open spec fn views(v: Seq<String>) -> Seq<Seq<char>> {
    v.map_values(|s: String| s@)
}

/// A set of names, listed in strictly increasing order.
pub struct NameSet {
    pub items: Vec<String>,
}

impl View for NameSet {
    type V = Set<Seq<char>>;

    open spec fn view(&self) -> Set<Seq<char>> {
        views(self.items@).to_set()
    }
}

impl NameSet {
    /// The names in increasing order, without repetition.
    pub open spec fn wf(&self) -> bool {
        strictly_sorted(views(self.items@))
    }

    pub fn new() -> (r: Self)
        ensures
            r.wf(),
            r@ == Set::<Seq<char>>::empty(),
    {
        let r = NameSet { items: Vec::new() };
        assert(r@ =~= Set::<Seq<char>>::empty());
        r
    }

    pub fn len(&self) -> (r: usize)
        requires
            self.wf(),
        ensures
            r == self@.len(),
    {
        proof {
            lemma_sorted_distinct(views(self.items@));
            views(self.items@).unique_seq_to_set();
        }
        self.items.len()
    }

    /// The first position whose name does not come before `s`.
    fn position(&self, s: &str) -> (p: usize)
        requires
            self.wf(),
        ensures
            p <= self.items@.len(),
            forall|i: int| 0 <= i < p ==> name_lt(self.items@[i]@, s@),
            forall|j: int| p <= j < self.items@.len() ==> !name_lt(self.items@[j]@, s@),
    {
        let mut lo: usize = 0;
        let mut hi: usize = self.items.len();
        while lo < hi
            invariant
                self.wf(),
                lo <= hi <= self.items@.len(),
                forall|i: int| 0 <= i < lo ==> name_lt(self.items@[i]@, s@),
                forall|j: int| hi <= j < self.items@.len() ==> !name_lt(self.items@[j]@, s@),
            decreases hi - lo,
        {
            let mid = lo + (hi - lo) / 2;
            if name_less(self.items[mid].as_str(), s) {
                proof {
                    assert forall|i: int| 0 <= i < mid + 1 implies name_lt(self.items@[i]@, s@) by {
                        if i < mid {
                            assert(name_lt(views(self.items@)[i], views(self.items@)[mid as int]));
                            lemma_lex_transitive(
                                encode_utf8(self.items@[i]@),
                                encode_utf8(self.items@[mid as int]@),
                                encode_utf8(s@),
                            );
                        }
                    }
                }
                lo = mid + 1;
            } else {
                proof {
                    assert forall|j: int| mid <= j < self.items@.len() implies !name_lt(self.items@[j]@, s@) by {
                        if j > mid {
                            assert(name_lt(views(self.items@)[mid as int], views(self.items@)[j]));
                            if name_lt(self.items@[j]@, s@) {
                                lemma_lex_transitive(
                                    encode_utf8(self.items@[mid as int]@),
                                    encode_utf8(self.items@[j]@),
                                    encode_utf8(s@),
                                );
                            }
                        }
                    }
                }
                hi = mid;
            }
        }
        lo
    }

    /// Whether the set holds the name `s`.
    pub fn contains(&self, s: &str) -> (r: bool)
        requires
            self.wf(),
        ensures
            r == self@.contains(s@),
    {
        let p = self.position(s);
        let r = p < self.items.len() && crate::text::str_eq(self.items[p].as_str(), s);
        proof {
            if self@.contains(s@) {
                let k = choose|k: int| 0 <= k < views(self.items@).len() && views(self.items@)[k] == s@;
                lemma_name_total(s@, s@);
                if k < p {
                    assert(name_lt(self.items@[k]@, s@));
                }
                if k > p {
                    assert(name_lt(views(self.items@)[p as int], views(self.items@)[k]));
                    lemma_name_total(self.items@[p as int]@, s@);
                    if name_lt(s@, self.items@[p as int]@) {
                        lemma_lex_asymmetric(encode_utf8(s@), encode_utf8(self.items@[p as int]@));
                    }
                }
            }
            if r {
                assert(views(self.items@)[p as int] == s@);
            }
        }
        r
    }

    /// Adds the name `s`; a name already present stays once.
    pub fn insert(&mut self, s: String)
        requires
            old(self).wf(),
        ensures
            final(self).wf(),
            final(self)@ == old(self)@.insert(s@),
    {
        let p = self.position(s.as_str());
        if p < self.items.len() && crate::text::str_eq(self.items[p].as_str(), s.as_str()) {
            proof {
                assert(views(self.items@)[p as int] == s@);
                assert(self@ =~= old(self)@.insert(s@));
            }
            return;
        }
        let ghost old_names = views(self.items@);
        proof {
            if p < self.items@.len() {
                lemma_name_total(self.items@[p as int]@, s@);
            }
        }
        self.items.insert(p, s);
        proof {
            let names = views(self.items@);
            assert(names =~= old_names.insert(p as int, s@));
            assert forall|i: int, j: int| 0 <= i < j < names.len() implies name_lt(names[i], names[j]) by {
                if j < p {
                    assert(name_lt(old_names[i], old_names[j]));
                } else if j == p {
                } else if i < p {
                    assert(name_lt(old_names[i], s@));
                    lemma_name_total(old_names[p as int], s@);
                    assert(name_lt(s@, old_names[p as int]));
                    if j - 1 > p {
                        assert(name_lt(old_names[p as int], old_names[j - 1]));
                        lemma_lex_transitive(encode_utf8(s@), encode_utf8(old_names[p as int]), encode_utf8(old_names[j - 1]));
                    }
                    lemma_lex_transitive(encode_utf8(old_names[i]), encode_utf8(s@), encode_utf8(old_names[j - 1]));
                } else if i == p {
                    lemma_name_total(old_names[p as int], s@);
                    if j - 1 > p {
                        assert(name_lt(old_names[p as int], old_names[j - 1]));
                        lemma_lex_transitive(encode_utf8(s@), encode_utf8(old_names[p as int]), encode_utf8(old_names[j - 1]));
                    }
                } else {
                    assert(name_lt(old_names[i - 1], old_names[j - 1]));
                }
            }
            assert(names[p as int] == s@);
            assert forall|x: Seq<char>| #[trigger] names.contains(x) == (old_names.contains(x) || x == s@) by {
                if old_names.contains(x) {
                    let k = choose|k: int| 0 <= k < old_names.len() && old_names[k] == x;
                    if k < p {
                        assert(names[k] == x);
                    } else {
                        assert(names[k + 1] == x);
                    }
                }
                if names.contains(x) {
                    let k = choose|k: int| 0 <= k < names.len() && names[k] == x;
                    if k < p {
                        assert(old_names[k] == x);
                    } else if k > p {
                        assert(old_names[k - 1] == x);
                    }
                }
            }
            assert(self@ =~= old(self)@.insert(s@));
        }
    }

    /// Adds every name of `other`.
    pub fn extend(&mut self, other: &NameSet)
        requires
            old(self).wf(),
        ensures
            final(self).wf(),
            final(self)@ == old(self)@.union(other@),
    {
        let mut i: usize = 0;
        while i < other.items.len()
            invariant
                self.wf(),
                i <= other.items@.len(),
                self@ == old(self)@.union(views(other.items@.take(i as int)).to_set()),
            decreases other.items@.len() - i,
        {
            let s = other.items[i].clone();
            self.insert(s);
            proof {
                assert(views(other.items@.take(i + 1)) =~= views(other.items@.take(i as int)).push(s@));
                views(other.items@.take(i as int)).lemma_push_to_set_commute(s@);
                assert(self@ =~= old(self)@.union(views(other.items@.take(i + 1)).to_set()));
            }
            i = i + 1;
        }
        assert(other.items@.take(i as int) =~= other.items@);
    }

    /// The names, in increasing order.
    pub fn into_vec(self) -> (r: Vec<String>)
        ensures
            views(r@) == views(self.items@),
    {
        self.items
    }
}

/// A strictly sorted list holds no name twice.
pub proof fn lemma_sorted_distinct(s: Seq<Seq<char>>)
    requires
        strictly_sorted(s),
    ensures
        s.no_duplicates(),
{
    assert forall|i: int, j: int| 0 <= i < s.len() && 0 <= j < s.len() && i != j implies s[i] != s[j] by {
        lemma_name_total(s[i], s[i]);
        if i < j {
            assert(name_lt(s[i], s[j]));
        } else {
            assert(name_lt(s[j], s[i]));
        }
    }
}

/// Two strictly sorted lists of the same names are equal.
pub proof fn lemma_sorted_unique(a: Seq<Seq<char>>, b: Seq<Seq<char>>)
    requires
        strictly_sorted(a),
        strictly_sorted(b),
        a.to_set() == b.to_set(),
    ensures
        a == b,
    decreases a.len(),
{
    if a.len() == 0 {
        if b.len() > 0 {
            assert(b.to_set().contains(b[0]));
        }
        assert(a =~= b);
    } else {
        assert(a.to_set().contains(a[0]));
        let j = choose|j: int| 0 <= j < b.len() && b[j] == a[0];
        assert(b.to_set().contains(b[0]));
        let i = choose|i: int| 0 <= i < a.len() && a[i] == b[0];
        lemma_name_total(a[0], a[0]);
        if j > 0 {
            assert(name_lt(b[0], b[j]));
            if i > 0 {
                assert(name_lt(a[0], a[i]));
                lemma_lex_asymmetric(encode_utf8(a[0]), encode_utf8(a[i]));
            }
        }
        assert(a[0] == b[0]);
        let a1 = a.drop_first();
        let b1 = b.drop_first();
        assert forall|x: Seq<char>| a1.to_set().contains(x) implies b1.to_set().contains(x) by {
            let k = choose|k: int| 0 <= k < a1.len() && a1[k] == x;
            assert(name_lt(a[0], a[k + 1]));
            assert(a.to_set().contains(x));
            let m = choose|m: int| 0 <= m < b.len() && b[m] == x;
            assert(m != 0);
            assert(b1[m - 1] == x);
        }
        assert forall|x: Seq<char>| b1.to_set().contains(x) implies a1.to_set().contains(x) by {
            let k = choose|k: int| 0 <= k < b1.len() && b1[k] == x;
            assert(name_lt(b[0], b[k + 1]));
            assert(b.to_set().contains(x));
            let m = choose|m: int| 0 <= m < a.len() && a[m] == x;
            assert(m != 0);
            assert(a1[m - 1] == x);
        }
        assert(a1.to_set() =~= b1.to_set());
        lemma_sorted_unique(a1, b1);
        assert forall|k: int| 0 <= k < a.len() implies a[k] == b[k] by {
            if k > 0 {
                assert(a[k] == a1[k - 1]);
                assert(b[k] == b1[k - 1]);
            }
        }
        assert(a =~= b);
    }
}

/// The union of the candidate sets of the units.
pub open spec fn all_candidates(units: Seq<Statements>) -> Set<Seq<char>>
    decreases units.len(),
{
    if units.len() == 0 {
        Set::empty()
    } else {
        all_candidates(units.drop_last()).union(candidates(units.last()))
    }
}

/// `out` is what a scan over the units yields: every candidate name of every
/// unit, once, in increasing order.
pub open spec fn scan_output(units: Seq<Statements>, out: Seq<Seq<char>>) -> bool {
    strictly_sorted(out) && out.to_set() == all_candidates(units)
}

/// Merges the candidate names of all units into one sorted list without
/// duplicates.
pub fn collect_tests(units: &Vec<Statements>) -> (r: Vec<String>)
    ensures
        scan_output(units@, views(r@)),
{
    let mut all = NameSet::new();
    let mut i: usize = 0;
    while i < units.len()
        invariant
            i <= units@.len(),
            all.wf(),
            all@ == all_candidates(units@.take(i as int)),
        decreases units@.len() - i,
    {
        let tests = enumerate_tests(&units[i]);
        all.extend(&tests);
        assert(units@.take(i + 1).drop_last() =~= units@.take(i as int));
        i = i + 1;
    }
    assert(units@.take(i as int) =~= units@);
    all.into_vec()
}

/// Scanning the same units twice yields the same output: the output is the
/// one strictly sorted listing of the candidate names.
pub proof fn lemma_scan_deterministic(units: Seq<Statements>, a: Seq<Seq<char>>, b: Seq<Seq<char>>)
    requires
        scan_output(units, a),
        scan_output(units, b),
    ensures
        a == b,
{
    lemma_sorted_unique(a, b);
}

} // verus!
