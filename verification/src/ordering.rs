//! The order of strings (`Ord` for `String`: lexicographic by character) and sorting.
use vstd::prelude::*;

use crate::text::chars_of;
use crate::validation::strs;

verus! {

/// `a` comes strictly before `b`: at the first position where they differ, `a` has the
/// smaller character, or `a` is a proper prefix of `b`. Comparing UTF-8 bytes gives the
/// same order as comparing characters.
pub open spec fn str_less(a: Seq<char>, b: Seq<char>) -> bool
    decreases a.len(),
{
    if b.len() == 0 {
        false
    } else if a.len() == 0 {
        true
    } else if a[0] != b[0] {
        (a[0] as int) < (b[0] as int)
    } else {
        str_less(a.drop_first(), b.drop_first())
    }
}

pub proof fn lemma_str_less_irreflexive(a: Seq<char>)
    ensures
        !str_less(a, a),
    decreases a.len(),
{
    if a.len() > 0 {
        lemma_str_less_irreflexive(a.drop_first());
    }
}

pub proof fn lemma_str_less_transitive(a: Seq<char>, b: Seq<char>, c: Seq<char>)
    requires
        str_less(a, b),
        str_less(b, c),
    ensures
        str_less(a, c),
    decreases a.len(),
{
    if a.len() > 0 && b.len() > 0 && c.len() > 0 && a[0] == b[0] && b[0] == c[0] {
        lemma_str_less_transitive(a.drop_first(), b.drop_first(), c.drop_first());
    }
}

pub proof fn lemma_str_less_total(a: Seq<char>, b: Seq<char>)
    requires
        a != b,
    ensures
        str_less(a, b) || str_less(b, a),
    decreases a.len(),
{
    if a.len() == 0 && b.len() == 0 {
        assert(a =~= b);
    } else if a.len() > 0 && b.len() > 0 && a[0] == b[0] {
        if a.drop_first() == b.drop_first() {
            assert(a =~= seq![a[0]] + a.drop_first());
            assert(b =~= seq![b[0]] + b.drop_first());
        }
        lemma_str_less_total(a.drop_first(), b.drop_first());
    }
}

pub proof fn lemma_str_less_asymmetric(a: Seq<char>, b: Seq<char>)
    requires
        str_less(a, b),
    ensures
        !str_less(b, a),
{
    if str_less(b, a) {
        lemma_str_less_transitive(a, b, a);
        lemma_str_less_irreflexive(a);
    }
}

/// Compares two strings: whether `a` comes strictly before `b`.
pub fn str_lt(a: &str, b: &str) -> (r: bool)
    ensures
        r == str_less(a@, b@),
{
    let x = chars_of(a);
    let y = chars_of(b);
    let mut i: usize = 0;
    assert(x@.skip(0) =~= x@);
    assert(y@.skip(0) =~= y@);
    while i < x.len() && i < y.len() && x[i] == y[i]
        invariant
            i <= x@.len(),
            i <= y@.len(),
            x@ == a@,
            y@ == b@,
            str_less(a@, b@) == str_less(x@.skip(i as int), y@.skip(i as int)),
        decreases x.len() - i,
    {
        assert(x@.skip(i as int).drop_first() =~= x@.skip(i + 1));
        assert(y@.skip(i as int).drop_first() =~= y@.skip(i + 1));
        i = i + 1;
    }
    if i == y.len() {
        false
    } else if i == x.len() {
        true
    } else {
        assert(x@.skip(i as int)[0] == x@[i as int]);
        assert(y@.skip(i as int)[0] == y@[i as int]);
        x[i] < y[i]
    }
}

/// Every element comes strictly before every later one.
pub open spec fn strictly_sorted(s: Seq<Seq<char>>) -> bool {
    forall|i: int, j: int| 0 <= i < j < s.len() ==> str_less(#[trigger] s[i], #[trigger] s[j])
}

/// The strings of a finite set in increasing order.
pub open spec fn sorted_set(s: Set<Seq<char>>) -> Seq<Seq<char>> {
    choose|l: Seq<Seq<char>>| strictly_sorted(l) && l.to_set() == s
}

proof fn lemma_sorted_first_not_in_rest(a: Seq<Seq<char>>)
    requires
        strictly_sorted(a),
        a.len() > 0,
    ensures
        !a.drop_first().contains(a[0]),
        a.drop_first().to_set() == a.to_set().remove(a[0]),
        strictly_sorted(a.drop_first()),
{
    if a.drop_first().contains(a[0]) {
        let k = choose|k: int| 0 <= k < a.drop_first().len() && a.drop_first()[k] == a[0];
        assert(str_less(a[0], a[k + 1]));
        lemma_str_less_irreflexive(a[0]);
    }
    assert forall|x: Seq<char>| a.drop_first().to_set().contains(x) == a.to_set().remove(a[0]).contains(x) by {
        if a.drop_first().contains(x) {
            let k = choose|k: int| 0 <= k < a.drop_first().len() && a.drop_first()[k] == x;
            assert(a[k + 1] == x);
        }
        if a.contains(x) && x != a[0] {
            let k = choose|k: int| 0 <= k < a.len() && a[k] == x;
            assert(a.drop_first()[k - 1] == x);
        }
    }
    assert(a.drop_first().to_set() =~= a.to_set().remove(a[0]));
    assert forall|i: int, j: int| 0 <= i < j < a.drop_first().len() implies str_less(
        #[trigger] a.drop_first()[i],
        #[trigger] a.drop_first()[j],
    ) by {
        assert(str_less(a[i + 1], a[j + 1]));
    }
}

/// Two increasing sequences with the same elements are equal.
pub proof fn lemma_sorted_unique(a: Seq<Seq<char>>, b: Seq<Seq<char>>)
    requires
        strictly_sorted(a),
        strictly_sorted(b),
        a.to_set() == b.to_set(),
    ensures
        a == b,
    decreases a.len(),
{
    if a.len() == 0 {
        if b.len() > 0 {
            assert(b.to_set().contains(b[0]));
        }
        assert(a =~= b);
    } else {
        assert(a.to_set().contains(a[0]));
        assert(b.len() > 0);
        assert(b.to_set().contains(b[0]));
        let j = choose|j: int| 0 <= j < b.len() && b[j] == a[0];
        let k = choose|k: int| 0 <= k < a.len() && a[k] == b[0];
        if j > 0 && k > 0 {
            assert(str_less(b[0], b[j]));
            assert(str_less(a[0], a[k]));
            lemma_str_less_asymmetric(a[0], b[0]);
        } else if j > 0 {
            assert(str_less(b[0], b[j]));
            lemma_str_less_irreflexive(a[0]);
        } else if k > 0 {
            assert(str_less(a[0], a[k]));
            lemma_str_less_irreflexive(a[0]);
        }
        assert(a[0] == b[0]);
        lemma_sorted_first_not_in_rest(a);
        lemma_sorted_first_not_in_rest(b);
        lemma_sorted_unique(a.drop_first(), b.drop_first());
        assert(a =~= seq![a[0]] + a.drop_first());
        assert(b =~= seq![b[0]] + b.drop_first());
    }
}

/// The distinct strings of `v` in increasing order.
pub fn sort_distinct(v: &Vec<String>) -> (r: Vec<String>)
    ensures
        strictly_sorted(strs(r@)),
        strs(r@).to_set() == strs(v@).to_set(),
        strs(r@) == sorted_set(strs(v@).to_set()),
{
    let mut out: Vec<String> = Vec::new();
    let mut i: usize = 0;
    while i < v.len()
        invariant
            i <= v@.len(),
            strictly_sorted(strs(out@)),
            strs(out@).to_set() == strs(v@.take(i as int)).to_set(),
        decreases v.len() - i,
    {
        let x = &v[i];
        let ghost o = strs(out@);
        // Find the first position whose element is not smaller than `x`.
        let mut j: usize = 0;
        while j < out.len() && str_lt(out[j].as_str(), x.as_str())
            invariant
                j <= out@.len(),
                o == strs(out@),
                forall|k: int| 0 <= k < j ==> str_less(#[trigger] o[k], x@),
            decreases out.len() - j,
        {
            j = j + 1;
        }
        proof {
            assert(strs(v@.take(i + 1)) =~= strs(v@.take(i as int)).push(x@));
            strs(v@.take(i as int)).lemma_push_to_set_commute(x@);
        }
        if j < out.len() && !str_lt(x.as_str(), out[j].as_str()) {
            // `out[j]` equals `x`: nothing to insert.
            proof {
                lemma_str_less_total_eq(o[j as int], x@);
                assert(o.to_set().contains(x@));
                assert(o.to_set() =~= o.to_set().insert(x@));
            }
        } else {
            let ghost before = o;
            out.insert(j, x.clone());
            proof {
                let n = strs(out@);
                assert(n =~= before.insert(j as int, x@));
                assert forall|a: int, b: int| 0 <= a < b < n.len() implies str_less(#[trigger] n[a], #[trigger] n[b]) by {
                    if b < j {
                    } else if a < j && b == j {
                    } else if a < j && b > j {
                        assert(n[b] == before[b - 1]);
                        assert(str_less(before[a], before[b - 1]));
                    } else if a == j {
                        assert(n[b] == before[b - 1]);
                        assert(str_less(x@, before[j as int]));
                        if b - 1 > j {
                            assert(str_less(before[j as int], before[b - 1]));
                            lemma_str_less_transitive(x@, before[j as int], before[b - 1]);
                        }
                    } else {
                        assert(n[a] == before[a - 1]);
                        assert(n[b] == before[b - 1]);
                    }
                }
                assert forall|y: Seq<char>| n.to_set().contains(y) == before.to_set().insert(x@).contains(y) by {
                    if n.contains(y) {
                        let k = choose|k: int| 0 <= k < n.len() && n[k] == y;
                        if k < j {
                            assert(before[k] == y);
                        } else if k > j {
                            assert(before[k - 1] == y);
                        }
                    }
                    if before.contains(y) {
                        let k = choose|k: int| 0 <= k < before.len() && before[k] == y;
                        if k < j {
                            assert(n[k] == y);
                        } else {
                            assert(n[k + 1] == y);
                        }
                    }
                    if y == x@ {
                        assert(n[j as int] == y);
                    }
                }
                assert(n.to_set() =~= before.to_set().insert(x@));
            }
        }
        i = i + 1;
    }
    proof {
        assert(v@.take(v@.len() as int) =~= v@);
        lemma_sorted_unique(strs(out@), sorted_set(strs(v@).to_set()));
    }
    out
}

proof fn lemma_str_less_total_eq(a: Seq<char>, b: Seq<char>)
    requires
        !str_less(a, b),
        !str_less(b, a),
    ensures
        a == b,
{
    if a != b {
        lemma_str_less_total(a, b);
    }
}

} // verus!
