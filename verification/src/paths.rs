//! File paths through `std::path::Path`: their order, equality and joining, and the
//! ordering of source locations.
use vstd::prelude::*;
use vstd::string::*;

use crate::{loc_view, locs_view};

verus! {

/// Whether `Path::new(a).cmp(Path::new(b))` is `Less` (paths compare by their
/// components).
pub uninterp spec fn path_precedes(a: Seq<char>, b: Seq<char>) -> bool;

/// Whether `Path::new(a).cmp(Path::new(b))` is `Equal` (the components are equal).
pub uninterp spec fn path_same(a: Seq<char>, b: Seq<char>) -> bool;

/// What `Path::new(base).join(p)` gives, written back as text.
pub uninterp spec fn joined_path(base: Seq<char>, p: Seq<char>) -> Seq<char>;

/// Whether `Path::new(p).is_absolute()`.
pub uninterp spec fn path_absolute(p: Seq<char>) -> bool;

/// The last component of `Path::new(p)` (`Path::file_name`), as text.
pub uninterp spec fn file_name_of(p: Seq<char>) -> Option<Seq<char>>;

/// `Path::new(p).with_file_name(name)`, as text.
pub uninterp spec fn with_file_name(p: Seq<char>, name: Seq<char>) -> Seq<char>;

/// Asks `Path::file_name`; the contract names the answer.
#[verifier::external_body]
pub(crate) fn path_file_name(p: &str) -> (r: Option<String>)
    ensures
        match r {
            Some(n) => file_name_of(p@) == Some(n@),
            None => file_name_of(p@) is None,
        },
{
    std::path::Path::new(p).file_name().map(|n| n.to_string_lossy().into_owned())
}

/// Replaces the last component with `Path::with_file_name`; the contract names the
/// result.
#[verifier::external_body]
pub(crate) fn path_with_file_name(p: &str, name: &str) -> (r: String)
    ensures
        r@ == with_file_name(p@, name@),
{
    std::path::Path::new(p).with_file_name(name).to_string_lossy().into_owned()
}

/// What `Ord` promises of `a < b`: `b` is neither before nor equal to `a`, and whatever
/// comes before or equals `a` comes before `b` (transitivity).
pub open spec fn less_laws(a: Seq<char>, b: Seq<char>) -> bool {
    &&& !path_precedes(b, a)
    &&& !path_same(b, a)
    &&& forall|c: Seq<char>| #[trigger] path_precedes(c, a) ==> path_precedes(c, b)
    &&& forall|c: Seq<char>| #[trigger] path_same(c, a) ==> path_precedes(c, b)
}

/// What `Ord` promises of `a == b`: `b` equals `a`, is not before it, and every path
/// comes before or equals `a` exactly when it does so for `b`.
pub open spec fn equal_laws(a: Seq<char>, b: Seq<char>) -> bool {
    &&& path_same(b, a)
    &&& !path_precedes(b, a)
    &&& forall|c: Seq<char>| #[trigger] path_precedes(c, a) == path_precedes(c, b)
    &&& forall|c: Seq<char>| #[trigger] path_same(c, a) == path_same(c, b)
}

/// Compares two paths with `Ord::cmp` for `Path`: 0 for `Less`, 1 for `Equal`, 2 for
/// `Greater`. The contract names the answer and states, for the two paths, the laws of a
/// total order that `Ord` requires of every implementation (one answer, duality,
/// transitivity, consistency of equality).
#[verifier::external_body]
pub(crate) fn path_order(a: &str, b: &str) -> (r: u8)
    ensures
        r <= 2,
        (r == 0) == path_precedes(a@, b@),
        (r == 1) == path_same(a@, b@),
        (r == 2) == path_precedes(b@, a@),
        r == 0 ==> less_laws(a@, b@),
        r == 1 ==> equal_laws(a@, b@),
{
    match std::path::Path::new(a).cmp(std::path::Path::new(b)) {
        std::cmp::Ordering::Less => 0,
        std::cmp::Ordering::Equal => 1,
        std::cmp::Ordering::Greater => 2,
    }
}

/// Joins `p` to `base` with `Path::join` (lossy text of the result); the contract names
/// the result.
#[verifier::external_body]
pub(crate) fn path_join(base: &str, p: &str) -> (r: String)
    ensures
        r@ == joined_path(base@, p@),
{
    std::path::Path::new(base).join(p).to_string_lossy().into_owned()
}

/// Asks `Path::is_absolute`; the contract names the answer.
#[verifier::external_body]
pub(crate) fn path_is_absolute(p: &str) -> (r: bool)
    ensures
        r == path_absolute(p@),
{
    std::path::Path::new(p).is_absolute()
}

/// `x` comes before `y`: by path, then by line (the order of `(PathBuf, usize)`).
pub open spec fn loc_before(x: (Seq<char>, usize), y: (Seq<char>, usize)) -> bool {
    path_precedes(x.0, y.0) || (path_same(x.0, y.0) && x.1 < y.1)
}

/// `x` and `y` are the same location (equal paths and lines).
pub open spec fn loc_same(x: (Seq<char>, usize), y: (Seq<char>, usize)) -> bool {
    path_same(x.0, y.0) && x.1 == y.1
}

/// `s` with `x` placed before its first element that `x` comes before.
pub open spec fn insert_loc(x: (Seq<char>, usize), s: Seq<(Seq<char>, usize)>) -> Seq<(Seq<char>, usize)>
    decreases s.len(),
{
    if s.len() == 0 {
        seq![x]
    } else if loc_before(x, s[0]) {
        seq![x] + s
    } else {
        seq![s[0]] + insert_loc(x, s.drop_first())
    }
}

/// Locations in order, each placed after the earlier ones it does not come before: what
/// the stable `slice::sort` gives.
pub open spec fn sort_locs(s: Seq<(Seq<char>, usize)>) -> Seq<(Seq<char>, usize)>
    decreases s.len(),
{
    if s.len() == 0 {
        s
    } else {
        insert_loc(s.last(), sort_locs(s.drop_last()))
    }
}

/// Locations with each run of the same location reduced to its first (`Vec::dedup`).
pub open spec fn dedup_locs(s: Seq<(Seq<char>, usize)>) -> Seq<(Seq<char>, usize)>
    decreases s.len(),
{
    if s.len() <= 1 {
        s
    } else {
        let d = dedup_locs(s.drop_last());
        if loc_same(d.last(), s.last()) {
            d
        } else {
            d.push(s.last())
        }
    }
}

proof fn lemma_dedup_nonempty(s: Seq<(Seq<char>, usize)>)
    ensures
        s.len() > 0 ==> dedup_locs(s).len() > 0,
        s.len() == 0 ==> dedup_locs(s).len() == 0,
    decreases s.len(),
{
    if s.len() > 1 {
        lemma_dedup_nonempty(s.drop_last());
    }
}

/// The position before which `insert_loc` places `x`, found from position `j` on.
proof fn lemma_insert_loc_at(x: (Seq<char>, usize), s: Seq<(Seq<char>, usize)>, j: int)
    requires
        0 <= j <= s.len(),
        forall|k: int| 0 <= k < j ==> !loc_before(x, #[trigger] s[k]),
        j == s.len() || loc_before(x, s[j]),
    ensures
        insert_loc(x, s) == s.take(j) + seq![x] + s.skip(j),
    decreases s.len(),
{
    if s.len() == 0 {
        assert(s.take(j) + seq![x] + s.skip(j) =~= seq![x]);
    } else if j == 0 {
        assert(s.take(0) + seq![x] + s.skip(0) =~= seq![x] + s);
    } else {
        let t = s.drop_first();
        assert forall|k: int| 0 <= k < j - 1 implies !loc_before(x, #[trigger] t[k]) by {
            assert(t[k] == s[k + 1]);
        }
        lemma_insert_loc_at(x, t, j - 1);
        assert(seq![s[0]] + (t.take(j - 1) + seq![x] + t.skip(j - 1)) =~= s.take(j) + seq![x] + s.skip(j));
    }
}

/// The order of locations is a strict order on the elements of `s`: none comes before
/// itself, and it is transitive.
pub open spec fn strict_order_on(s: Seq<(Seq<char>, usize)>) -> bool {
    &&& forall|x: (Seq<char>, usize)| s.contains(x) ==> !loc_before(x, x)
    &&& forall|x: (Seq<char>, usize), y: (Seq<char>, usize), z: (Seq<char>, usize)|
        #![trigger loc_before(x, y), loc_before(y, z)]
        s.contains(x) && s.contains(y) && s.contains(z) && loc_before(x, y) && loc_before(y, z)
            ==> loc_before(x, z)
}

/// No location comes before one that precedes it in `s`.
pub open spec fn locs_ordered(s: Seq<(Seq<char>, usize)>) -> bool {
    forall|i: int, j: int| 0 <= i < j < s.len() ==> !loc_before(#[trigger] s[j], #[trigger] s[i])
}

/// No location directly follows the same location.
pub open spec fn no_adjacent_repeats(s: Seq<(Seq<char>, usize)>) -> bool {
    forall|i: int, j: int|
        0 <= i && j == i + 1 && j < s.len() ==> !loc_same(#[trigger] s[i], #[trigger] s[j])
}

proof fn lemma_insert_loc_multiset(x: (Seq<char>, usize), s: Seq<(Seq<char>, usize)>)
    ensures
        insert_loc(x, s).to_multiset() =~= s.to_multiset().insert(x),
    decreases s.len(),
{
    broadcast use vstd::seq_lib::group_to_multiset_ensures;
    broadcast use vstd::multiset::group_multiset_axioms;

    if s.len() == 0 {
        assert(seq![x] =~= s.push(x));
    } else if loc_before(x, s[0]) {
        assert(seq![x] + s =~= s.insert(0, x));
        vstd::seq_lib::to_multiset_insert(s, 0, x);
    } else {
        let t = s.drop_first();
        lemma_insert_loc_multiset(x, t);
        let r = insert_loc(x, t);
        assert(seq![s[0]] + r =~= r.insert(0, s[0]));
        vstd::seq_lib::to_multiset_insert(r, 0, s[0]);
        assert(s =~= t.insert(0, s[0]));
        vstd::seq_lib::to_multiset_insert(t, 0, s[0]);
    }
}

proof fn lemma_sort_locs_multiset(s: Seq<(Seq<char>, usize)>)
    ensures
        sort_locs(s).to_multiset() =~= s.to_multiset(),
    decreases s.len(),
{
    broadcast use vstd::seq_lib::group_to_multiset_ensures;

    if s.len() > 0 {
        lemma_sort_locs_multiset(s.drop_last());
        lemma_insert_loc_multiset(s.last(), sort_locs(s.drop_last()));
        assert(s =~= s.drop_last().push(s.last()));
    }
}

proof fn lemma_insert_loc_ordered(
    x: (Seq<char>, usize),
    t: Seq<(Seq<char>, usize)>,
    all: Seq<(Seq<char>, usize)>,
)
    requires
        strict_order_on(all),
        all.contains(x),
        forall|y: (Seq<char>, usize)| t.contains(y) ==> all.contains(y),
        locs_ordered(t),
    ensures
        locs_ordered(insert_loc(x, t)),
    decreases t.len(),
{
    broadcast use vstd::seq_lib::group_to_multiset_ensures;
    broadcast use vstd::multiset::group_multiset_axioms;

    let r = insert_loc(x, t);
    if t.len() == 0 {
    } else if loc_before(x, t[0]) {
        assert(t.contains(t[0]));
        assert forall|i: int, j: int| 0 <= i < j < r.len() implies !loc_before(
            #[trigger] r[j],
            #[trigger] r[i],
        ) by {
            if i == 0 {
                assert(r[j] == t[j - 1]);
                assert(t.contains(t[j - 1]));
                if loc_before(t[j - 1], x) {
                    assert(loc_before(t[j - 1], t[0]));
                }
            } else {
                assert(r[j] == t[j - 1] && r[i] == t[i - 1]);
            }
        }
    } else {
        let d = t.drop_first();
        let rd = insert_loc(x, d);
        assert forall|y: (Seq<char>, usize)| d.contains(y) implies all.contains(y) by {
            let k = choose|k: int| 0 <= k < d.len() && d[k] == y;
            assert(t[k + 1] == y);
        }
        assert forall|i: int, j: int| 0 <= i < j < d.len() implies !loc_before(
            #[trigger] d[j],
            #[trigger] d[i],
        ) by {
            assert(d[j] == t[j + 1] && d[i] == t[i + 1]);
        }
        lemma_insert_loc_ordered(x, d, all);
        lemma_insert_loc_multiset(x, d);
        assert(r =~= seq![t[0]] + rd);
        assert forall|i: int, j: int| 0 <= i < j < r.len() implies !loc_before(
            #[trigger] r[j],
            #[trigger] r[i],
        ) by {
            if i == 0 {
                let y = rd[j - 1];
                assert(r[j] == y);
                assert(rd.to_multiset().count(y) > 0);
                if y != x {
                    assert(d.to_multiset().count(y) > 0);
                    let k = choose|k: int| 0 <= k < d.len() && d[k] == y;
                    assert(t[k + 1] == y);
                }
            } else {
                assert(r[j] == rd[j - 1] && r[i] == rd[i - 1]);
            }
        }
    }
}

proof fn lemma_sort_locs_ordered(s: Seq<(Seq<char>, usize)>, all: Seq<(Seq<char>, usize)>)
    requires
        strict_order_on(all),
        forall|y: (Seq<char>, usize)| s.contains(y) ==> all.contains(y),
    ensures
        locs_ordered(sort_locs(s)),
    decreases s.len(),
{
    broadcast use vstd::seq_lib::group_to_multiset_ensures;

    if s.len() > 0 {
        let p = s.drop_last();
        assert forall|y: (Seq<char>, usize)| p.contains(y) implies all.contains(y) by {
            let k = choose|k: int| 0 <= k < p.len() && p[k] == y;
            assert(s[k] == y);
        }
        lemma_sort_locs_ordered(p, all);
        lemma_sort_locs_multiset(p);
        assert(s.contains(s[s.len() - 1]));
        assert forall|y: (Seq<char>, usize)| sort_locs(p).contains(y) implies all.contains(y) by {
            assert(sort_locs(p).to_multiset().count(y) > 0);
        }
        lemma_insert_loc_ordered(s.last(), sort_locs(p), all);
    }
}

/// Sorting keeps the locations, each as often as it occurs, and, where the order of paths
/// is a strict order on them, puts them in order.
pub proof fn lemma_sorted_locations(s: Seq<(Seq<char>, usize)>)
    ensures
        sort_locs(s).to_multiset() =~= s.to_multiset(),
        strict_order_on(s) ==> locs_ordered(sort_locs(s)),
{
    lemma_sort_locs_multiset(s);
    if strict_order_on(s) {
        lemma_sort_locs_ordered(s, s);
    }
}

proof fn lemma_dedup_locs_props(s: Seq<(Seq<char>, usize)>)
    ensures
        forall|y: (Seq<char>, usize)| dedup_locs(s).contains(y) ==> s.contains(y),
        no_adjacent_repeats(dedup_locs(s)),
        locs_ordered(s) ==> locs_ordered(dedup_locs(s)),
    decreases s.len(),
{
    if s.len() > 1 {
        let p = s.drop_last();
        lemma_dedup_locs_props(p);
        lemma_dedup_nonempty(p);
        let d = dedup_locs(p);
        assert forall|y: (Seq<char>, usize)| d.contains(y) implies s.contains(y) by {
            assert(p.contains(y));
            let k = choose|k: int| 0 <= k < p.len() && p[k] == y;
            assert(s[k] == y);
        }
        if !loc_same(d.last(), s.last()) {
            let r = d.push(s.last());
            assert forall|y: (Seq<char>, usize)| r.contains(y) implies s.contains(y) by {
                let k = choose|k: int| 0 <= k < r.len() && r[k] == y;
                if k < d.len() {
                    assert(d[k] == y);
                } else {
                    assert(s[s.len() - 1] == y);
                }
            }
            assert forall|i: int, j: int|
                0 <= i && j == i + 1 && j < r.len() implies !loc_same(
                #[trigger] r[i],
                #[trigger] r[j],
            ) by {
                if j < d.len() {
                    assert(r[i] == d[i] && r[j] == d[j]);
                }
            }
            if locs_ordered(s) {
                assert forall|i: int, j: int| 0 <= i < j < p.len() implies !loc_before(
                    #[trigger] p[j],
                    #[trigger] p[i],
                ) by {
                    assert(p[j] == s[j] && p[i] == s[i]);
                }
                assert forall|i: int, j: int| 0 <= i < j < r.len() implies !loc_before(
                    #[trigger] r[j],
                    #[trigger] r[i],
                ) by {
                    if j < d.len() {
                        assert(r[i] == d[i] && r[j] == d[j]);
                    } else {
                        assert(r[i] == d[i]);
                        assert(d.contains(d[i]));
                        assert(p.contains(d[i]));
                        let k = choose|k: int| 0 <= k < p.len() && p[k] == d[i];
                        assert(s[k] == d[i]);
                        assert(r[j] == s[s.len() - 1]);
                    }
                }
            }
        }
    } else if s.len() == 1 {
        assert(s.contains(s[0]));
    }
}

/// Removing repeats keeps only locations of the input, leaves no location directly after
/// the same one, and keeps locations that were in order in order.
pub proof fn lemma_deduplicated_locations(s: Seq<(Seq<char>, usize)>)
    ensures
        forall|y: (Seq<char>, usize)| dedup_locs(s).contains(y) ==> s.contains(y),
        no_adjacent_repeats(dedup_locs(s)),
        locs_ordered(s) ==> locs_ordered(dedup_locs(s)),
{
    lemma_dedup_locs_props(s);
}

/// Each location comes before the next one.
pub open spec fn adjacent_ascending(s: Seq<(Seq<char>, usize)>) -> bool {
    forall|i: int, j: int| 0 <= i && j == i + 1 && j < s.len() ==> loc_before(#[trigger] s[i], #[trigger] s[j])
}

/// Locations strictly ascending: none comes before an earlier one, and each comes before
/// the next.
pub open spec fn locs_ascending(s: Seq<(Seq<char>, usize)>) -> bool {
    locs_ordered(s) && adjacent_ascending(s)
}

/// What a comparison found that placed `x` before `y`: `x`'s path comes first, or the
/// paths are the same and `x`'s line is smaller, with the laws of the order for them.
pub open spec fn placed_before(x: (Seq<char>, usize), y: (Seq<char>, usize)) -> bool {
    ||| path_precedes(x.0, y.0) && less_laws(x.0, y.0)
    ||| path_same(x.0, y.0) && x.1 < y.1 && equal_laws(x.0, y.0)
}

proof fn lemma_insert_keeps_order(o: Seq<(Seq<char>, usize)>, x: (Seq<char>, usize), j: int)
    requires
        locs_ordered(o),
        0 <= j <= o.len(),
        forall|k: int| 0 <= k < j ==> !loc_before(x, #[trigger] o[k]),
        j < o.len() ==> placed_before(x, o[j]),
    ensures
        locs_ordered(o.take(j) + seq![x] + o.skip(j)),
{
    let n = o.take(j) + seq![x] + o.skip(j);
    assert forall|a: int, b: int| 0 <= a < b < n.len() implies !loc_before(#[trigger] n[b], #[trigger] n[a]) by {
        if b < j {
            assert(n[a] == o[a] && n[b] == o[b]);
        } else if b == j {
            assert(n[a] == o[a] && n[b] == x);
        } else if a < j {
            assert(n[a] == o[a] && n[b] == o[b - 1]);
        } else if a == j {
            assert(n[a] == x && n[b] == o[b - 1]);
            let y = o[j];
            let z = o[b - 1];
            if b - 1 > j {
                assert(!loc_before(z, y));
            }
            if path_precedes(x.0, y.0) && less_laws(x.0, y.0) {
                if path_precedes(z.0, x.0) {
                    assert(path_precedes(z.0, y.0));
                }
                if path_same(z.0, x.0) {
                    assert(path_precedes(z.0, y.0));
                }
            } else {
                if path_precedes(z.0, x.0) {
                    assert(path_precedes(z.0, y.0));
                }
                if path_same(z.0, x.0) {
                    assert(path_same(z.0, y.0));
                }
            }
        } else {
            assert(n[a] == o[a - 1] && n[b] == o[b - 1]);
        }
    }
}

/// Sorts locations by path, then line, keeping equal ones in their order; the result
/// is in order.
pub fn sort_locations(v: &Vec<(String, usize)>) -> (r: Vec<(String, usize)>)
    ensures
        locs_view(r@) == sort_locs(locs_view(v@)),
        locs_ordered(locs_view(r@)),
{
    let ghost lv = locs_view(v@);
    let mut out: Vec<(String, usize)> = Vec::new();
    let mut i: usize = 0;
    assert(lv.take(0) =~= Seq::<(Seq<char>, usize)>::empty());
    assert(locs_view(out@) =~= sort_locs(lv.take(0)));
    while i < v.len()
        invariant
            i <= v@.len(),
            lv == locs_view(v@),
            locs_view(out@) == sort_locs(lv.take(i as int)),
            locs_ordered(locs_view(out@)),
        decreases v.len() - i,
    {
        let x = (v[i].0.clone(), v[i].1);
        let ghost xv = loc_view(x);
        assert(xv == lv[i as int]);
        let ghost o = locs_view(out@);
        let mut j: usize = 0;
        let mut found = false;
        while j < out.len() && !found
            invariant
                j <= out@.len(),
                o == locs_view(out@),
                xv == loc_view(x),
                forall|k: int| 0 <= k < j ==> !loc_before(xv, #[trigger] o[k]),
                found ==> j < out@.len() && loc_before(xv, o[j as int]) && placed_before(xv, o[j as int]),
            decreases out.len() - j + (if found { 0int } else { 1int }),
        {
            assert(o[j as int] == loc_view(out@[j as int]));
            let r = path_order(x.0.as_str(), out[j].0.as_str());
            if r == 0 || (r == 1 && x.1 < out[j].1) {
                found = true;
            } else {
                j = j + 1;
            }
        }
        proof {
            if j < out.len() {
                assert(o[j as int] == loc_view(out@[j as int]));
            }
            lemma_insert_loc_at(xv, o, j as int);
            lemma_insert_keeps_order(o, xv, j as int);
            assert(lv.take(i + 1).drop_last() =~= lv.take(i as int));
            assert(lv.take(i + 1).last() == xv);
        }
        out.insert(j, x);
        assert(locs_view(out@) =~= o.take(j as int) + seq![xv] + o.skip(j as int));
        i = i + 1;
    }
    assert(lv.take(lv.len() as int) =~= lv);
    out
}

/// Removes consecutive repeated locations; locations that were in order come out
/// strictly ascending.
pub fn dedup_locations(v: &Vec<(String, usize)>) -> (r: Vec<(String, usize)>)
    ensures
        locs_view(r@) == dedup_locs(locs_view(v@)),
        locs_ordered(locs_view(v@)) ==> locs_ascending(locs_view(r@)),
{
    let ghost lv = locs_view(v@);
    let mut out: Vec<(String, usize)> = Vec::new();
    let mut i: usize = 0;
    assert(locs_view(out@) =~= dedup_locs(lv.take(0)));
    while i < v.len()
        invariant
            i <= v@.len(),
            lv == locs_view(v@),
            locs_view(out@) == dedup_locs(lv.take(i as int)),
            locs_ordered(lv) ==> adjacent_ascending(locs_view(out@)),
        decreases v.len() - i,
    {
        let ghost o = locs_view(out@);
        let ghost t = lv.take(i + 1);
        let ghost xv = loc_view(v@[i as int]);
        proof {
            assert(t.drop_last() =~= lv.take(i as int));
            assert(t.last() == xv);
            lemma_dedup_nonempty(lv.take(i as int));
        }
        let keep = if out.len() == 0 {
            true
        } else {
            let last = out.len() - 1;
            assert(o.last() == loc_view(out@[last as int]));
            let r = path_order(out[last].0.as_str(), v[i].0.as_str());
            proof {
                if locs_ordered(lv) && !(r == 1 && out@[last as int].1 == v@[i as int].1) {
                    let y = o.last();
                    lemma_dedup_locs_props(lv.take(i as int));
                    assert(o.contains(y));
                    assert(lv.take(i as int).contains(y));
                    let k = choose|k: int| 0 <= k < i && lv.take(i as int)[k] == y;
                    assert(lv[k] == y);
                    assert(!loc_before(lv[i as int], lv[k]));
                    assert(loc_before(y, xv));
                }
            }
            !(r == 1 && out[last].1 == v[i].1)
        };
        if keep {
            out.push((v[i].0.clone(), v[i].1));
            proof {
                if i == 0 {
                    assert(t =~= seq![loc_view(v@[0])]);
                }
                assert(locs_view(out@) =~= o.push(xv));
                if locs_ordered(lv) {
                    let n = locs_view(out@);
                    assert forall|a: int, b: int| 0 <= a && b == a + 1 && b < n.len() implies loc_before(
                        #[trigger] n[a],
                        #[trigger] n[b],
                    ) by {
                        if b < o.len() {
                            assert(n[a] == o[a] && n[b] == o[b]);
                        } else {
                            assert(n[a] == o.last() && n[b] == xv);
                        }
                    }
                }
            }
        } else {
            proof {
                assert(i > 0);
            }
        }
        i = i + 1;
    }
    assert(lv.take(lv.len() as int) =~= lv);
    proof {
        lemma_dedup_locs_props(lv);
    }
    out
}

} // verus!
