//! Sequence helpers shared by the save-data modules: first-match search,
//! occurrence counting, and owned copies of string lists.

use vstd::prelude::*;

verus! {

/// Index of the first element of `s` satisfying `p`, if any.
pub open spec fn find_index<T>(s: Seq<T>, p: spec_fn(T) -> bool) -> Option<int>
    decreases s.len(),
{
    if s.len() == 0 {
        None
    } else if p(s[0]) {
        Some(0)
    } else {
        match find_index(s.drop_first(), p) {
            Some(i) => Some(i + 1),
            None => None,
        }
    }
}

/// The first element of `s` satisfying `p`, if any.
pub open spec fn find_first<T>(s: Seq<T>, p: spec_fn(T) -> bool) -> Option<T> {
    match find_index(s, p) {
        Some(i) => Some(s[i]),
        None => None,
    }
}

/// Number of elements of `s` equal to `x`.
pub open spec fn count_of<T>(s: Seq<T>, x: T) -> nat
    decreases s.len(),
{
    if s.len() == 0 {
        0
    } else {
        count_of(s.drop_last(), x) + if s.last() == x {
            1nat
        } else {
            0nat
        }
    }
}

/// The views of a list of strings.
pub open spec fn views(v: Seq<String>) -> Seq<Seq<char>> {
    v.map_values(|s: String| s@)
}

/// What `find_index` returns, stated by its defining property.
pub proof fn lemma_find_index<T>(s: Seq<T>, p: spec_fn(T) -> bool)
    ensures
        match find_index(s, p) {
            Some(i) => 0 <= i < s.len() && p(s[i]) && forall|j: int| 0 <= j < i ==> !p(#[trigger] s[j]),
            None => forall|j: int| 0 <= j < s.len() ==> !p(#[trigger] s[j]),
        },
    decreases s.len(),
{
    if s.len() > 0 && !p(s[0]) {
        lemma_find_index(s.drop_first(), p);
        match find_index(s.drop_first(), p) {
            Some(i) => {
                assert forall|j: int| 0 <= j < i + 1 implies !p(#[trigger] s[j]) by {
                    if j > 0 {
                        assert(s[j] == s.drop_first()[j - 1]);
                    }
                }
            },
            None => {
                assert forall|j: int| 0 <= j < s.len() implies !p(#[trigger] s[j]) by {
                    if j > 0 {
                        assert(s[j] == s.drop_first()[j - 1]);
                    }
                }
            },
        }
    }
}

/// A search that stopped at `i` found the first match.
pub proof fn lemma_find_index_at<T>(s: Seq<T>, p: spec_fn(T) -> bool, i: int)
    requires
        0 <= i < s.len(),
        p(s[i]),
        forall|j: int| 0 <= j < i ==> !p(#[trigger] s[j]),
    ensures
        find_index(s, p) == Some(i),
        find_first(s, p) == Some(s[i]),
{
    lemma_find_index(s, p);
    match find_index(s, p) {
        Some(k) => {
            if k < i {
                assert(!p(s[k]));
            } else if k > i {
                assert(!p(s[i]));
            }
        },
        None => {
            assert(!p(s[i]));
        },
    }
}

/// A search that saw no match found none.
pub proof fn lemma_find_index_none<T>(s: Seq<T>, p: spec_fn(T) -> bool)
    requires
        forall|j: int| 0 <= j < s.len() ==> !p(#[trigger] s[j]),
    ensures
        find_index(s, p) is None,
        find_first(s, p) is None,
{
    lemma_find_index(s, p);
    match find_index(s, p) {
        Some(k) => {
            assert(!p(s[k]));
        },
        None => {},
    }
}

/// Counting one more element.
pub proof fn lemma_count_push<T>(s: Seq<T>, y: T, x: T)
    ensures
        count_of(s.push(y), x) == count_of(s, x) + if y == x {
            1nat
        } else {
            0nat
        },
{
    assert(s.push(y).drop_last() =~= s);
}

/// An element that occurs is counted.
pub proof fn lemma_count_contains<T>(s: Seq<T>, x: T)
    ensures
        (count_of(s, x) > 0) == s.contains(x),
    decreases s.len(),
{
    if s.len() > 0 {
        lemma_count_contains(s.drop_last(), x);
        if s.drop_last().contains(x) {
            let k = choose|k: int| 0 <= k < s.drop_last().len() && s.drop_last()[k] == x;
            assert(s[k] == x);
        }
        if s.contains(x) && s.last() != x {
            let k = choose|k: int| 0 <= k < s.len() && s[k] == x;
            assert(s.drop_last()[k] == x);
        }
    }
}

/// An owned copy of a list of strings.
pub fn copy_strings(v: &Vec<String>) -> (res: Vec<String>)
    ensures
        res@ == v@,
{
    let mut res: Vec<String> = Vec::new();
    let mut i: usize = 0;
    while i < v.len()
        invariant
            i <= v.len(),
            res@ == v@.take(i as int),
        decreases v.len() - i,
    {
        res.push(v[i].clone());
        assert(res@ =~= v@.take(i + 1));
        i = i + 1;
    }
    assert(v@.take(v.len() as int) =~= v@);
    res
}

/// An owned copy of a slice of strings.
pub fn copy_slice(v: &[String]) -> (res: Vec<String>)
    ensures
        res@ == v@,
{
    let mut res: Vec<String> = Vec::new();
    let mut i: usize = 0;
    while i < v.len()
        invariant
            i <= v.len(),
            res@ == v@.take(i as int),
        decreases v.len() - i,
    {
        res.push(v[i].clone());
        assert(res@ =~= v@.take(i + 1));
        i = i + 1;
    }
    assert(v@.take(v.len() as int) =~= v@);
    res
}

/// Whether some entry of `v` has the text `x`.
pub fn contains_text_entry(v: &Vec<String>, x: &str) -> (res: bool)
    ensures
        res == views(v@).contains(x@),
{
    let mut i: usize = 0;
    while i < v.len()
        invariant
            i <= v.len(),
            forall|j: int| 0 <= j < i ==> v@[j]@ != x@,
        decreases v.len() - i,
    {
        if crate::text::text_eq(v[i].as_str(), x) {
            assert(views(v@)[i as int] == x@);
            return true;
        }
        i = i + 1;
    }
    assert forall|j: int| 0 <= j < views(v@).len() implies views(v@)[j] != x@ by {
        assert(views(v@)[j] == v@[j]@);
    }
    false
}

/// Number of entries of `v` with the text `x`.
pub fn count_text(v: &Vec<String>, x: &str) -> (res: usize)
    ensures
        res == count_of(views(v@), x@),
{
    let mut n: usize = 0;
    let mut i: usize = 0;
    while i < v.len()
        invariant
            i <= v.len(),
            n <= i,
            n == count_of(views(v@).take(i as int), x@),
        decreases v.len() - i,
    {
        proof {
            assert(views(v@).take(i + 1) =~= views(v@).take(i as int).push(v@[i as int]@));
            lemma_count_push(views(v@).take(i as int), v@[i as int]@, x@);
        }
        if crate::text::text_eq(v[i].as_str(), x) {
            n = n + 1;
        }
        i = i + 1;
    }
    assert(views(v@).take(v.len() as int) =~= views(v@));
    n
}

/// A list of distinct values, each found among `keys`, is no longer than `keys`.
pub proof fn lemma_pigeonhole<A>(cands: Seq<A>, keys: Seq<A>)
    requires
        cands.no_duplicates(),
        forall|i: int| 0 <= i < cands.len() ==> keys.contains(#[trigger] cands[i]),
    ensures
        cands.len() <= keys.len(),
{
    broadcast use vstd::seq_lib::seq_to_set_is_finite;

    cands.unique_seq_to_set();
    keys.lemma_cardinality_of_set();
    assert forall|x: A| cands.to_set().contains(x) implies keys.to_set().contains(x) by {
        let i = choose|i: int| 0 <= i < cands.len() && cands[i] == x;
        assert(keys.contains(cands[i]));
    }
    vstd::set_lib::lemma_len_subset(cands.to_set(), keys.to_set());
}

/// The text equals `x`.
pub open spec fn is_text(x: Seq<char>) -> spec_fn(Seq<char>) -> bool {
    |y: Seq<char>| y == x
}

/// Position of the first entry of `v` with the text `x`.
pub fn position_of_text(v: &Vec<String>, x: &str) -> (res: Option<usize>)
    ensures
        match res {
            Some(k) => k < v@.len() && find_index(views(v@), is_text(x@)) == Some(k as int),
            None => find_index(views(v@), is_text(x@)) is None,
        },
{
    let ghost w = views(v@);
    let mut k: usize = 0;
    while k < v.len()
        invariant
            k <= v.len(),
            w == views(v@),
            forall|j: int| 0 <= j < k ==> !(#[trigger] is_text(x@)(w[j])),
        decreases v.len() - k,
    {
        assert(w[k as int] == v@[k as int]@);
        if crate::text::text_eq(v[k].as_str(), x) {
            proof {
                lemma_find_index_at(w, is_text(x@), k as int);
            }
            return Some(k);
        }
        k = k + 1;
    }
    proof {
        lemma_find_index_none(w, is_text(x@));
    }
    None
}

/// Index of the last element of `s` satisfying `p`, if any.
pub open spec fn find_last_index<T>(s: Seq<T>, p: spec_fn(T) -> bool) -> Option<int>
    decreases s.len(),
{
    if s.len() == 0 {
        None
    } else if p(s.last()) {
        Some(s.len() - 1)
    } else {
        find_last_index(s.drop_last(), p)
    }
}

/// A backward search that stopped at `i` found the last match.
pub proof fn lemma_find_last_index_at<T>(s: Seq<T>, p: spec_fn(T) -> bool, i: int)
    requires
        0 <= i < s.len(),
        p(s[i]),
        forall|j: int| i < j < s.len() ==> !p(#[trigger] s[j]),
    ensures
        find_last_index(s, p) == Some(i),
    decreases s.len(),
{
    if i < s.len() - 1 {
        assert(!p(s[s.len() - 1]));
        assert forall|j: int| i < j < s.drop_last().len() implies !p(#[trigger] s.drop_last()[j]) by {
            assert(s.drop_last()[j] == s[j]);
        }
        lemma_find_last_index_at(s.drop_last(), p, i);
    }
}

/// A backward search that saw no match found none.
pub proof fn lemma_find_last_index_none<T>(s: Seq<T>, p: spec_fn(T) -> bool)
    requires
        forall|j: int| 0 <= j < s.len() ==> !p(#[trigger] s[j]),
    ensures
        find_last_index(s, p) is None,
    decreases s.len(),
{
    if s.len() > 0 {
        assert(!p(s[s.len() - 1]));
        assert forall|j: int| 0 <= j < s.drop_last().len() implies !p(#[trigger] s.drop_last()[j]) by {
            assert(s.drop_last()[j] == s[j]);
        }
        lemma_find_last_index_none(s.drop_last(), p);
    }
}

/// A count never exceeds the length.
pub proof fn lemma_count_bound<T>(s: Seq<T>, x: T)
    ensures
        count_of(s, x) <= s.len(),
    decreases s.len(),
{
    if s.len() > 0 {
        lemma_count_bound(s.drop_last(), x);
    }
}

/// `y` is preceded by `x` under `before`.
pub open spec fn preceded_by<A>(before: spec_fn(A, A) -> bool, x: A) -> spec_fn(A) -> bool {
    |y: A| before(x, y)
}

/// `sorted` with `x` inserted before the first entry it precedes (after all
/// entries it does not precede).
pub open spec fn stable_insert<A>(sorted: Seq<A>, x: A, before: spec_fn(A, A) -> bool) -> Seq<A> {
    let j = match find_index(sorted, preceded_by(before, x)) {
        Some(j) => j,
        None => sorted.len() as int,
    };
    sorted.insert(j, x)
}

/// `s` sorted by `before`, keeping the order of entries neither precedes
/// (a stable sort, as by insertion).
pub open spec fn stable_sort<A>(s: Seq<A>, before: spec_fn(A, A) -> bool) -> Seq<A>
    decreases s.len(),
{
    if s.len() == 0 {
        s
    } else {
        stable_insert(stable_sort(s.drop_last(), before), s.last(), before)
    }
}

/// No entry of `s` is preceded, under `before`, by an entry after it.
pub open spec fn sorted_by<A>(s: Seq<A>, before: spec_fn(A, A) -> bool) -> bool {
    forall|a: int, b: int| 0 <= a < b < s.len() ==> !before(#[trigger] s[b], #[trigger] s[a])
}

/// Sorting by a transitive, asymmetric order leaves no entry after one it
/// precedes.
pub proof fn lemma_stable_sort_sorted<A>(s: Seq<A>, before: spec_fn(A, A) -> bool)
    requires
        forall|x: A, y: A, z: A| #[trigger] before(x, y) && #[trigger] before(y, z) ==> before(x, z),
        forall|x: A, y: A| #[trigger] before(x, y) ==> !before(y, x),
    ensures
        sorted_by(stable_sort(s, before), before),
    decreases s.len(),
{
    if s.len() > 0 {
        lemma_stable_sort_sorted(s.drop_last(), before);
        let t = stable_sort(s.drop_last(), before);
        let x = s.last();
        let p = preceded_by(before, x);
        lemma_find_index(t, p);
        let j = match find_index(t, p) {
            Some(j) => j,
            None => t.len() as int,
        };
        let r = t.insert(j, x);
        assert(r == stable_sort(s, before));
        assert forall|a: int, b: int| 0 <= a < b < r.len() implies !before(#[trigger] r[b], #[trigger] r[a]) by {
            if b < j {
                assert(r[a] == t[a] && r[b] == t[b]);
            } else if b == j {
                assert(r[a] == t[a] && r[b] == x);
                assert(!p(t[a]));
            } else if a < j {
                assert(r[a] == t[a] && r[b] == t[b - 1]);
            } else if a == j {
                assert(r[a] == x && r[b] == t[b - 1]);
                assert(p(t[j]));
                assert(before(x, t[j]));
                if before(t[b - 1], x) {
                    if b - 1 > j {
                        assert(before(t[b - 1], t[j]));
                        assert(!before(t[b - 1], t[j]));
                    }
                }
            } else {
                assert(r[a] == t[a - 1] && r[b] == t[b - 1]);
            }
        }
    }
}

/// Sorting keeps the length and brings in no new entry.
pub proof fn lemma_stable_sort_members<A>(s: Seq<A>, before: spec_fn(A, A) -> bool)
    ensures
        stable_sort(s, before).len() == s.len(),
        forall|x: A| #[trigger] stable_sort(s, before).contains(x) ==> s.contains(x),
    decreases s.len(),
{
    if s.len() > 0 {
        let d = s.drop_last();
        lemma_stable_sort_members(d, before);
        let t = stable_sort(d, before);
        let x = s.last();
        lemma_find_index(t, preceded_by(before, x));
        let j = match find_index(t, preceded_by(before, x)) {
            Some(j) => j,
            None => t.len() as int,
        };
        let r = t.insert(j, x);
        assert(r == stable_sort(s, before));
        assert forall|y: A| #[trigger] r.contains(y) implies s.contains(y) by {
            let q = choose|q: int| 0 <= q < r.len() && r[q] == y;
            if q == j {
                assert(s[s.len() - 1] == y);
            } else {
                let qq = if q < j { q } else { q - 1 };
                assert(t[qq] == y);
                assert(t.contains(y));
                let w = choose|w: int| 0 <= w < d.len() && d[w] == y;
                assert(s[w] == y);
            }
        }
    }
}

/// Whether some entry of the slice `v` has the text `x`.
pub fn slice_has_text(v: &[String], x: &str) -> (res: bool)
    ensures
        res == views(v@).contains(x@),
{
    let mut i: usize = 0;
    while i < v.len()
        invariant
            i <= v.len(),
            forall|j: int| 0 <= j < i ==> v@[j]@ != x@,
        decreases v.len() - i,
    {
        if crate::text::text_eq(v[i].as_str(), x) {
            assert(views(v@)[i as int] == x@);
            return true;
        }
        i = i + 1;
    }
    assert forall|j: int| 0 <= j < views(v@).len() implies views(v@)[j] != x@ by {
        assert(views(v@)[j] == v@[j]@);
    }
    false
}

} // verus!
