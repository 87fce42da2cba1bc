//! Sorting by an integer key and detection of repeated keys.
use vstd::prelude::*;
use vstd::multiset::Multiset;

verus! {

broadcast use vstd::seq_lib::group_to_multiset_ensures;

/// Items that are ordered and identified by an integer key.
pub trait SortKey {
    /// The key of the item.
    spec fn key_spec(&self) -> int;

    /// Returns the key of the item.
    fn sort_key(&self) -> (k: i64)
        ensures
            k == self.key_spec(),
    ;
}

/// The sequence of keys of `s`.
pub open spec fn keys<T: SortKey>(s: Seq<T>) -> Seq<int> {
    s.map_values(|x: T| x.key_spec())
}

/// Keys are non-decreasing along `s`.
pub open spec fn sorted_by_key<T: SortKey>(s: Seq<T>) -> bool {
    forall|i: int, j: int| 0 <= i <= j < s.len() ==> s[i].key_spec() <= s[j].key_spec()
}

/// Keys are strictly increasing along `s`.
pub open spec fn strictly_sorted_by_key<T: SortKey>(s: Seq<T>) -> bool {
    forall|i: int, j: int| 0 <= i < j < s.len() ==> s[i].key_spec() < s[j].key_spec()
}

/// `x` is the key of two different entries of `s`.
pub open spec fn is_repeated_key<T: SortKey>(s: Seq<T>, x: int) -> bool {
    exists|i: int, j: int|
        0 <= i < j < s.len() && #[trigger] s[i].key_spec() == x && #[trigger] s[j].key_spec() == x
}

/// Some key occurs at two different entries of `s`.
pub open spec fn has_repeated_key<T: SortKey>(s: Seq<T>) -> bool {
    exists|x: int| is_repeated_key(s, x)
}

/// `x` is the least key that occurs twice in `s`.
pub open spec fn is_least_repeated_key<T: SortKey>(s: Seq<T>, x: int) -> bool {
    &&& is_repeated_key(s, x)
    &&& forall|y: int| is_repeated_key(s, y) ==> x <= y
}

/// An integer occurs at least twice in an integer sequence exactly when its
/// multiset count is at least two.
proof fn lemma_count_ge2_iff_repeated(s: Seq<int>, x: int)
    ensures
        s.to_multiset().count(x) >= 2 <==> exists|i: int, j: int|
            0 <= i < j < s.len() && s[i] == x && s[j] == x,
    decreases s.len(),
{
    if s.len() == 0 {
        assert(s.to_multiset() =~= Multiset::empty());
    } else {
        let t = s.drop_last();
        let a = s.last();
        assert(t.push(a) =~= s);
        lemma_count_ge2_iff_repeated(t, x);
        assert(s.to_multiset() =~= t.to_multiset().insert(a));
        if a == x {
            if s.to_multiset().count(x) >= 2 {
                assert(t.to_multiset().count(x) >= 1);
                assert(t.contains(x));
                let i = choose|i: int| 0 <= i < t.len() && t[i] == x;
                assert(s[i] == x && s[s.len() - 1] == x);
            }
            if exists|i: int, j: int| 0 <= i < j < s.len() && s[i] == x && s[j] == x {
                let (i, j) = choose|i: int, j: int| 0 <= i < j < s.len() && s[i] == x && s[j] == x;
                assert(t[i] == x);
                assert(t.contains(x));
            }
        } else {
            if exists|i: int, j: int| 0 <= i < j < s.len() && s[i] == x && s[j] == x {
                let (i, j) = choose|i: int, j: int| 0 <= i < j < s.len() && s[i] == x && s[j] == x;
                assert(t[i] == x && t[j] == x);
            }
            if exists|i: int, j: int| 0 <= i < j < t.len() && t[i] == x && t[j] == x {
                let (i, j) = choose|i: int, j: int| 0 <= i < j < t.len() && t[i] == x && t[j] == x;
                assert(s[i] == x && s[j] == x);
            }
        }
    }
}

/// A key is repeated in `s` exactly when it occurs twice in the key multiset.
proof fn lemma_repeated_key_iff_count<T: SortKey>(s: Seq<T>, x: int)
    ensures
        is_repeated_key(s, x) <==> keys(s).to_multiset().count(x) >= 2,
{
    lemma_count_ge2_iff_repeated(keys(s), x);
    if is_repeated_key(s, x) {
        let (i, j) = choose|i: int, j: int|
            0 <= i < j < s.len() && #[trigger] s[i].key_spec() == x && #[trigger] s[j].key_spec()
                == x;
        assert(keys(s)[i] == x && keys(s)[j] == x);
    }
    if keys(s).to_multiset().count(x) >= 2 {
        let (i, j) = choose|i: int, j: int|
            0 <= i < j < keys(s).len() && keys(s)[i] == x && keys(s)[j] == x;
        assert(s[i].key_spec() == x && s[j].key_spec() == x);
    }
}

/// Sequences with the same key multiset repeat the same keys.
pub proof fn lemma_repeated_keys_transfer<T: SortKey>(a: Seq<T>, b: Seq<T>)
    requires
        keys(a).to_multiset() == keys(b).to_multiset(),
    ensures
        forall|x: int| is_repeated_key(a, x) <==> is_repeated_key(b, x),
        has_repeated_key(a) <==> has_repeated_key(b),
{
    assert forall|x: int| is_repeated_key(a, x) <==> is_repeated_key(b, x) by {
        lemma_repeated_key_iff_count(a, x);
        lemma_repeated_key_iff_count(b, x);
    }
}

/// Sorts `v` by key (selection sort). The result is a permutation of `v`.
pub fn sort_by_key<T: SortKey>(v: Vec<T>) -> (r: Vec<T>)
    ensures
        r@.len() == v@.len(),
        r@.to_multiset() == v@.to_multiset(),
        keys(r@).to_multiset() == keys(v@).to_multiset(),
        sorted_by_key(r@),
{
    let ghost orig = v@;
    let mut work = v;
    let mut out: Vec<T> = Vec::new();
    assert(out@.to_multiset() =~= Multiset::empty());
    assert(keys(out@).to_multiset() =~= Multiset::empty());
    assert(keys(out@) =~= Seq::<int>::empty());
    while work.len() > 0
        invariant
            out@.len() + work@.len() == orig.len(),
            out@.to_multiset().add(work@.to_multiset()) == orig.to_multiset(),
            keys(out@).to_multiset().add(keys(work@).to_multiset()) == keys(orig).to_multiset(),
            sorted_by_key(out@),
            forall|i: int, j: int|
                0 <= i < out@.len() && 0 <= j < work@.len() ==> out@[i].key_spec()
                    <= work@[j].key_spec(),
        decreases work@.len(),
    {
        let mut m: usize = 0;
        let mut mk: i64 = work[0].sort_key();
        let mut i: usize = 1;
        while i < work.len()
            invariant
                0 < work@.len(),
                1 <= i <= work@.len(),
                m < i,
                mk == work@[m as int].key_spec(),
                forall|l: int| 0 <= l < i ==> mk <= work@[l].key_spec(),
            decreases work@.len() - i,
        {
            let k = work[i].sort_key();
            if k < mk {
                m = i;
                mk = k;
            }
            i = i + 1;
        }
        let ghost w0 = work@;
        let ghost o0 = out@;
        let x = work.remove(m);
        proof {
            assert(keys(w0).remove(m as int) =~= keys(work@));
            assert(keys(w0)[m as int] == x.key_spec());
            assert(keys(o0).push(x.key_spec()) =~= keys(o0.push(x)));
            assert(w0.to_multiset().contains(x));
            assert(keys(w0).to_multiset().contains(x.key_spec()));
            assert(o0.push(x).to_multiset().add(work@.to_multiset()) =~= o0.to_multiset().add(
                w0.to_multiset(),
            ));
            assert(keys(o0.push(x)).to_multiset().add(keys(work@).to_multiset())
                =~= keys(o0).to_multiset().add(keys(w0).to_multiset()));
        }
        out.push(x);
        proof {
            assert forall|a: int, b: int|
                0 <= a < out@.len() && 0 <= b < work@.len() implies out@[a].key_spec()
                <= work@[b].key_spec() by {
                if a < o0.len() {
                    if b < m {
                        assert(work@[b] == w0[b]);
                    } else {
                        assert(work@[b] == w0[b + 1]);
                    }
                } else {
                    if b < m {
                        assert(work@[b] == w0[b]);
                    } else {
                        assert(work@[b] == w0[b + 1]);
                    }
                }
            }
            assert forall|a: int, b: int| 0 <= a <= b < out@.len() implies out@[a].key_spec()
                <= out@[b].key_spec() by {
                if b == out@.len() - 1 && a < b {
                    assert(out@[a] == o0[a]);
                    assert(x == w0[m as int]);
                }
            }
        }
    }
    assert(work@.to_multiset() =~= Multiset::empty());
    assert(keys(work@) =~= Seq::<int>::empty());
    assert(keys(work@).to_multiset() =~= Multiset::empty());
    assert(out@.to_multiset() =~= out@.to_multiset().add(work@.to_multiset()));
    assert(keys(out@).to_multiset() =~= keys(out@).to_multiset().add(keys(work@).to_multiset()));
    out
}

/// Returns the first index `i` at which entries `i` and `i + 1` of a sorted
/// sequence share their key, if there is one.
pub fn first_adjacent_repeat<T: SortKey>(s: &Vec<T>) -> (r: Option<usize>)
    requires
        sorted_by_key(s@),
    ensures
        r is None ==> strictly_sorted_by_key(s@),
        r matches Some(i) ==> {
            &&& i + 1 < s@.len()
            &&& s@[i as int].key_spec() == s@[i + 1].key_spec()
            &&& forall|l: int| 0 <= l < i ==> (#[trigger] s@[l]).key_spec() < s@[l + 1].key_spec()
        },
{
    if s.len() < 2 {
        return None;
    }
    let mut i: usize = 0;
    while i < s.len() - 1
        invariant
            2 <= s@.len(),
            i + 1 <= s@.len(),
            sorted_by_key(s@),
            forall|l: int| 0 <= l < i ==> (#[trigger] s@[l]).key_spec() < s@[l + 1].key_spec(),
        decreases s@.len() - i,
    {
        if s[i].sort_key() == s[i + 1].sort_key() {
            return Some(i);
        }
        i = i + 1;
    }
    proof {
        lemma_adjacent_strict_implies_strict(s@);
    }
    None
}

/// Strict increase between neighbours of a sequence gives strict increase
/// between any two of its entries.
proof fn lemma_adjacent_strict_implies_strict<T: SortKey>(s: Seq<T>)
    requires
        forall|l: int| 0 <= l < s.len() - 1 ==> (#[trigger] s[l]).key_spec() < s[l + 1].key_spec(),
    ensures
        strictly_sorted_by_key(s),
    decreases s.len(),
{
    if s.len() > 1 {
        let t = s.drop_last();
        assert forall|l: int| 0 <= l < t.len() - 1 implies (#[trigger] t[l]).key_spec() < t[l + 1].key_spec() by {
            assert(t[l] == s[l] && t[l + 1] == s[l + 1]);
        }
        lemma_adjacent_strict_implies_strict(t);
        assert forall|i: int, j: int| 0 <= i < j < s.len() implies s[i].key_spec()
            < s[j].key_spec() by {
            if j < s.len() - 1 {
                assert(t[i] == s[i] && t[j] == s[j]);
            } else if i < j - 1 {
                assert(t[i] == s[i] && t[j - 1] == s[j - 1]);
            }
        }
    }
}

/// In a sorted sequence, the key at the first adjacent repeat is the least
/// repeated key.
pub proof fn lemma_first_repeat_is_least<T: SortKey>(s: Seq<T>, i: int)
    requires
        sorted_by_key(s),
        0 <= i,
        i + 1 < s.len(),
        s[i].key_spec() == s[i + 1].key_spec(),
        forall|l: int| 0 <= l < i ==> (#[trigger] s[l]).key_spec() < s[l + 1].key_spec(),
    ensures
        is_least_repeated_key(s, s[i].key_spec()),
{
    let x = s[i].key_spec();
    assert(is_repeated_key(s, x)) by {
        assert(s[i].key_spec() == x && s[i + 1].key_spec() == x);
    }
    assert forall|y: int| is_repeated_key(s, y) implies x <= y by {
        let (a, b) = choose|a: int, b: int|
            0 <= a < b < s.len() && #[trigger] s[a].key_spec() == y && #[trigger] s[b].key_spec()
                == y;
        assert(s[a].key_spec() <= s[a + 1].key_spec() <= s[b].key_spec());
        if a < i {
            assert(s[a].key_spec() < s[a + 1].key_spec());
            assert(false);
        } else {
            assert(s[i].key_spec() <= s[a].key_spec());
        }
    }
}

/// A strictly sorted sequence repeats no key.
pub proof fn lemma_strict_has_no_repeat<T: SortKey>(s: Seq<T>)
    requires
        strictly_sorted_by_key(s),
    ensures
        !has_repeated_key(s),
{
    if has_repeated_key(s) {
        let x = choose|x: int| is_repeated_key(s, x);
        let (a, b) = choose|a: int, b: int|
            0 <= a < b < s.len() && #[trigger] s[a].key_spec() == x && #[trigger] s[b].key_spec()
                == x;
        assert(s[a].key_spec() < s[b].key_spec());
    }
}


/// Two positions of a strictly key-sorted sequence with equal keys are the
/// same position.
proof fn lemma_strict_keys_distinct<T: SortKey>(a: Seq<T>, i: int, k: int)
    requires
        strictly_sorted_by_key(a),
        0 <= i < a.len(),
        0 <= k < a.len(),
        a[i].key_spec() == a[k].key_spec(),
    ensures
        i == k,
{
    if i < k {
        assert(a[i].key_spec() < a[k].key_spec());
    }
    if k < i {
        assert(a[k].key_spec() < a[i].key_spec());
    }
}

/// A sequence holding the same items as a strictly key-sorted sequence
/// repeats no key.
pub proof fn lemma_same_items_no_repeat<T: SortKey>(a: Seq<T>, w: Seq<T>)
    requires
        strictly_sorted_by_key(a),
        w.to_multiset() == a.to_multiset(),
    ensures
        !has_repeated_key(w),
        w.len() == a.len(),
{
    assert(w.len() == w.to_multiset().len());
    assert(a.len() == a.to_multiset().len());
    if has_repeated_key(w) {
        let x = choose|x: int| is_repeated_key(w, x);
        let (p, q) = choose|p: int, q: int|
            0 <= p < q < w.len() && #[trigger] w[p].key_spec() == x && #[trigger] w[q].key_spec()
                == x;
        assert(w.contains(w[p]));
        assert(w.contains(w[q]));
        assert(a.to_multiset().count(w[p]) > 0);
        assert(a.to_multiset().count(w[q]) > 0);
        assert(a.contains(w[p]));
        assert(a.contains(w[q]));
        let i = choose|i: int| 0 <= i < a.len() && a[i] == w[p];
        if w[p] == w[q] {
            let r = w.remove(q);
            assert(r[p] == w[p]);
            assert(r.contains(w[p]));
            assert(r.to_multiset() =~= w.to_multiset().remove(w[q]));
            assert(r.to_multiset().count(w[p]) > 0);
            assert(w.to_multiset().remove(w[q]).count(w[q]) > 0);
            assert(w.to_multiset().count(w[p]) >= 2);
            let ra = a.remove(i);
            assert(ra.len() == a.len() - 1);
            assert(ra.to_multiset() =~= a.to_multiset().remove(a[i]));
            assert(ra.to_multiset().count(w[p]) >= 1);
            assert(ra.contains(w[p]));
            let m = choose|m: int| 0 <= m < ra.len() && ra[m] == w[p];
            let k = if m < i {
                m
            } else {
                m + 1
            };
            assert(a[k] == ra[m]);
            lemma_strict_keys_distinct(a, i, k);
        } else {
            let k = choose|k: int| 0 <= k < a.len() && a[k] == w[q];
            lemma_strict_keys_distinct(a, i, k);
        }
    }
}

/// Two strictly key-sorted sequences holding the same items are equal: the
/// arrangement by increasing key is unique.
pub proof fn lemma_sorted_arrangement_unique<T: SortKey>(a: Seq<T>, b: Seq<T>)
    requires
        strictly_sorted_by_key(a),
        strictly_sorted_by_key(b),
        a.to_multiset() == b.to_multiset(),
    ensures
        a == b,
    decreases a.len(),
{
    assert(a.len() == a.to_multiset().len());
    assert(b.len() == b.to_multiset().len());
    if a.len() == 0 {
        assert(a =~= b);
    } else {
        assert(b.contains(b[0]));
        assert(a.contains(a[0]));
        assert(a.to_multiset().count(b[0]) > 0);
        assert(b.to_multiset().count(a[0]) > 0);
        assert(a.contains(b[0]));
        assert(b.contains(a[0]));
        let i = choose|i: int| 0 <= i < a.len() && a[i] == b[0];
        let j = choose|j: int| 0 <= j < b.len() && b[j] == a[0];
        if i > 0 {
            assert(a[0].key_spec() < a[i].key_spec());
        }
        if j > 0 {
            assert(b[0].key_spec() < b[j].key_spec());
        }
        assert(a[0] == b[0]);
        let ra = a.remove(0);
        let rb = b.remove(0);
        assert(ra.to_multiset() =~= a.to_multiset().remove(a[0]));
        assert(rb.to_multiset() =~= b.to_multiset().remove(b[0]));
        assert forall|x: int, y: int| 0 <= x < y < ra.len() implies ra[x].key_spec()
            < ra[y].key_spec() by {
            assert(ra[x] == a[x + 1] && ra[y] == a[y + 1]);
        }
        assert forall|x: int, y: int| 0 <= x < y < rb.len() implies rb[x].key_spec()
            < rb[y].key_spec() by {
            assert(rb[x] == b[x + 1] && rb[y] == b[y + 1]);
        }
        lemma_sorted_arrangement_unique(ra, rb);
        assert forall|k: int| 0 <= k < a.len() implies a[k] == b[k] by {
            if k > 0 {
                assert(a[k] == ra[k - 1] && b[k] == rb[k - 1]);
            }
        }
        assert(a =~= b);
    }
}

} // verus!
