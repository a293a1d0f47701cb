//! A stable merge sort by an integer key, shared by the document's blocks and a file's findings.
use vstd::prelude::*;

verus! {

/// A value ordered by an integer key in specifications.
pub trait SpecKey {
    /// The key the value is ordered by.
    spec fn sort_key(&self) -> int;
}

/// A value whose key can be compared at run time.
pub trait SortKey: SpecKey + Sized {
    /// Whether this value's key is at most `other`'s.
    fn key_le(&self, other: &Self) -> (res: bool)
        ensures
            res == (self.sort_key() <= other.sort_key()),
    ;
}

/// Whether the keys of `s` never decrease.
pub open spec fn key_sorted<T: SpecKey>(s: Seq<T>) -> bool {
    forall|i: int, j: int| 0 <= i <= j < s.len() ==> s[i].sort_key() <= s[j].sort_key()
}

/// The elements of `s` whose key is `k`, in the order `s` holds them.
pub open spec fn with_key<T: SpecKey>(s: Seq<T>, k: int) -> Seq<T>
    decreases s.len(),
{
    if s.len() == 0 {
        s
    } else if s[0].sort_key() == k {
        seq![s[0]] + with_key(s.drop_first(), k)
    } else {
        with_key(s.drop_first(), k)
    }
}

/// `sorted` is `s` stably sorted by key: its keys never decrease, and the elements of each key
/// appear in the order `s` holds them. The two together leave exactly one such sequence.
pub open spec fn is_stable_sort_of<T: SpecKey>(sorted: Seq<T>, s: Seq<T>) -> bool {
    &&& key_sorted(sorted)
    &&& forall|k: int| #[trigger] with_key(sorted, k) == with_key(s, k)
}

/// The stable merge of two sequences: on equal keys, `a`'s element comes first.
pub open spec fn merged<T: SpecKey>(a: Seq<T>, b: Seq<T>) -> Seq<T>
    decreases a.len() + b.len(),
{
    if a.len() == 0 {
        b
    } else if b.len() == 0 {
        a
    } else if a[0].sort_key() <= b[0].sort_key() {
        seq![a[0]] + merged(a.drop_first(), b)
    } else {
        seq![b[0]] + merged(a, b.drop_first())
    }
}

/// Selecting by key distributes over concatenation.
pub proof fn lemma_with_key_add<T: SpecKey>(a: Seq<T>, b: Seq<T>, k: int)
    ensures
        with_key(a + b, k) == with_key(a, k) + with_key(b, k),
    decreases a.len(),
{
    if a.len() == 0 {
        assert(a + b =~= b);
        assert(with_key(a, k) + with_key(b, k) =~= with_key(b, k));
    } else {
        assert((a + b).drop_first() =~= a.drop_first() + b);
        lemma_with_key_add(a.drop_first(), b, k);
        if a[0].sort_key() == k {
            assert(with_key(a + b, k) =~= with_key(a, k) + with_key(b, k));
        } else {
            assert(with_key(a + b, k) =~= with_key(a, k) + with_key(b, k));
        }
    }
}

/// A sequence with no element of key `k` has nothing to select for `k`.
pub proof fn lemma_with_key_none<T: SpecKey>(s: Seq<T>, k: int)
    requires
        forall|i: int| 0 <= i < s.len() ==> s[i].sort_key() != k,
    ensures
        with_key(s, k) == Seq::<T>::empty(),
    decreases s.len(),
{
    if s.len() > 0 {
        lemma_with_key_none(s.drop_first(), k);
    }
}

/// A sequence of at most one element is sorted.
pub proof fn lemma_short_sorted<T: SpecKey>(s: Seq<T>)
    requires
        s.len() <= 1,
    ensures
        key_sorted(s),
{
}

/// Every key in a merge is at least any bound that holds for both inputs.
proof fn lemma_merged_lower<T: SpecKey>(a: Seq<T>, b: Seq<T>, lower: int)
    requires
        forall|i: int| 0 <= i < a.len() ==> a[i].sort_key() >= lower,
        forall|i: int| 0 <= i < b.len() ==> b[i].sort_key() >= lower,
    ensures
        forall|i: int| 0 <= i < merged(a, b).len() ==> merged(a, b)[i].sort_key() >= lower,
        merged(a, b).len() == a.len() + b.len(),
    decreases a.len() + b.len(),
{
    if a.len() > 0 && b.len() > 0 {
        if a[0].sort_key() <= b[0].sort_key() {
            lemma_merged_lower(a.drop_first(), b, lower);
        } else {
            lemma_merged_lower(a, b.drop_first(), lower);
        }
    }
}

/// Merging two sorted sequences gives a sorted sequence that selects, for each key, the
/// elements of `a` and then those of `b`.
pub proof fn lemma_merged<T: SpecKey>(a: Seq<T>, b: Seq<T>)
    requires
        key_sorted(a),
        key_sorted(b),
    ensures
        key_sorted(merged(a, b)),
        merged(a, b).len() == a.len() + b.len(),
        forall|k: int| #[trigger] with_key(merged(a, b), k) == with_key(a, k) + with_key(b, k),
    decreases a.len() + b.len(),
{
    if a.len() == 0 {
        assert forall|k: int| #[trigger] with_key(merged(a, b), k) == with_key(a, k) + with_key(b, k) by {
            assert(with_key(a, k) + with_key(b, k) =~= with_key(b, k));
        }
    } else if b.len() == 0 {
        assert forall|k: int| #[trigger] with_key(merged(a, b), k) == with_key(a, k) + with_key(b, k) by {
            assert(with_key(a, k) + with_key(b, k) =~= with_key(a, k));
        }
    } else if a[0].sort_key() <= b[0].sort_key() {
        let rest = merged(a.drop_first(), b);
        lemma_merged(a.drop_first(), b);
        lemma_merged_lower(a.drop_first(), b, a[0].sort_key());
        let m = merged(a, b);
        assert(m == seq![a[0]] + rest);
        assert forall|i: int, j: int| 0 <= i <= j < m.len() implies m[i].sort_key() <= m[j].sort_key() by {
            if i > 0 {
                assert(m[i] == rest[i - 1]);
                assert(m[j] == rest[j - 1]);
            } else if j > 0 {
                assert(m[j] == rest[j - 1]);
            }
        }
        assert forall|k: int| #[trigger] with_key(merged(a, b), k) == with_key(a, k) + with_key(b, k) by {
            assert(m.drop_first() =~= rest);
            assert(with_key(rest, k) == with_key(a.drop_first(), k) + with_key(b, k));
            assert(with_key(merged(a, b), k) =~= with_key(a, k) + with_key(b, k));
        }
    } else {
        let rest = merged(a, b.drop_first());
        lemma_merged(a, b.drop_first());
        lemma_merged_lower(a, b.drop_first(), b[0].sort_key());
        let m = merged(a, b);
        assert(m == seq![b[0]] + rest);
        assert forall|i: int, j: int| 0 <= i <= j < m.len() implies m[i].sort_key() <= m[j].sort_key() by {
            if i > 0 {
                assert(m[i] == rest[i - 1]);
                assert(m[j] == rest[j - 1]);
            } else if j > 0 {
                assert(m[j] == rest[j - 1]);
            }
        }
        assert forall|k: int| #[trigger] with_key(merged(a, b), k) == with_key(a, k) + with_key(b, k) by {
            assert(m.drop_first() =~= rest);
            assert(with_key(rest, k) == with_key(a, k) + with_key(b.drop_first(), k));
            if b[0].sort_key() == k {
                lemma_with_key_none(a, k);
                assert(with_key(merged(a, b), k) =~= with_key(a, k) + with_key(b, k));
            } else {
                assert(with_key(merged(a, b), k) =~= with_key(a, k) + with_key(b, k));
            }
        }
    }
}

/// An element is among those selected for its own key.
pub proof fn lemma_with_key_contains<T: SpecKey>(s: Seq<T>, i: int)
    requires
        0 <= i < s.len(),
    ensures
        with_key(s, s[i].sort_key()).contains(s[i]),
    decreases s.len(),
{
    let k = s[i].sort_key();
    if i == 0 {
        assert(with_key(s, k)[0] == s[0]);
    } else {
        lemma_with_key_contains(s.drop_first(), i - 1);
        assert(s.drop_first()[i - 1] == s[i]);
        let rest = with_key(s.drop_first(), k);
        let j = choose|j: int| 0 <= j < rest.len() && rest[j] == s[i];
        if s[0].sort_key() == k {
            assert(with_key(s, k)[j + 1] == s[i]);
        } else {
            assert(with_key(s, k)[j] == s[i]);
        }
    }
}

/// Whatever is selected from a sequence is in it.
pub proof fn lemma_with_key_from<T: SpecKey>(s: Seq<T>, k: int, x: T)
    requires
        with_key(s, k).contains(x),
    ensures
        s.contains(x),
    decreases s.len(),
{
    if s.len() > 0 {
        let rest = with_key(s.drop_first(), k);
        if s[0].sort_key() == k && x == s[0] {
            assert(s[0] == x);
        } else {
            let w = with_key(s, k);
            let j = choose|j: int| 0 <= j < w.len() && w[j] == x;
            if s[0].sort_key() == k {
                assert(rest[j - 1] == x);
            } else {
                assert(rest[j] == x);
            }
            lemma_with_key_from(s.drop_first(), k, x);
            let m = choose|m: int| 0 <= m < s.drop_first().len() && s.drop_first()[m] == x;
            assert(s[m + 1] == x);
        }
    }
}

/// Every element of a key-sorted sequence has a key at least that of its first element.
proof fn lemma_sorted_first_least<T: SpecKey>(s: Seq<T>)
    requires
        key_sorted(s),
        s.len() > 0,
    ensures
        forall|i: int| 0 <= i < s.len() ==> s[0].sort_key() <= (#[trigger] s[i]).sort_key(),
{
}

/// Dropping the first element keeps a sequence sorted.
proof fn lemma_sorted_drop_first<T: SpecKey>(s: Seq<T>)
    requires
        key_sorted(s),
        s.len() > 0,
    ensures
        key_sorted(s.drop_first()),
{
    assert forall|i: int, j: int| 0 <= i <= j < s.drop_first().len() implies s.drop_first()[i].sort_key()
        <= s.drop_first()[j].sort_key() by {
        assert(s.drop_first()[i] == s[i + 1]);
        assert(s.drop_first()[j] == s[j + 1]);
    }
}

/// The stable sort of a sequence is unique: two sequences that are both stable sorts of the same
/// input are equal.
pub proof fn lemma_stable_sort_unique<T: SpecKey>(a: Seq<T>, b: Seq<T>, s: Seq<T>)
    requires
        is_stable_sort_of(a, s),
        is_stable_sort_of(b, s),
    ensures
        a == b,
{
    lemma_sorted_same_keys_equal(a, b);
}

/// Two sorted sequences that select the same elements for every key are equal.
proof fn lemma_sorted_same_keys_equal<T: SpecKey>(a: Seq<T>, b: Seq<T>)
    requires
        key_sorted(a),
        key_sorted(b),
        forall|k: int| #[trigger] with_key(a, k) == with_key(b, k),
    ensures
        a == b,
    decreases a.len() + b.len(),
{
    if a.len() == 0 && b.len() == 0 {
        assert(a =~= b);
    } else if a.len() == 0 {
        lemma_with_key_contains(b, 0);
        assert(with_key(a, b[0].sort_key()) == with_key(b, b[0].sort_key()));
        lemma_with_key_from(a, b[0].sort_key(), b[0]);
    } else if b.len() == 0 {
        lemma_with_key_contains(a, 0);
        assert(with_key(a, a[0].sort_key()) == with_key(b, a[0].sort_key()));
        lemma_with_key_from(b, a[0].sort_key(), a[0]);
    } else {
        let ka = a[0].sort_key();
        let kb = b[0].sort_key();
        lemma_with_key_contains(a, 0);
        lemma_with_key_contains(b, 0);
        assert(with_key(a, ka) == with_key(b, ka));
        assert(with_key(a, kb) == with_key(b, kb));
        lemma_with_key_from(b, ka, a[0]);
        lemma_with_key_from(a, kb, b[0]);
        lemma_sorted_first_least(a);
        lemma_sorted_first_least(b);
        let i = choose|i: int| 0 <= i < b.len() && b[i] == a[0];
        let j = choose|j: int| 0 <= j < a.len() && a[j] == b[0];
        assert(kb <= b[i].sort_key());
        assert(ka <= a[j].sort_key());
        assert(ka == kb);
        assert(with_key(a, ka)[0] == a[0]);
        assert(with_key(b, ka)[0] == b[0]);
        lemma_sorted_drop_first(a);
        lemma_sorted_drop_first(b);
        assert forall|k: int| #[trigger] with_key(a.drop_first(), k) == with_key(b.drop_first(), k) by {
            assert(with_key(a, k) == with_key(b, k));
            if k == ka {
                assert(with_key(a.drop_first(), k) =~= with_key(a, k).drop_first());
                assert(with_key(b.drop_first(), k) =~= with_key(b, k).drop_first());
            }
        }
        lemma_sorted_same_keys_equal(a.drop_first(), b.drop_first());
        assert(a =~= b) by {
            assert forall|i: int| 0 <= i < a.len() implies a[i] == b[i] by {
                if i > 0 {
                    assert(a[i] == a.drop_first()[i - 1]);
                    assert(b[i] == b.drop_first()[i - 1]);
                }
            }
        }
    }
}

/// Merges two sorted vectors stably.
fn merge_sorted<T: SortKey + Copy>(a: Vec<T>, b: Vec<T>) -> (res: Vec<T>)
    ensures
        res@ == merged(a@, b@),
{
    let mut out: Vec<T> = Vec::new();
    let mut i: usize = 0;
    let mut j: usize = 0;
    assert(a@.skip(0) =~= a@);
    assert(b@.skip(0) =~= b@);
    while i < a.len() || j < b.len()
        invariant
            i <= a@.len(),
            j <= b@.len(),
            out@ + merged(a@.skip(i as int), b@.skip(j as int)) == merged(a@, b@),
        decreases a@.len() + b@.len() - i - j,
    {
        let ghost sa = a@.skip(i as int);
        let ghost sb = b@.skip(j as int);
        let take_a = if i == a.len() {
            false
        } else if j == b.len() {
            true
        } else {
            a[i].key_le(&b[j])
        };
        if take_a {
            let x = a[i];
            proof {
                assert(sa.drop_first() =~= a@.skip(i + 1));
                if sb.len() == 0 {
                    assert(sa =~= seq![x] + sa.drop_first());
                }
            }
            out.push(x);
            i = i + 1;
        } else {
            let y = b[j];
            proof {
                assert(sb.drop_first() =~= b@.skip(j + 1));
                if sa.len() == 0 {
                    assert(sb =~= seq![y] + sb.drop_first());
                }
            }
            out.push(y);
            j = j + 1;
        }
        assert(out@ + merged(a@.skip(i as int), b@.skip(j as int)) =~= merged(a@, b@));
    }
    assert(a@.skip(i as int).len() == 0 && b@.skip(j as int).len() == 0);
    assert(out@ =~= merged(a@, b@));
    out
}

/// An element occurs in `s` as often as it occurs among the elements of `s` with its key.
proof fn lemma_count_with_key<T: SpecKey>(s: Seq<T>, x: T)
    ensures
        s.to_multiset().count(x) == with_key(s, x.sort_key()).to_multiset().count(x),
    decreases s.len(),
{
    broadcast use {vstd::seq_lib::group_to_multiset_ensures, vstd::multiset::group_multiset_axioms};

    if s.len() > 0 {
        let rest = s.drop_first();
        let k = x.sort_key();
        lemma_count_with_key(rest, x);
        assert(s.remove(0) =~= rest);
        assert(s.contains(s[0]));
        if s[0].sort_key() == k {
            let kept = seq![s[0]] + with_key(rest, k);
            assert(kept.remove(0) =~= with_key(rest, k));
            assert(kept[0] == s[0]);
            assert(kept.contains(s[0]));
        }
    }
}

/// A stable sort keeps every element, as often as it occurs: it only reorders.
pub proof fn lemma_stable_sort_keeps_elements<T: SpecKey>(sorted: Seq<T>, s: Seq<T>)
    requires
        is_stable_sort_of(sorted, s),
    ensures
        sorted.to_multiset() =~= s.to_multiset(),
{
    assert forall|x: T| #[trigger] sorted.to_multiset().count(x) == s.to_multiset().count(x) by {
        lemma_count_with_key(sorted, x);
        lemma_count_with_key(s, x);
        assert(with_key(sorted, x.sort_key()) == with_key(s, x.sort_key()));
    }
}

/// Sorts `v` stably by key, in `O(n log n)` comparisons.
pub fn sort_stable<T: SortKey + Copy>(v: Vec<T>) -> (res: Vec<T>)
    ensures
        is_stable_sort_of(res@, v@),
        res@.len() == v@.len(),
    decreases v@.len(),
{
    let n = v.len();
    if n <= 1 {
        proof {
            lemma_short_sorted(v@);
        }
        return v;
    }
    let mut left = v;
    let right = left.split_off(n / 2);
    proof {
        assert(v@ =~= left@ + right@);
    }
    let sorted_left = sort_stable(left);
    let sorted_right = sort_stable(right);
    let res = merge_sorted(sorted_left, sorted_right);
    proof {
        lemma_merged(sorted_left@, sorted_right@);
        assert forall|k: int| #[trigger] with_key(res@, k) == with_key(v@, k) by {
            lemma_with_key_add(left@, right@, k);
        }
    }
    res
}

} // verus!
