//! Ordering of aggregation rows by a count, largest first.
use vstd::prelude::*;

verus! {

broadcast use vstd::seq_lib::group_seq_properties, vstd::multiset::group_multiset_axioms;

/// A row that is ordered by a count, largest first, and among equal counts
/// by a tie key, smallest first.
pub trait Ranked: Sized {
    /// The count the row is ordered by.
    spec fn rank_key(&self) -> int;

    /// The key that orders rows of equal count.
    spec fn tie_key(&self) -> int;

    /// Reads the count.
    fn key(&self) -> (k: u64)
        ensures
            k == self.rank_key(),
    ;

    /// Reads the tie key.
    fn tie(&self) -> (t: u64)
        ensures
            t == self.tie_key(),
    ;
}

/// Whether row `a` may stand before row `b`.
pub open spec fn goes_before<T: Ranked>(a: T, b: T) -> bool {
    a.rank_key() > b.rank_key() || (a.rank_key() == b.rank_key() && a.tie_key() <= b.tie_key())
}

/// Whether rows are ordered by count, largest first, and equal counts by tie
/// key, smallest first.
pub open spec fn sorted_desc<T: Ranked>(s: Seq<T>) -> bool {
    forall|i: int, j: int| 0 <= i < j < s.len() ==> goes_before(#[trigger] s[i], #[trigger] s[j])
}

proof fn lemma_insert_multiset<T>(s: Seq<T>, p: int, x: T)
    requires
        0 <= p <= s.len(),
    ensures
        s.insert(p, x).to_multiset() =~= s.to_multiset().insert(x),
{
    let t = s.insert(p, x);
    s.insert_ensures(p, x);
    assert(t.remove(p) =~= s);
    t.to_multiset_ensures();
    assert(t[p] == x);
    assert(t.contains(x));
}

/// Orders rows by count, largest first, and equal counts by tie key; the
/// rows themselves are kept.
pub fn sort_by_count_desc<T: Ranked>(v: Vec<T>) -> (r: Vec<T>)
    ensures
        r@.to_multiset() == v@.to_multiset(),
        r.len() == v.len(),
        sorted_desc(r@),
{
    let ghost orig = v@;
    let mut rest = v;
    let mut out: Vec<T> = Vec::new();
    while rest.len() > 0
        invariant
            out@.to_multiset().add(rest@.to_multiset()) =~= orig.to_multiset(),
            sorted_desc(out@),
        decreases rest.len(),
    {
        let ghost before = rest@;
        let x = rest.pop().unwrap();
        proof {
            assert(before =~= rest@.push(x));
            rest@.to_multiset_ensures();
        }
        let k = x.key();
        let t = x.tie();
        let mut p: usize = 0;
        while p < out.len() && (out[p].key() > k || (out[p].key() == k && out[p].tie() <= t))
            invariant
                p <= out.len(),
                k == x.rank_key(),
                t == x.tie_key(),
                forall|q: int| 0 <= q < p ==> goes_before(#[trigger] out@[q], x),
            decreases out.len() - p,
        {
            p = p + 1;
        }
        let ghost prev = out@;
        proof {
            lemma_insert_multiset(prev, p as int, x);
            prev.insert_ensures(p as int, x);
        }
        out.insert(p, x);
        proof {
            assert forall|i: int, j: int| 0 <= i < j < out@.len() implies goes_before(
                #[trigger] out@[i],
                #[trigger] out@[j],
            ) by {
                if j < p {
                    assert(out@[i] == prev[i] && out@[j] == prev[j]);
                } else if j == p {
                    assert(out@[i] == prev[i]);
                } else if i < p {
                    assert(out@[i] == prev[i]);
                    assert(out@[j] == prev[j - 1]);
                } else if i == p {
                    assert(out@[j] == prev[j - 1]);
                    assert(!goes_before(prev[p as int], x));
                    if j - 1 > p {
                        assert(goes_before(prev[p as int], prev[j - 1]));
                    }
                } else {
                    assert(out@[i] == prev[i - 1]);
                    assert(out@[j] == prev[j - 1]);
                }
            }
        }
    }
    proof {
        assert(rest@ =~= Seq::<T>::empty());
        out@.to_multiset_ensures();
        orig.to_multiset_ensures();
    }
    out
}

/// Rows of a sorted list are rows of the input, and the other way round; a
/// list without repeated rows stays without.
pub proof fn lemma_same_rows<T>(a: Seq<T>, b: Seq<T>)
    requires
        a.to_multiset() == b.to_multiset(),
    ensures
        forall|x: T| a.contains(x) <==> b.contains(x),
        b.no_duplicates() ==> a.no_duplicates(),
{
    a.to_multiset_ensures();
    b.to_multiset_ensures();
    assert forall|x: T| a.contains(x) <==> b.contains(x) by {
        assert(a.to_multiset().count(x) == b.to_multiset().count(x));
        assert(a.contains(x) <==> a.to_multiset().count(x) > 0);
        assert(b.contains(x) <==> b.to_multiset().count(x) > 0);
    }
    if b.no_duplicates() {
        b.lemma_multiset_has_no_duplicates();
        a.lemma_multiset_has_no_duplicates_conv();
    }
}

} // verus!
