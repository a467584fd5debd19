//! What a catalog sync asks the card API for.
use vstd::prelude::*;
use crate::decklist::{Decklist, DecklistCard};

verus! {

/// Whether `out` holds each of the texts of `all` exactly once, and nothing
/// else.
pub open spec fn distinct_of(out: Seq<String>, all: Seq<String>) -> bool {
    &&& forall|i: int, j: int| 0 <= i < j < out.len() ==> #[trigger] out[i]@ != #[trigger] out[j]@
    &&& forall|i: int| 0 <= i < out.len() ==> #[trigger] used(all, out[i]@)
    &&& forall|k: int| 0 <= k < all.len() ==> #[trigger] used(out, all[k]@)
}

/// Whether some text of `v` is `t`.
pub open spec fn used(v: Seq<String>, t: Seq<char>) -> bool {
    exists|i: int| 0 <= i < v.len() && #[trigger] v[i]@ == t
}

fn contains_text(v: &Vec<String>, t: &String) -> (r: bool)
    ensures
        r <==> exists|i: int| 0 <= i < v.len() && #[trigger] v@[i]@ == t@,
{
    let mut i: usize = 0;
    while i < v.len()
        invariant
            i <= v.len(),
            forall|k: int| 0 <= k < i ==> #[trigger] v@[k]@ != t@,
        decreases v.len() - i,
    {
        if v[i] == *t {
            return true;
        }
        i = i + 1;
    }
    false
}

/// The distinct texts of a list, in order of first appearance.
pub fn distinct_texts(all: &Vec<String>) -> (out: Vec<String>)
    ensures
        distinct_of(out@, all@),
{
    let mut out: Vec<String> = Vec::new();
    let mut k: usize = 0;
    while k < all.len()
        invariant
            k <= all.len(),
            distinct_of(out@, all@.take(k as int)),
        decreases all.len() - k,
    {
        let ghost seen = all@.take(k as int);
        let ghost seen2 = all@.take(k + 1);
        let t = &all[k];
        let ghost before = out@;
        let present = contains_text(&out, t);
        if !present {
            out.push(t.clone());
        }
        proof {
            assert(seen2 =~= seen.push(*t));
            if !present {
                assert(out@ == before.push(*t));
            } else {
                assert(out@ == before);
            }
            assert forall|i: int, j: int| 0 <= i < j < out@.len() implies #[trigger] out@[i]@
                != #[trigger] out@[j]@ by {
                if j < before.len() {
                    assert(out@[i] == before[i] && out@[j] == before[j]);
                } else {
                    assert(out@[i] == before[i]);
                }
            }
            assert forall|i: int| 0 <= i < out@.len() implies #[trigger] used(seen2, out@[i]@) by {
                if i < before.len() {
                    assert(out@[i] == before[i]);
                    assert(used(seen, before[i]@));
                    let a = choose|a: int| 0 <= a < seen.len() && #[trigger] seen[a]@ == before[i]@;
                    assert(seen2[a] == seen[a]);
                } else {
                    assert(out@[i] == *t);
                    assert(seen2[k as int]@ == out@[i]@);
                }
            }
            assert forall|a: int| 0 <= a < seen2.len() implies #[trigger] used(out@, seen2[a]@) by {
                if a < seen.len() {
                    assert(seen2[a] == seen[a]);
                    assert(used(before, seen[a]@));
                    let i = choose|i: int| 0 <= i < before.len() && #[trigger] before[i]@ == seen[a]@;
                    assert(out@[i] == before[i]);
                } else {
                    assert(seen2[a] == all@[k as int]);
                    if out@.len() > before.len() {
                        assert(out@[before.len() as int]@ == seen2[a]@);
                    } else {
                        let i = choose|i: int| 0 <= i < out@.len() && #[trigger] out@[i]@ == t@;
                    }
                }
            }
        }
        k = k + 1;
    }
    proof {
        assert(all@.take(k as int) =~= all@);
    }
    out
}

/// The slugs of the lines of a list of cards, in order.
pub open spec fn line_slugs(cards: Seq<DecklistCard>) -> Seq<String> {
    cards.map_values(|c: DecklistCard| c.slug)
}

/// The slugs of every line, main deck then sideboard, of every decklist.
pub open spec fn deck_slugs(ds: Seq<Decklist>) -> Seq<String>
    decreases ds.len(),
{
    if ds.len() == 0 {
        Seq::empty()
    } else {
        deck_slugs(ds.drop_last()) + line_slugs(ds.last().main_deck@) + line_slugs(
            ds.last().sideboard@,
        )
    }
}

fn push_slugs(out: &mut Vec<String>, cards: &Vec<DecklistCard>)
    ensures
        final(out)@ == old(out)@ + line_slugs(cards@),
{
    let mut i: usize = 0;
    let ghost base = out@;
    while i < cards.len()
        invariant
            i <= cards.len(),
            out@ == base + line_slugs(cards@.take(i as int)),
        decreases cards.len() - i,
    {
        out.push(cards[i].slug.clone());
        proof {
            assert(line_slugs(cards@.take(i + 1)) =~= line_slugs(cards@.take(i as int)).push(
                cards@[i as int].slug,
            ));
        }
        i = i + 1;
    }
    proof {
        assert(cards@.take(i as int) =~= cards@);
    }
}

/// The distinct card slugs used by a list of decklists, main deck and
/// sideboard alike, in order of first use.
pub fn card_slugs(ds: &Vec<Decklist>) -> (slugs: Vec<String>)
    ensures
        distinct_of(slugs@, deck_slugs(ds@)),
{
    let mut all: Vec<String> = Vec::new();
    let mut i: usize = 0;
    while i < ds.len()
        invariant
            i <= ds.len(),
            all@ == deck_slugs(ds@.take(i as int)),
        decreases ds.len() - i,
    {
        proof {
            assert(ds@.take(i + 1).drop_last() =~= ds@.take(i as int));
        }
        push_slugs(&mut all, &ds[i].main_deck);
        push_slugs(&mut all, &ds[i].sideboard);
        i = i + 1;
    }
    proof {
        assert(ds@.take(i as int) =~= ds@);
    }
    distinct_texts(&all)
}

} // verus!
