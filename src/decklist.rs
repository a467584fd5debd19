//! Decklists and the card counts derived from them at ingestion.
use vstd::prelude::*;

verus! {

/// Main-deck size below which a deck is not tournament legal.
pub const MIN_MAIN_DECK: i128 = 60;

/// Sideboard size above which a deck is not tournament legal.
pub const MAX_SIDEBOARD: i128 = 15;

/// One line of a decklist.
#[derive(Debug, Clone)]
pub struct DecklistCard {
    pub slug: String,
    pub name: String,
    pub quantity: i32,
    pub card_type: Option<String>,
    pub element: Option<String>,
    pub cost: Option<i32>,
}

/// How many copies of one card a decklist holds over main deck and sideboard.
#[derive(Debug, Clone)]
pub struct CardFrequency {
    pub slug: String,
    pub quantity: i128,
}

/// A player's decklist for an event; unique on (event_id, player_id).
#[derive(Debug, Clone)]
pub struct Decklist {
    pub event_id: i32,
    pub player_id: String,
    pub player_name: String,
    pub champion: String,
    pub rank: i32,
    pub main_deck: Vec<DecklistCard>,
    pub sideboard: Vec<DecklistCard>,
    /// Sum of the main deck's quantities, derived at ingestion.
    pub main_deck_count: i128,
    /// Sum of the sideboard's quantities, derived at ingestion.
    pub sideboard_count: i128,
    /// Per-card totals over main deck and sideboard, derived at ingestion.
    pub card_frequencies: Option<Vec<CardFrequency>>,
    /// Milliseconds since the Unix epoch.
    pub updated_at: i64,
}

/// Sum of all quantities of a list of cards.
pub open spec fn total_quantity(cards: Seq<DecklistCard>) -> int
    decreases cards.len(),
{
    if cards.len() == 0 {
        0
    } else {
        total_quantity(cards.drop_last()) + cards.last().quantity
    }
}

/// Sum of the quantities of the lines of `cards` for card `slug`.
pub open spec fn quantity_of(cards: Seq<DecklistCard>, slug: Seq<char>) -> int
    decreases cards.len(),
{
    if cards.len() == 0 {
        0
    } else {
        quantity_of(cards.drop_last(), slug) + if cards.last().slug@ == slug {
            cards.last().quantity as int
        } else {
            0
        }
    }
}

/// Whether `freqs` is the card-frequency map of `cards`: one entry per
/// distinct slug of `cards`, each holding that slug's total quantity.
pub open spec fn frequencies_of(freqs: Seq<CardFrequency>, cards: Seq<DecklistCard>) -> bool {
    &&& forall|i: int, j: int|
        0 <= i < j < freqs.len() ==> #[trigger] freqs[i].slug@ != #[trigger] freqs[j].slug@
    &&& forall|i: int|
        0 <= i < freqs.len() ==> #[trigger] freqs[i].quantity == quantity_of(cards, freqs[i].slug@)
    &&& forall|i: int|
        0 <= i < freqs.len() ==> exists|k: int|
            0 <= k < cards.len() && #[trigger] cards[k].slug@ == #[trigger] freqs[i].slug@
    &&& forall|k: int|
        0 <= k < cards.len() ==> exists|i: int|
            0 <= i < freqs.len() && #[trigger] freqs[i].slug@ == #[trigger] cards[k].slug@
}

proof fn lemma_quantity_bounds(cards: Seq<DecklistCard>, slug: Seq<char>)
    ensures
        -0x8000_0000 * cards.len() <= quantity_of(cards, slug) <= 0x7fff_ffff * cards.len(),
        -0x8000_0000 * cards.len() <= total_quantity(cards) <= 0x7fff_ffff * cards.len(),
    decreases cards.len(),
{
    if cards.len() > 0 {
        lemma_quantity_bounds(cards.drop_last(), slug);
    }
}

/// Sums the quantities of a list of cards.
fn sum_quantities(cards: &Vec<DecklistCard>) -> (n: i128)
    ensures
        n == total_quantity(cards@),
{
    let mut n: i128 = 0;
    let mut i: usize = 0;
    while i < cards.len()
        invariant
            i <= cards.len(),
            n == total_quantity(cards@.take(i as int)),
        decreases cards.len() - i,
    {
        proof {
            assert(cards@.take(i + 1).drop_last() =~= cards@.take(i as int));
            lemma_quantity_bounds(cards@.take(i + 1), Seq::empty());
        }
        n = n + cards[i].quantity as i128;
        i = i + 1;
    }
    proof {
        assert(cards@.take(i as int) =~= cards@);
    }
    n
}

/// The position of the entry for `slug`, if there is one.
fn find_slug(freqs: &Vec<CardFrequency>, slug: &String) -> (at: Option<usize>)
    ensures
        at is None ==> forall|k: int| 0 <= k < freqs.len() ==> #[trigger] freqs@[k].slug@ != slug@,
        at is Some ==> at->Some_0 < freqs.len() && freqs@[at->Some_0 as int].slug@ == slug@,
{
    let mut j: usize = 0;
    while j < freqs.len()
        invariant
            j <= freqs.len(),
            forall|k: int| 0 <= k < j ==> #[trigger] freqs@[k].slug@ != slug@,
        decreases freqs.len() - j,
    {
        if freqs[j].slug == *slug {
            return Some(j);
        }
        j = j + 1;
    }
    None
}

proof fn lemma_quantity_push(seen: Seq<DecklistCard>, card: DecklistCard, s: Seq<char>)
    ensures
        quantity_of(seen.push(card), s) == quantity_of(seen, s) + if card.slug@ == s {
            card.quantity as int
        } else {
            0
        },
{
    assert(seen.push(card).drop_last() =~= seen);
}

proof fn lemma_add_to_entry(
    freqs: Seq<CardFrequency>,
    seen: Seq<DecklistCard>,
    card: DecklistCard,
    k: int,
    entry: CardFrequency,
)
    requires
        frequencies_of(freqs, seen),
        0 <= k < freqs.len(),
        freqs[k].slug@ == card.slug@,
        entry.slug@ == card.slug@,
        entry.quantity == freqs[k].quantity + card.quantity,
    ensures
        frequencies_of(freqs.update(k, entry), seen.push(card)),
{
    let nf = freqs.update(k, entry);
    let seen2 = seen.push(card);
    assert forall|a: int| 0 <= a < nf.len() implies #[trigger] nf[a].quantity == quantity_of(
        seen2,
        nf[a].slug@,
    ) by {
        lemma_quantity_push(seen, card, nf[a].slug@);
        if a != k {
            assert(nf[a] == freqs[a]);
            assert(freqs[a].slug@ != freqs[k].slug@);
        }
    }
    assert forall|a: int| 0 <= a < nf.len() implies exists|b: int|
        0 <= b < seen2.len() && #[trigger] seen2[b].slug@ == #[trigger] nf[a].slug@ by {
        if a == k {
            assert(seen2[seen.len() as int].slug@ == nf[a].slug@);
        } else {
            assert(nf[a] == freqs[a]);
            let b = choose|b: int| 0 <= b < seen.len() && #[trigger] seen[b].slug@ == freqs[a].slug@;
            assert(seen2[b] == seen[b]);
        }
    }
    assert forall|b: int| 0 <= b < seen2.len() implies exists|a: int|
        0 <= a < nf.len() && #[trigger] nf[a].slug@ == #[trigger] seen2[b].slug@ by {
        if b < seen.len() {
            assert(seen2[b] == seen[b]);
            let a = choose|a: int|
                0 <= a < freqs.len() && #[trigger] freqs[a].slug@ == #[trigger] seen[b].slug@;
            if a == k {
                assert(nf[k].slug@ == seen2[b].slug@);
            } else {
                assert(nf[a] == freqs[a]);
            }
        } else {
            assert(nf[k].slug@ == seen2[b].slug@);
        }
    }
    assert forall|a: int, c: int| 0 <= a < c < nf.len() implies #[trigger] nf[a].slug@
        != #[trigger] nf[c].slug@ by {
        assert(freqs[a].slug@ != freqs[c].slug@);
    }
}

proof fn lemma_new_entry(
    freqs: Seq<CardFrequency>,
    seen: Seq<DecklistCard>,
    card: DecklistCard,
    entry: CardFrequency,
)
    requires
        frequencies_of(freqs, seen),
        forall|k: int| 0 <= k < freqs.len() ==> #[trigger] freqs[k].slug@ != card.slug@,
        entry.slug@ == card.slug@,
        entry.quantity == card.quantity,
    ensures
        frequencies_of(freqs.push(entry), seen.push(card)),
{
    let nf = freqs.push(entry);
    let seen2 = seen.push(card);
    assert forall|b: int| 0 <= b < seen.len() implies #[trigger] seen[b].slug@ != card.slug@ by {
        if seen[b].slug@ == card.slug@ {
            let a = choose|a: int|
                0 <= a < freqs.len() && #[trigger] freqs[a].slug@ == #[trigger] seen[b].slug@;
        }
    }
    lemma_absent_quantity(seen, card.slug@);
    assert forall|a: int| 0 <= a < nf.len() implies #[trigger] nf[a].quantity == quantity_of(
        seen2,
        nf[a].slug@,
    ) by {
        lemma_quantity_push(seen, card, nf[a].slug@);
        if a < freqs.len() {
            assert(nf[a] == freqs[a]);
        }
    }
    assert forall|a: int| 0 <= a < nf.len() implies exists|b: int|
        0 <= b < seen2.len() && #[trigger] seen2[b].slug@ == #[trigger] nf[a].slug@ by {
        if a < freqs.len() {
            assert(nf[a] == freqs[a]);
            let b = choose|b: int| 0 <= b < seen.len() && #[trigger] seen[b].slug@ == freqs[a].slug@;
            assert(seen2[b] == seen[b]);
        } else {
            assert(seen2[seen.len() as int].slug@ == nf[a].slug@);
        }
    }
    assert forall|b: int| 0 <= b < seen2.len() implies exists|a: int|
        0 <= a < nf.len() && #[trigger] nf[a].slug@ == #[trigger] seen2[b].slug@ by {
        if b < seen.len() {
            assert(seen2[b] == seen[b]);
            let a = choose|a: int|
                0 <= a < freqs.len() && #[trigger] freqs[a].slug@ == #[trigger] seen[b].slug@;
            assert(nf[a] == freqs[a]);
        } else {
            assert(nf[freqs.len() as int].slug@ == seen2[b].slug@);
        }
    }
    assert forall|a: int, c: int| 0 <= a < c < nf.len() implies #[trigger] nf[a].slug@
        != #[trigger] nf[c].slug@ by {
        if c < freqs.len() {
            assert(nf[a] == freqs[a] && nf[c] == freqs[c]);
        } else {
            assert(nf[a] == freqs[a]);
        }
    }
}

/// Adds the lines of `cards` to a frequency map of the lines `before`.
fn add_frequencies(
    freqs: &mut Vec<CardFrequency>,
    cards: &Vec<DecklistCard>,
    Ghost(before): Ghost<Seq<DecklistCard>>,
)
    requires
        frequencies_of(old(freqs)@, before),
        before.len() <= usize::MAX,
    ensures
        frequencies_of(final(freqs)@, before + cards@),
{
    let mut i: usize = 0;
    while i < cards.len()
        invariant
            i <= cards.len(),
            before.len() <= usize::MAX,
            frequencies_of(freqs@, before + cards@.take(i as int)),
        decreases cards.len() - i,
    {
        let ghost seen = before + cards@.take(i as int);
        let card = &cards[i];
        proof {
            assert(before + cards@.take(i + 1) =~= seen.push(*card));
        }
        match find_slug(freqs, &card.slug) {
            Some(k) => {
                proof {
                    lemma_quantity_bounds(seen.push(*card), card.slug@);
                    lemma_quantity_push(seen, *card, card.slug@);
                }
                let q = freqs[k].quantity + card.quantity as i128;
                let slug = card.slug.clone();
                let entry = CardFrequency { slug, quantity: q };
                proof {
                    lemma_add_to_entry(freqs@, seen, *card, k as int, entry);
                }
                freqs.set(k, entry);
            },
            None => {
                let slug = card.slug.clone();
                let entry = CardFrequency { slug, quantity: card.quantity as i128 };
                proof {
                    lemma_new_entry(freqs@, seen, *card, entry);
                }
                freqs.push(entry);
            },
        }
        i = i + 1;
    }
    proof {
        assert(cards@.take(i as int) =~= cards@);
    }
}

proof fn lemma_absent_quantity(cards: Seq<DecklistCard>, slug: Seq<char>)
    requires
        forall|b: int| 0 <= b < cards.len() ==> #[trigger] cards[b].slug@ != slug,
    ensures
        quantity_of(cards, slug) == 0,
    decreases cards.len(),
{
    if cards.len() > 0 {
        lemma_absent_quantity(cards.drop_last(), slug);
    }
}

impl Decklist {
    /// An empty decklist for a player at an event.
    pub fn new(
        event_id: i32,
        player_id: String,
        player_name: String,
        champion: String,
        rank: i32,
        now: i64,
    ) -> (d: Decklist)
        ensures
            d.event_id == event_id,
            d.player_id == player_id,
            d.player_name == player_name,
            d.champion == champion,
            d.rank == rank,
            d.main_deck@.len() == 0,
            d.sideboard@.len() == 0,
            d.main_deck_count == 0,
            d.sideboard_count == 0,
            d.card_frequencies is None,
            d.updated_at == now,
    {
        Decklist {
            event_id,
            player_id,
            player_name,
            champion,
            rank,
            main_deck: Vec::new(),
            sideboard: Vec::new(),
            main_deck_count: 0,
            sideboard_count: 0,
            card_frequencies: None,
            updated_at: now,
        }
    }

    /// Derives the card-frequency map: for each slug, the sum of its
    /// quantities over main deck and sideboard. Nothing else changes.
    pub fn calculate_frequencies(&mut self)
        ensures
            final(self).card_frequencies is Some,
            frequencies_of(
                final(self).card_frequencies->Some_0@,
                old(self).main_deck@ + old(self).sideboard@,
            ),
            *final(self) == (Decklist {
                card_frequencies: final(self).card_frequencies,
                ..*old(self)
            }),
    {
        let mut freqs: Vec<CardFrequency> = Vec::new();
        proof {
            assert(frequencies_of(freqs@, Seq::<DecklistCard>::empty()));
        }
        add_frequencies(&mut freqs, &self.main_deck, Ghost(Seq::empty()));
        proof {
            assert(Seq::<DecklistCard>::empty() + self.main_deck@ =~= self.main_deck@);
        }
        let main_lines = self.main_deck.len();
        assert(main_lines == self.main_deck@.len());
        add_frequencies(&mut freqs, &self.sideboard, Ghost(self.main_deck@));
        self.card_frequencies = Some(freqs);
    }

    /// Whether the deck meets the size rules: at least sixty main-deck cards
    /// and at most fifteen in the sideboard.
    pub fn is_valid(&self) -> (r: bool)
        ensures
            r == (self.main_deck_count >= MIN_MAIN_DECK && self.sideboard_count <= MAX_SIDEBOARD),
    {
        self.main_deck_count >= MIN_MAIN_DECK && self.sideboard_count <= MAX_SIDEBOARD
    }
}

/// A decklist as the upstream describes it.
#[derive(Debug, Clone)]
pub struct DecklistData {
    pub player_id: String,
    pub player_name: String,
    pub champion: String,
    pub rank: i32,
    pub main_deck: Vec<DecklistCard>,
    pub sideboard: Option<Vec<DecklistCard>>,
}

impl Decklist {
    /// The decklist an upstream payload describes for event `event_id`, with
    /// its counts and card frequencies derived.
    pub fn from_api(event_id: i32, data: DecklistData, now: i64) -> (d: Decklist)
        ensures
            d.event_id == event_id,
            d.player_id == data.player_id,
            d.player_name == data.player_name,
            d.champion == data.champion,
            d.rank == data.rank,
            d.main_deck@ == data.main_deck@,
            d.sideboard@ == match data.sideboard {
                Some(s) => s@,
                None => Seq::empty(),
            },
            d.main_deck_count == total_quantity(d.main_deck@),
            d.sideboard_count == total_quantity(d.sideboard@),
            d.card_frequencies is Some,
            frequencies_of(d.card_frequencies->Some_0@, d.main_deck@ + d.sideboard@),
            d.updated_at == now,
    {
        let sideboard = match data.sideboard {
            Some(s) => s,
            None => Vec::new(),
        };
        let main_deck_count = sum_quantities(&data.main_deck);
        let sideboard_count = sum_quantities(&sideboard);
        let mut d = Decklist {
            event_id,
            player_id: data.player_id,
            player_name: data.player_name,
            champion: data.champion,
            rank: data.rank,
            main_deck: data.main_deck,
            sideboard,
            main_deck_count,
            sideboard_count,
            card_frequencies: None,
            updated_at: now,
        };
        d.calculate_frequencies();
        d
    }
}

} // verus!
