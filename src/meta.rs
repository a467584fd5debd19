//! The meta aggregation engine: rollups over the ingested corpus, restricted
//! to a selection of events.
//!
//! Statistics are held exactly, as counts and sums; a share or an average is
//! the quotient of two of them.
use vstd::prelude::*;
use crate::card::Card;
use crate::decklist::{CardFrequency, Decklist};
use crate::event::{Event, EventFormat};
use crate::ranking::{Ranked, goes_before, sorted_desc, sort_by_count_desc, lemma_same_rows};
use crate::standing::{Standing, WinRate};
use crate::text::str_eq;

verus! {

/// Placement up to which a finish counts as top 8.
pub const TOP_8: i32 = 8;

/// Placement up to which a finish counts as top 16.
pub const TOP_16: i32 = 16;

/// Milliseconds in a day.
pub const DAY_MS: i64 = 86_400_000;

/// Whether an event belongs to a selection: complete, ranked, of the given
/// format if one is given, and started no earlier than `since` if given.
pub open spec fn selected(e: Event, format: Option<EventFormat>, since: Option<i64>) -> bool {
    &&& e.status@ == "complete"@
    &&& e.ranked
    &&& (format matches Some(f) ==> e.format == f)
    &&& (since matches Some(t) ==> (e.start_date matches Some(d) && d >= t))
}

/// The ids of the selected events, in order.
pub open spec fn selected_ids(events: Seq<Event>, format: Option<EventFormat>, since: Option<i64>) -> Seq<
    i32,
>
    decreases events.len(),
{
    if events.len() == 0 {
        Seq::empty()
    } else {
        let rest = selected_ids(events.drop_last(), format, since);
        if selected(events.last(), format, since) {
            rest.push(events.last().event_id)
        } else {
            rest
        }
    }
}

/// The start of a window of `days` days that ends at `now`.
pub fn window_start(now: i64, days: i32) -> (t: i64)
    requires
        -0x4000_0000_0000_0000 <= now <= 0x4000_0000_0000_0000,
    ensures
        t == now - days * DAY_MS,
{
    now - days as i64 * DAY_MS
}

/// The ids of the events in a selection.
pub fn select_event_ids(events: &Vec<Event>, format: Option<EventFormat>, since: Option<i64>) -> (ids:
    Vec<i32>)
    ensures
        ids@ == selected_ids(events@, format, since),
{
    let mut ids: Vec<i32> = Vec::new();
    let mut i: usize = 0;
    while i < events.len()
        invariant
            i <= events.len(),
            ids@ == selected_ids(events@.take(i as int), format, since),
        decreases events.len() - i,
    {
        proof {
            assert(events@.take(i + 1).drop_last() =~= events@.take(i as int));
        }
        let e = &events[i];
        let in_format = match format {
            Some(f) => e.format == f,
            None => true,
        };
        let in_window = match since {
            Some(t) => match e.start_date {
                Some(d) => d >= t,
                None => false,
            },
            None => true,
        };
        if str_eq(e.status.as_str(), "complete") && e.ranked && in_format && in_window {
            ids.push(e.event_id);
        }
        i = i + 1;
    }
    proof {
        assert(events@.take(i as int) =~= events@);
    }
    ids
}

/// Whether `id` is one of `ids`.
pub fn has_id(ids: &Vec<i32>, id: i32) -> (r: bool)
    ensures
        r == ids@.contains(id),
{
    let mut i: usize = 0;
    while i < ids.len()
        invariant
            i <= ids.len(),
            forall|k: int| 0 <= k < i ==> ids@[k] != id,
        decreases ids.len() - i,
    {
        if ids[i] == id {
            return true;
        }
        i = i + 1;
    }
    false
}

/// One finish at an event, filed under a key (the champion played, or a card
/// of the deck), with its rank, a weight (copies of the card) and, where
/// known, the match win rate.
#[derive(Debug, Clone)]
pub struct Placing {
    pub event_id: i32,
    pub key: String,
    pub rank: i32,
    pub weight: i32,
    pub win_rate: Option<WinRate>,
}

/// The finish a decklist records.
pub open spec fn decklist_placing(d: Decklist) -> Placing {
    Placing { event_id: d.event_id, key: d.champion, rank: d.rank, weight: 1, win_rate: None }
}

/// The finish a standing records.
pub open spec fn standing_placing(s: Standing) -> Placing {
    Placing { event_id: s.event_id, key: s.champion, rank: s.rank, weight: 1, win_rate: s.match_win_rate }
}

/// The finishes of a list of decklists.
pub fn placings_of_decklists(ds: &Vec<Decklist>) -> (ps: Vec<Placing>)
    ensures
        ps@ == ds@.map_values(|d: Decklist| decklist_placing(d)),
{
    let mut ps: Vec<Placing> = Vec::new();
    let mut i: usize = 0;
    while i < ds.len()
        invariant
            i <= ds.len(),
            ps@ == ds@.take(i as int).map_values(|d: Decklist| decklist_placing(d)),
        decreases ds.len() - i,
    {
        let d = &ds[i];
        ps.push(Placing { event_id: d.event_id, key: d.champion.clone(), rank: d.rank, weight: 1, win_rate: None });
        proof {
            assert(ds@.take(i + 1).map_values(|d: Decklist| decklist_placing(d)) =~= ds@.take(
                i as int,
            ).map_values(|d: Decklist| decklist_placing(d)).push(decklist_placing(ds@[i as int])));
        }
        i = i + 1;
    }
    proof {
        assert(ds@.take(i as int) =~= ds@);
    }
    ps
}

/// The finishes of a list of standings.
pub fn placings_of_standings(ss: &Vec<Standing>) -> (ps: Vec<Placing>)
    ensures
        ps@ == ss@.map_values(|s: Standing| standing_placing(s)),
{
    let mut ps: Vec<Placing> = Vec::new();
    let mut i: usize = 0;
    while i < ss.len()
        invariant
            i <= ss.len(),
            ps@ == ss@.take(i as int).map_values(|s: Standing| standing_placing(s)),
        decreases ss.len() - i,
    {
        let s = &ss[i];
        ps.push(
            Placing {
                event_id: s.event_id,
                key: s.champion.clone(),
                rank: s.rank,
                weight: 1,
                win_rate: s.match_win_rate,
            },
        );
        proof {
            assert(ss@.take(i + 1).map_values(|s: Standing| standing_placing(s)) =~= ss@.take(
                i as int,
            ).map_values(|s: Standing| standing_placing(s)).push(standing_placing(ss@[i as int])));
        }
        i = i + 1;
    }
    proof {
        assert(ss@.take(i as int) =~= ss@);
    }
    ps
}

/// Whether a finish is at one of the selected events.
pub open spec fn counted(p: Placing, ids: Seq<i32>) -> bool {
    ids.contains(p.event_id)
}

/// Finishes at selected events.
pub open spec fn counted_total(ps: Seq<Placing>, ids: Seq<i32>) -> nat
    decreases ps.len(),
{
    if ps.len() == 0 {
        0
    } else {
        counted_total(ps.drop_last(), ids) + if counted(ps.last(), ids) {
            1nat
        } else {
            0nat
        }
    }
}

/// Finishes at selected events with champion `c`.
pub open spec fn appearances(ps: Seq<Placing>, ids: Seq<i32>, c: Seq<char>) -> nat
    decreases ps.len(),
{
    if ps.len() == 0 {
        0
    } else {
        appearances(ps.drop_last(), ids, c) + if counted(ps.last(), ids) && ps.last().key@
            == c {
            1nat
        } else {
            0nat
        }
    }
}

/// Finishes at selected events with champion `c` ranked `cut` or better.
pub open spec fn placed_within(ps: Seq<Placing>, ids: Seq<i32>, c: Seq<char>, cut: int) -> nat
    decreases ps.len(),
{
    if ps.len() == 0 {
        0
    } else {
        placed_within(ps.drop_last(), ids, c, cut) + if counted(ps.last(), ids)
            && ps.last().key@ == c && ps.last().rank <= cut {
            1nat
        } else {
            0nat
        }
    }
}

/// Sum of the ranks of the finishes at selected events with champion `c`.
pub open spec fn rank_total(ps: Seq<Placing>, ids: Seq<i32>, c: Seq<char>) -> int
    decreases ps.len(),
{
    if ps.len() == 0 {
        0
    } else {
        rank_total(ps.drop_last(), ids, c) + if counted(ps.last(), ids) && ps.last().key@
            == c {
            ps.last().rank as int
        } else {
            0
        }
    }
}

/// Sum of the weights of the finishes at selected events under key `c`.
pub open spec fn weight_total(ps: Seq<Placing>, ids: Seq<i32>, c: Seq<char>) -> int
    decreases ps.len(),
{
    if ps.len() == 0 {
        0
    } else {
        weight_total(ps.drop_last(), ids, c) + if counted(ps.last(), ids) && ps.last().key@ == c {
            ps.last().weight as int
        } else {
            0
        }
    }
}

/// The known win rates of the finishes at selected events with champion `c`,
/// in order.
pub open spec fn rates_of(ps: Seq<Placing>, ids: Seq<i32>, c: Seq<char>) -> Seq<WinRate>
    decreases ps.len(),
{
    if ps.len() == 0 {
        Seq::empty()
    } else {
        let rest = rates_of(ps.drop_last(), ids, c);
        if counted(ps.last(), ids) && ps.last().key@ == c && ps.last().win_rate is Some {
            rest.push(ps.last().win_rate->Some_0)
        } else {
            rest
        }
    }
}

/// The position of the first finish at a selected event under key `c`
/// (meaningful where there is one).
pub open spec fn first_index(ps: Seq<Placing>, ids: Seq<i32>, c: Seq<char>) -> int
    decreases ps.len(),
{
    if ps.len() == 0 {
        0
    } else if appearances(ps.drop_last(), ids, c) > 0 {
        first_index(ps.drop_last(), ids, c)
    } else {
        ps.len() - 1
    }
}

/// The first finish under a key that has one is a counted finish under it.
proof fn lemma_first_index(ps: Seq<Placing>, ids: Seq<i32>, c: Seq<char>)
    requires
        appearances(ps, ids, c) > 0,
    ensures
        0 <= first_index(ps, ids, c) < ps.len(),
        counted(ps[first_index(ps, ids, c)], ids),
        ps[first_index(ps, ids, c)].key@ == c,
    decreases ps.len(),
{
    let q = ps.drop_last();
    if appearances(q, ids, c) > 0 {
        lemma_first_index(q, ids, c);
        assert(ps[first_index(q, ids, c)] == q[first_index(q, ids, c)]);
    } else {
        assert(ps.last() == ps[ps.len() - 1]);
    }
}

/// Distinct keys with finishes have distinct first positions.
proof fn lemma_first_index_distinct(ps: Seq<Placing>, ids: Seq<i32>, a: Seq<char>, b: Seq<char>)
    requires
        appearances(ps, ids, a) > 0,
        appearances(ps, ids, b) > 0,
        a != b,
    ensures
        first_index(ps, ids, a) != first_index(ps, ids, b),
{
    lemma_first_index(ps, ids, a);
    lemma_first_index(ps, ids, b);
}

/// What one key scored over the finishes at selected events.
#[derive(Debug, Clone)]
pub struct Tally {
    pub key: String,
    pub appearances: u64,
    pub rank_sum: i128,
    pub weight_sum: i128,
    pub top_8: u64,
    pub top_16: u64,
    pub win_rates: Vec<WinRate>,
    /// Position of the key's first finish at a selected event.
    pub first_seen: u64,
}

impl Ranked for Tally {
    open spec fn rank_key(&self) -> int {
        self.appearances as int
    }

    open spec fn tie_key(&self) -> int {
        self.first_seen as int
    }

    fn key(&self) -> (k: u64) {
        self.appearances
    }

    fn tie(&self) -> (t: u64) {
        self.first_seen
    }
}

/// Whether a tally holds exactly what its champion scored in `ps`.
pub open spec fn tally_exact(t: Tally, ps: Seq<Placing>, ids: Seq<i32>) -> bool {
    &&& t.appearances == appearances(ps, ids, t.key@)
    &&& t.appearances > 0
    &&& t.rank_sum == rank_total(ps, ids, t.key@)
    &&& t.weight_sum == weight_total(ps, ids, t.key@)
    &&& t.top_8 == placed_within(ps, ids, t.key@, TOP_8 as int)
    &&& t.top_16 == placed_within(ps, ids, t.key@, TOP_16 as int)
    &&& t.win_rates@ == rates_of(ps, ids, t.key@)
    &&& t.first_seen == first_index(ps, ids, t.key@)
}

/// Whether `ts` holds one exact tally for each key with a finish at a
/// selected event, and nothing else.
pub open spec fn tallies_of(ts: Seq<Tally>, ps: Seq<Placing>, ids: Seq<i32>) -> bool {
    &&& forall|i: int| 0 <= i < ts.len() ==> tally_exact(#[trigger] ts[i], ps, ids)
    &&& forall|i: int, j: int|
        0 <= i < j < ts.len() ==> #[trigger] ts[i].key@ != #[trigger] ts[j].key@
    &&& forall|k: int|
        0 <= k < ps.len() && counted(#[trigger] ps[k], ids) ==> exists|i: int|
            0 <= i < ts.len() && #[trigger] ts[i].key@ == ps[k].key@
}

proof fn lemma_unfold(ps: Seq<Placing>, p: Placing, ids: Seq<i32>, c: Seq<char>)
    ensures
        counted_total(ps.push(p), ids) == counted_total(ps, ids) + if counted(p, ids) {
            1nat
        } else {
            0nat
        },
        appearances(ps.push(p), ids, c) == appearances(ps, ids, c) + if counted(p, ids)
            && p.key@ == c {
            1nat
        } else {
            0nat
        },
        rank_total(ps.push(p), ids, c) == rank_total(ps, ids, c) + if counted(p, ids)
            && p.key@ == c {
            p.rank as int
        } else {
            0
        },
        weight_total(ps.push(p), ids, c) == weight_total(ps, ids, c) + if counted(p, ids)
            && p.key@ == c {
            p.weight as int
        } else {
            0
        },
        forall|cut: int|
            #[trigger] placed_within(ps.push(p), ids, c, cut) == placed_within(ps, ids, c, cut)
                + if counted(p, ids) && p.key@ == c && p.rank <= cut {
                1nat
            } else {
                0nat
            },
        rates_of(ps.push(p), ids, c) == if counted(p, ids) && p.key@ == c
            && p.win_rate is Some {
            rates_of(ps, ids, c).push(p.win_rate->Some_0)
        } else {
            rates_of(ps, ids, c)
        },
        appearances(ps, ids, c) > 0 ==> first_index(ps.push(p), ids, c) == first_index(ps, ids, c),
        appearances(ps, ids, c) == 0 ==> first_index(ps.push(p), ids, c) == ps.len(),
{
    assert(ps.push(p).drop_last() =~= ps);
}

proof fn lemma_tally_bounds(ps: Seq<Placing>, ids: Seq<i32>, c: Seq<char>)
    ensures
        appearances(ps, ids, c) <= ps.len(),
        counted_total(ps, ids) <= ps.len(),
        forall|cut: int| #[trigger] placed_within(ps, ids, c, cut) <= ps.len(),
        -0x8000_0000 * ps.len() <= rank_total(ps, ids, c) <= 0x7fff_ffff * ps.len(),
        -0x8000_0000 * ps.len() <= weight_total(ps, ids, c) <= 0x7fff_ffff * ps.len(),
    decreases ps.len(),
{
    if ps.len() > 0 {
        lemma_tally_bounds(ps.drop_last(), ids, c);
        assert forall|cut: int| #[trigger] placed_within(ps, ids, c, cut) <= ps.len() by {
            assert(placed_within(ps.drop_last(), ids, c, cut) <= ps.len() - 1);
        }
    }
}

/// A finish at an event outside the selection changes no tally.
proof fn lemma_tally_skip(ts: Seq<Tally>, ps: Seq<Placing>, p: Placing, ids: Seq<i32>)
    requires
        tallies_of(ts, ps, ids),
        !counted(p, ids),
    ensures
        tallies_of(ts, ps.push(p), ids),
{
    let ps2 = ps.push(p);
    assert forall|i: int| 0 <= i < ts.len() implies tally_exact(#[trigger] ts[i], ps2, ids) by {
        lemma_unfold(ps, p, ids, ts[i].key@);
        assert(placed_within(ps2, ids, ts[i].key@, TOP_8 as int) == placed_within(ps, ids, ts[i].key@, TOP_8 as int));
        assert(placed_within(ps2, ids, ts[i].key@, TOP_16 as int) == placed_within(ps, ids, ts[i].key@, TOP_16 as int));
    }
    assert forall|k: int| 0 <= k < ps2.len() && counted(#[trigger] ps2[k], ids) implies exists|i: int|
        0 <= i < ts.len() && #[trigger] ts[i].key@ == ps2[k].key@ by {
        assert(k < ps.len());
        assert(ps2[k] == ps[k]);
    }
}

/// Whether `row` is tally `t` with finish `p` added.
pub open spec fn bumped(t: Tally, p: Placing, row: Tally) -> bool {
    &&& row.key@ == t.key@
    &&& row.appearances == t.appearances + 1
    &&& row.rank_sum == t.rank_sum + p.rank
    &&& row.weight_sum == t.weight_sum + p.weight
    &&& row.first_seen == t.first_seen
    &&& row.top_8 == t.top_8 + if p.rank <= TOP_8 {
        1int
    } else {
        0int
    }
    &&& row.top_16 == t.top_16 + if p.rank <= TOP_16 {
        1int
    } else {
        0int
    }
    &&& row.win_rates@ == if p.win_rate is Some {
        t.win_rates@.push(p.win_rate->Some_0)
    } else {
        t.win_rates@
    }
}

/// Whether `row` is the tally of finish `p` alone, found at position `at`.
pub open spec fn started(p: Placing, row: Tally, at: int) -> bool {
    &&& row.key@ == p.key@
    &&& row.first_seen == at
    &&& row.appearances == 1
    &&& row.rank_sum == p.rank
    &&& row.weight_sum == p.weight
    &&& row.top_8 == if p.rank <= TOP_8 {
        1int
    } else {
        0int
    }
    &&& row.top_16 == if p.rank <= TOP_16 {
        1int
    } else {
        0int
    }
    &&& row.win_rates@ == if p.win_rate is Some {
        seq![p.win_rate->Some_0]
    } else {
        Seq::<WinRate>::empty()
    }
}

proof fn lemma_tally_bump(
    ts: Seq<Tally>,
    ps: Seq<Placing>,
    p: Placing,
    ids: Seq<i32>,
    k: int,
    row: Tally,
)
    requires
        tallies_of(ts, ps, ids),
        counted(p, ids),
        0 <= k < ts.len(),
        ts[k].key@ == p.key@,
        bumped(ts[k], p, row),
    ensures
        tallies_of(ts.update(k, row), ps.push(p), ids),
{
    let ps2 = ps.push(p);
    let nt = ts.update(k, row);
    assert forall|i: int| 0 <= i < nt.len() implies tally_exact(#[trigger] nt[i], ps2, ids) by {
        lemma_unfold(ps, p, ids, nt[i].key@);
        assert(placed_within(ps2, ids, nt[i].key@, TOP_8 as int) == placed_within(ps, ids, nt[i].key@, TOP_8 as int) + if counted(p, ids) && p.key@ == nt[i].key@ && p.rank <= TOP_8 { 1nat } else { 0nat });
        assert(placed_within(ps2, ids, nt[i].key@, TOP_16 as int) == placed_within(ps, ids, nt[i].key@, TOP_16 as int) + if counted(p, ids) && p.key@ == nt[i].key@ && p.rank <= TOP_16 { 1nat } else { 0nat });
        if i != k {
            assert(nt[i] == ts[i]);
            assert(ts[i].key@ != ts[k].key@);
        }
    }
    assert forall|a: int, b: int| 0 <= a < b < nt.len() implies #[trigger] nt[a].key@
        != #[trigger] nt[b].key@ by {
        assert(ts[a].key@ != ts[b].key@);
    }
    assert forall|j: int| 0 <= j < ps2.len() && counted(#[trigger] ps2[j], ids) implies exists|i: int|
        0 <= i < nt.len() && #[trigger] nt[i].key@ == ps2[j].key@ by {
        if j < ps.len() {
            assert(ps2[j] == ps[j]);
            let i = choose|i: int| 0 <= i < ts.len() && #[trigger] ts[i].key@ == ps[j].key@;
            if i == k {
                assert(nt[k].key@ == ps2[j].key@);
            } else {
                assert(nt[i] == ts[i]);
            }
        } else {
            assert(nt[k].key@ == ps2[j].key@);
        }
    }
}

proof fn lemma_absent_key(ps: Seq<Placing>, ids: Seq<i32>, c: Seq<char>)
    requires
        forall|j: int| 0 <= j < ps.len() && counted(#[trigger] ps[j], ids) ==> ps[j].key@ != c,
    ensures
        appearances(ps, ids, c) == 0,
        rank_total(ps, ids, c) == 0,
        weight_total(ps, ids, c) == 0,
        forall|cut: int| #[trigger] placed_within(ps, ids, c, cut) == 0,
        rates_of(ps, ids, c) == Seq::<WinRate>::empty(),
    decreases ps.len(),
{
    if ps.len() > 0 {
        let q = ps.drop_last();
        assert forall|j: int| 0 <= j < q.len() && counted(#[trigger] q[j], ids) implies q[j].key@ != c by {
            assert(q[j] == ps[j]);
        }
        lemma_absent_key(q, ids, c);
        assert(ps.last() == ps[ps.len() - 1]);
        assert forall|cut: int| #[trigger] placed_within(ps, ids, c, cut) == 0 by {
            assert(placed_within(q, ids, c, cut) == 0);
        }
    }
}

proof fn lemma_tally_start(
    ts: Seq<Tally>,
    ps: Seq<Placing>,
    p: Placing,
    ids: Seq<i32>,
    row: Tally,
)
    requires
        tallies_of(ts, ps, ids),
        counted(p, ids),
        forall|i: int| 0 <= i < ts.len() ==> #[trigger] ts[i].key@ != p.key@,
        started(p, row, ps.len() as int),
    ensures
        tallies_of(ts.push(row), ps.push(p), ids),
{
    let ps2 = ps.push(p);
    let nt = ts.push(row);
    assert forall|j: int| 0 <= j < ps.len() && counted(#[trigger] ps[j], ids) implies ps[j].key@ != p.key@ by {
        let i = choose|i: int| 0 <= i < ts.len() && #[trigger] ts[i].key@ == ps[j].key@;
    }
    lemma_absent_key(ps, ids, p.key@);
    assert forall|i: int| 0 <= i < nt.len() implies tally_exact(#[trigger] nt[i], ps2, ids) by {
        lemma_unfold(ps, p, ids, nt[i].key@);
        assert(placed_within(ps2, ids, nt[i].key@, TOP_8 as int) == placed_within(ps, ids, nt[i].key@, TOP_8 as int) + if counted(p, ids) && p.key@ == nt[i].key@ && p.rank <= TOP_8 { 1nat } else { 0nat });
        assert(placed_within(ps2, ids, nt[i].key@, TOP_16 as int) == placed_within(ps, ids, nt[i].key@, TOP_16 as int) + if counted(p, ids) && p.key@ == nt[i].key@ && p.rank <= TOP_16 { 1nat } else { 0nat });
        if i < ts.len() {
            assert(nt[i] == ts[i]);
        } else {
            assert(placed_within(ps, ids, p.key@, TOP_8 as int) == 0);
            assert(placed_within(ps, ids, p.key@, TOP_16 as int) == 0);
            assert(rates_of(ps, ids, p.key@).push(p.win_rate->Some_0) =~= seq![p.win_rate->Some_0]);
        }
    }
    assert forall|a: int, b: int| 0 <= a < b < nt.len() implies #[trigger] nt[a].key@
        != #[trigger] nt[b].key@ by {
        if b < ts.len() {
            assert(nt[a] == ts[a] && nt[b] == ts[b]);
        } else {
            assert(nt[a] == ts[a]);
        }
    }
    assert forall|j: int| 0 <= j < ps2.len() && counted(#[trigger] ps2[j], ids) implies exists|i: int|
        0 <= i < nt.len() && #[trigger] nt[i].key@ == ps2[j].key@ by {
        if j < ps.len() {
            assert(ps2[j] == ps[j]);
            let i = choose|i: int| 0 <= i < ts.len() && #[trigger] ts[i].key@ == ps[j].key@;
            assert(nt[i] == ts[i]);
        } else {
            assert(nt[ts.len() as int].key@ == ps2[j].key@);
        }
    }
}

/// The position of the tally of key `c`, if there is one.
fn find_key(ts: &Vec<Tally>, c: &String) -> (at: Option<usize>)
    ensures
        at is None ==> forall|k: int| 0 <= k < ts.len() ==> #[trigger] ts@[k].key@ != c@,
        at is Some ==> at->Some_0 < ts.len() && ts@[at->Some_0 as int].key@ == c@,
{
    let mut j: usize = 0;
    while j < ts.len()
        invariant
            j <= ts.len(),
            forall|k: int| 0 <= k < j ==> #[trigger] ts@[k].key@ != c@,
        decreases ts.len() - j,
    {
        if ts[j].key == *c {
            return Some(j);
        }
        j = j + 1;
    }
    None
}

/// One tally per key over the finishes at the selected events, in order
/// of first appearance.
pub fn tally_by_key(ps: &Vec<Placing>, ids: &Vec<i32>) -> (ts: Vec<Tally>)
    ensures
        tallies_of(ts@, ps@, ids@),
{
    let mut ts: Vec<Tally> = Vec::new();
    let mut i: usize = 0;
    while i < ps.len()
        invariant
            i <= ps.len(),
            tallies_of(ts@, ps@.take(i as int), ids@),
        decreases ps.len() - i,
    {
        let ghost seen = ps@.take(i as int);
        let p = &ps[i];
        proof {
            assert(ps@.take(i + 1) =~= seen.push(*p));
        }
        if !has_id(ids, p.event_id) {
            proof {
                lemma_tally_skip(ts@, seen, *p, ids@);
            }
        } else {
            match find_key(&ts, &p.key) {
                Some(k) => {
                    let ghost before = ts@;
                    proof {
                        lemma_tally_bounds(seen.push(*p), ids@, p.key@);
                        lemma_unfold(seen, *p, ids@, p.key@);
                        assert(tally_exact(before[k as int], seen, ids@));
                    }
                    let mut row = ts.remove(k);
                    proof {
                        assert(row == before[k as int]);
                        assert(placed_within(seen.push(*p), ids@, p.key@, TOP_8 as int) <= seen.len() + 1);
                        assert(placed_within(seen.push(*p), ids@, p.key@, TOP_16 as int) <= seen.len() + 1);
                    }
                    row.appearances = row.appearances + 1;
                    row.rank_sum = row.rank_sum + p.rank as i128;
                    row.weight_sum = row.weight_sum + p.weight as i128;
                    if p.rank <= TOP_8 {
                        row.top_8 = row.top_8 + 1;
                    }
                    if p.rank <= TOP_16 {
                        row.top_16 = row.top_16 + 1;
                    }
                    if let Some(w) = p.win_rate {
                        row.win_rates.push(w);
                    }
                    proof {
                        lemma_tally_bump(before, seen, *p, ids@, k as int, row);
                    }
                    ts.insert(k, row);
                    proof {
                        assert(ts@ =~= before.update(k as int, row));
                    }
                },
                None => {
                    let mut win_rates: Vec<WinRate> = Vec::new();
                    if let Some(w) = p.win_rate {
                        win_rates.push(w);
                    }
                    let row = Tally {
                        key: p.key.clone(),
                        appearances: 1,
                        rank_sum: p.rank as i128,
                        weight_sum: p.weight as i128,
                        top_8: if p.rank <= TOP_8 {
                            1
                        } else {
                            0
                        },
                        top_16: if p.rank <= TOP_16 {
                            1
                        } else {
                            0
                        },
                        win_rates,
                        first_seen: i as u64,
                    };
                    proof {
                        if p.win_rate is Some {
                            assert(row.win_rates@ =~= seq![p.win_rate->Some_0]);
                        }
                        lemma_tally_start(ts@, seen, *p, ids@, row);
                    }
                    ts.push(row);
                },
            }
        }
        i = i + 1;
    }
    proof {
        assert(ps@.take(i as int) =~= ps@);
    }
    ts
}

proof fn lemma_tallies_permuted(v: Seq<Tally>, r: Seq<Tally>, ps: Seq<Placing>, ids: Seq<i32>)
    requires
        tallies_of(v, ps, ids),
        r.to_multiset() == v.to_multiset(),
    ensures
        tallies_of(r, ps, ids),
{
    assert(v.no_duplicates()) by {
        assert forall|a: int, b: int| 0 <= a < v.len() && 0 <= b < v.len() && a != b implies v[a] != v[b] by {
            if a < b {
                assert(v[a].key@ != v[b].key@);
            } else {
                assert(v[b].key@ != v[a].key@);
            }
        }
    }
    lemma_same_rows(r, v);
    assert forall|i: int| 0 <= i < r.len() implies tally_exact(#[trigger] r[i], ps, ids) by {
        assert(r.contains(r[i]));
        let j = choose|j: int| 0 <= j < v.len() && v[j] == r[i];
    }
    assert forall|a: int, b: int| 0 <= a < b < r.len() implies #[trigger] r[a].key@ != #[trigger] r[b].key@ by {
        assert(r.contains(r[a]) && r.contains(r[b]));
        let i = choose|i: int| 0 <= i < v.len() && v[i] == r[a];
        let j = choose|j: int| 0 <= j < v.len() && v[j] == r[b];
        assert(r[a] != r[b]);
        if i < j {
            assert(v[i].key@ != v[j].key@);
        } else if j < i {
            assert(v[j].key@ != v[i].key@);
        }
    }
    assert forall|k: int| 0 <= k < ps.len() && counted(#[trigger] ps[k], ids) implies exists|i: int|
        0 <= i < r.len() && #[trigger] r[i].key@ == ps[k].key@ by {
        let i = choose|i: int| 0 <= i < v.len() && #[trigger] v[i].key@ == ps[k].key@;
        assert(v.contains(v[i]));
        let j = choose|j: int| 0 <= j < r.len() && r[j] == v[i];
    }
}

/// The tallies over the finishes at the selected events, most
/// appearances first.
pub fn ranked_tallies(ps: &Vec<Placing>, ids: &Vec<i32>) -> (ts: Vec<Tally>)
    ensures
        tallies_of(ts@, ps@, ids@),
        sorted_desc(ts@),
{
    let v = tally_by_key(ps, ids);
    let ghost vs = v@;
    let r = sort_by_count_desc(v);
    proof {
        lemma_tallies_permuted(vs, r@, ps@, ids@);
    }
    r
}

/// Sum of the appearances of champions `cs` over `ps`.
pub open spec fn key_sum(cs: Seq<Seq<char>>, ps: Seq<Placing>, ids: Seq<i32>) -> int
    decreases cs.len(),
{
    if cs.len() == 0 {
        0
    } else {
        key_sum(cs.drop_last(), ps, ids) + appearances(ps, ids, cs.last())
    }
}

/// How often `c` occurs in `cs`.
pub open spec fn occurrences(cs: Seq<Seq<char>>, c: Seq<char>) -> int
    decreases cs.len(),
{
    if cs.len() == 0 {
        0
    } else {
        occurrences(cs.drop_last(), c) + if cs.last() == c {
            1int
        } else {
            0int
        }
    }
}

proof fn lemma_key_sum_empty(cs: Seq<Seq<char>>, ids: Seq<i32>)
    ensures
        key_sum(cs, Seq::empty(), ids) == 0,
    decreases cs.len(),
{
    if cs.len() > 0 {
        lemma_key_sum_empty(cs.drop_last(), ids);
    }
}

proof fn lemma_key_sum_push(cs: Seq<Seq<char>>, ps: Seq<Placing>, p: Placing, ids: Seq<i32>)
    ensures
        key_sum(cs, ps.push(p), ids) == key_sum(cs, ps, ids) + if counted(p, ids) {
            occurrences(cs, p.key@)
        } else {
            0
        },
    decreases cs.len(),
{
    if cs.len() > 0 {
        lemma_key_sum_push(cs.drop_last(), ps, p, ids);
        lemma_unfold(ps, p, ids, cs.last());
    }
}

proof fn lemma_occurs_once(cs: Seq<Seq<char>>, c: Seq<char>)
    requires
        cs.no_duplicates(),
        cs.contains(c),
    ensures
        occurrences(cs, c) == 1,
    decreases cs.len(),
{
    let q = cs.drop_last();
    assert(q.no_duplicates()) by {
        assert forall|a: int, b: int| 0 <= a < q.len() && 0 <= b < q.len() && a != b implies q[a] != q[b] by {
            assert(q[a] == cs[a] && q[b] == cs[b]);
        }
    }
    if cs.last() == c {
        assert(!q.contains(c)) by {
            if q.contains(c) {
                let a = choose|a: int| 0 <= a < q.len() && q[a] == c;
                assert(cs[a] == cs[cs.len() - 1]);
            }
        }
        lemma_occurs_never(q, c);
    } else {
        let a = choose|a: int| 0 <= a < cs.len() && cs[a] == c;
        assert(q[a] == c);
        lemma_occurs_once(q, c);
    }
}

proof fn lemma_occurs_never(cs: Seq<Seq<char>>, c: Seq<char>)
    requires
        !cs.contains(c),
    ensures
        occurrences(cs, c) == 0,
    decreases cs.len(),
{
    if cs.len() > 0 {
        let q = cs.drop_last();
        assert(!q.contains(c)) by {
            if q.contains(c) {
                let a = choose|a: int| 0 <= a < q.len() && q[a] == c;
                assert(cs[a] == c);
            }
        }
        lemma_occurs_never(q, c);
        assert(cs[cs.len() - 1] != c);
    }
}

/// Over champions that are distinct and cover every finish at a selected
/// event, the appearances add up to the number of such finishes.
proof fn lemma_key_sum_total(cs: Seq<Seq<char>>, ps: Seq<Placing>, ids: Seq<i32>)
    requires
        cs.no_duplicates(),
        forall|k: int| 0 <= k < ps.len() && counted(#[trigger] ps[k], ids) ==> cs.contains(ps[k].key@),
    ensures
        key_sum(cs, ps, ids) == counted_total(ps, ids),
    decreases ps.len(),
{
    if ps.len() == 0 {
        lemma_key_sum_empty(cs, ids);
        assert(ps =~= Seq::<Placing>::empty());
    } else {
        let q = ps.drop_last();
        let p = ps.last();
        assert forall|k: int| 0 <= k < q.len() && counted(#[trigger] q[k], ids) implies cs.contains(q[k].key@) by {
            assert(q[k] == ps[k]);
        }
        lemma_key_sum_total(cs, q, ids);
        assert(q.push(p) =~= ps);
        lemma_key_sum_push(cs, q, p, ids);
        lemma_unfold(q, p, ids, p.key@);
        if counted(p, ids) {
            assert(ps[ps.len() - 1] == p);
            lemma_occurs_once(cs, p.key@);
        }
    }
}

/// Whether a row with count `a` first seen at `fa` stands before one with
/// count `b` first seen at `fb`: larger counts first, and among equal counts
/// the key seen first.
pub open spec fn ranked_before(a: int, b: int, fa: int, fb: int) -> bool {
    a > b || (a == b && fa < fb)
}

/// A champion's showing in the meta: its decks among the decks at the
/// selected events. Its meta share is `deck_count / total_decks`, its average
/// placement `rank_sum / deck_count`, its top-8 share
/// `top_8_count / deck_count`.
#[derive(Debug, Clone)]
pub struct MetaBreakdown {
    pub champion: String,
    pub deck_count: u64,
    pub rank_sum: i128,
    pub top_8_count: u64,
    pub total_decks: u64,
}

/// Whether `rows` is the meta breakdown of the finishes `ps` at the events
/// `ids`: one row per champion with a deck there, each exact, most decks first.
pub open spec fn breakdown_of(rows: Seq<MetaBreakdown>, ps: Seq<Placing>, ids: Seq<i32>) -> bool {
    &&& forall|i: int|
        0 <= i < rows.len() ==> {
            &&& #[trigger] rows[i].deck_count == appearances(ps, ids, rows[i].champion@)
            &&& rows[i].deck_count > 0
            &&& rows[i].rank_sum == rank_total(ps, ids, rows[i].champion@)
            &&& rows[i].top_8_count == placed_within(ps, ids, rows[i].champion@, TOP_8 as int)
            &&& rows[i].total_decks == counted_total(ps, ids)
        }
    &&& forall|i: int, j: int|
        0 <= i < j < rows.len() ==> #[trigger] rows[i].champion@ != #[trigger] rows[j].champion@
    &&& forall|k: int|
        0 <= k < ps.len() && counted(#[trigger] ps[k], ids) ==> exists|i: int|
            0 <= i < rows.len() && #[trigger] rows[i].champion@ == ps[k].key@
    &&& forall|i: int, j: int|
        0 <= i < j < rows.len() ==> ranked_before(
            #[trigger] rows[i].deck_count as int,
            #[trigger] rows[j].deck_count as int,
            first_index(ps, ids, rows[i].champion@),
            first_index(ps, ids, rows[j].champion@),
        )
}

/// Sum of the deck counts of breakdown rows.
pub open spec fn deck_sum(rows: Seq<MetaBreakdown>) -> int
    decreases rows.len(),
{
    if rows.len() == 0 {
        0
    } else {
        deck_sum(rows.drop_last()) + rows.last().deck_count
    }
}

proof fn lemma_deck_sum_keys(rows: Seq<MetaBreakdown>, ps: Seq<Placing>, ids: Seq<i32>)
    requires
        forall|i: int| 0 <= i < rows.len() ==> #[trigger] rows[i].deck_count == appearances(ps, ids, rows[i].champion@),
    ensures
        deck_sum(rows) == key_sum(rows.map_values(|r: MetaBreakdown| r.champion@), ps, ids),
    decreases rows.len(),
{
    if rows.len() > 0 {
        let q = rows.drop_last();
        assert forall|i: int| 0 <= i < q.len() implies #[trigger] q[i].deck_count == appearances(ps, ids, q[i].champion@) by {
            assert(q[i] == rows[i]);
        }
        lemma_deck_sum_keys(q, ps, ids);
        assert(rows.map_values(|r: MetaBreakdown| r.champion@).drop_last() =~= q.map_values(|r: MetaBreakdown| r.champion@));
        assert(rows[rows.len() - 1] == rows.last());
    }
}

/// The meta shares of a breakdown make up the whole: its deck counts add up
/// to the number of decks at the selected events, so that the percentages
/// `100 * deck_count / total_decks` sum to 100 whenever there is a deck.
pub proof fn lemma_meta_shares_sum(rows: Seq<MetaBreakdown>, ps: Seq<Placing>, ids: Seq<i32>)
    requires
        breakdown_of(rows, ps, ids),
    ensures
        deck_sum(rows) == counted_total(ps, ids),
        forall|i: int| 0 <= i < rows.len() ==> #[trigger] rows[i].total_decks == deck_sum(rows),
{
    let cs = rows.map_values(|r: MetaBreakdown| r.champion@);
    lemma_deck_sum_keys(rows, ps, ids);
    assert(cs.no_duplicates()) by {
        assert forall|a: int, b: int| 0 <= a < cs.len() && 0 <= b < cs.len() && a != b implies cs[a] != cs[b] by {
            if a < b {
                assert(rows[a].champion@ != rows[b].champion@);
            } else {
                assert(rows[b].champion@ != rows[a].champion@);
            }
        }
    }
    assert forall|k: int| 0 <= k < ps.len() && counted(#[trigger] ps[k], ids) implies cs.contains(ps[k].key@) by {
        let i = choose|i: int| 0 <= i < rows.len() && #[trigger] rows[i].champion@ == ps[k].key@;
        assert(cs[i] == ps[k].key@);
    }
    lemma_key_sum_total(cs, ps, ids);
    assert forall|i: int| 0 <= i < rows.len() implies #[trigger] rows[i].total_decks == deck_sum(rows) by {
        assert(rows[i].deck_count == appearances(ps, ids, rows[i].champion@));
    }
}

/// Breakdown rows from sorted tallies, in the same order.
fn breakdown_rows(ts: Vec<Tally>, Ghost(ps): Ghost<Seq<Placing>>, Ghost(ids): Ghost<Seq<i32>>, total: u64) -> (rows: Vec<MetaBreakdown>)
    requires
        tallies_of(ts@, ps, ids),
        sorted_desc(ts@),
        total == counted_total(ps, ids),
    ensures
        breakdown_of(rows@, ps, ids),
{
    let ghost orig = ts@;
    let mut rest = ts;
    let mut rows: Vec<MetaBreakdown> = Vec::new();
    while rest.len() > 0
        invariant
            rows.len() + rest.len() == orig.len(),
            rest@ == orig.subrange(rows.len() as int, orig.len() as int),
            total == counted_total(ps, ids),
            forall|k: int| 0 <= k < rows.len() ==> {
                &&& #[trigger] rows@[k].champion == orig[k].key
                &&& rows@[k].deck_count == orig[k].appearances
                &&& rows@[k].rank_sum == orig[k].rank_sum
                &&& rows@[k].top_8_count == orig[k].top_8
                &&& rows@[k].total_decks == total
            },
        decreases rest.len(),
    {
        let t = rest.remove(0);
        proof {
            assert(t == orig[rows.len() as int]);
        }
        rows.push(MetaBreakdown {
            champion: t.key,
            deck_count: t.appearances,
            rank_sum: t.rank_sum,
            top_8_count: t.top_8,
            total_decks: total,
        });
        proof {
            assert(rest@ =~= orig.subrange(rows.len() as int, orig.len() as int));
        }
    }
    proof {
        let r = rows@;
        assert forall|i: int| 0 <= i < r.len() implies #[trigger] r[i].deck_count == appearances(ps, ids, r[i].champion@) by {
            assert(r[i].champion == orig[i].key);
            assert(tally_exact(orig[i], ps, ids));
        }
        assert forall|i: int, j: int| 0 <= i < j < r.len() implies #[trigger] r[i].champion@ != #[trigger] r[j].champion@ by {
            assert(r[i].champion == orig[i].key);
            assert(r[j].champion == orig[j].key);
        }
        assert forall|k: int| 0 <= k < ps.len() && counted(#[trigger] ps[k], ids) implies exists|i: int|
            0 <= i < r.len() && #[trigger] r[i].champion@ == ps[k].key@ by {
            let i = choose|i: int| 0 <= i < orig.len() && #[trigger] orig[i].key@ == ps[k].key@;
            assert(r[i].champion == orig[i].key);
        }
        assert forall|i: int, j: int| 0 <= i < j < r.len() implies ranked_before(
            #[trigger] r[i].deck_count as int,
            #[trigger] r[j].deck_count as int,
            first_index(ps, ids, r[i].champion@),
            first_index(ps, ids, r[j].champion@),
        ) by {
            assert(goes_before(orig[i], orig[j]));
            assert(tally_exact(orig[i], ps, ids) && tally_exact(orig[j], ps, ids));
            assert(r[i].champion == orig[i].key && r[j].champion == orig[j].key);
            assert(orig[i].key@ != orig[j].key@);
            lemma_first_index_distinct(ps, ids, orig[i].key@, orig[j].key@);
        }
    }
    rows
}

/// Number of finishes at the selected events.
fn count_selected(ps: &Vec<Placing>, ids: &Vec<i32>) -> (n: u64)
    ensures
        n == counted_total(ps@, ids@),
{
    let mut n: u64 = 0;
    let mut i: usize = 0;
    while i < ps.len()
        invariant
            i <= ps.len(),
            n == counted_total(ps@.take(i as int), ids@),
        decreases ps.len() - i,
    {
        proof {
            assert(ps@.take(i + 1) =~= ps@.take(i as int).push(ps@[i as int]));
            lemma_unfold(ps@.take(i as int), ps@[i as int], ids@, Seq::empty());
            lemma_tally_bounds(ps@.take(i as int), ids@, Seq::empty());
        }
        if has_id(ids, ps[i].event_id) {
            n = n + 1;
        }
        i = i + 1;
    }
    proof {
        assert(ps@.take(i as int) =~= ps@);
    }
    n
}

/// The meta breakdown over the decklists of the selected events: one row per
/// champion, most decks first. Empty when no event is selected.
pub fn calculate_meta_breakdown(
    events: &Vec<Event>,
    decklists: &Vec<Decklist>,
    format: Option<EventFormat>,
    since: Option<i64>,
) -> (rows: Vec<MetaBreakdown>)
    ensures
        breakdown_of(
            rows@,
            decklists@.map_values(|d: Decklist| decklist_placing(d)),
            selected_ids(events@, format, since),
        ),
        deck_sum(rows@) == counted_total(
            decklists@.map_values(|d: Decklist| decklist_placing(d)),
            selected_ids(events@, format, since),
        ),
        selected_ids(events@, format, since).len() == 0 ==> rows@.len() == 0,
{
    let ids = select_event_ids(events, format, since);
    let ps = placings_of_decklists(decklists);
    if ids.len() == 0 {
        let rows: Vec<MetaBreakdown> = Vec::new();
        proof {
            assert forall|k: int| 0 <= k < ps@.len() implies !counted(#[trigger] ps@[k], ids@) by {}
            lemma_meta_shares_sum(rows@, ps@, ids@);
        }
        return rows;
    }
    let total = count_selected(&ps, &ids);
    let ts = ranked_tallies(&ps, &ids);
    let rows = breakdown_rows(ts, Ghost(ps@), Ghost(ids@), total);
    proof {
        lemma_meta_shares_sum(rows@, ps@, ids@);
    }
    rows
}

/// How a champion performed over the standings of the selected events. Its
/// average placement is `rank_sum / total_appearances`, its top-8 and top-16
/// rates `top_8_count` and `top_16_count` over `total_appearances`, its
/// conversion rate the top-8 rate, and its win rate the mean of `win_rates`.
#[derive(Debug, Clone)]
pub struct ChampionPerformance {
    pub champion: String,
    pub total_appearances: u64,
    /// Number of selected events.
    pub total_events: u64,
    pub rank_sum: i128,
    pub top_8_count: u64,
    pub top_16_count: u64,
    /// The match win rates of the standings that have one.
    pub win_rates: Vec<WinRate>,
}

/// Whether `rows` is the champion performance over the finishes `ps` at the
/// events `ids`: one exact row per champion, most appearances first.
pub open spec fn performance_of(rows: Seq<ChampionPerformance>, ps: Seq<Placing>, ids: Seq<i32>) -> bool {
    &&& forall|i: int|
        0 <= i < rows.len() ==> {
            &&& #[trigger] rows[i].total_appearances == appearances(ps, ids, rows[i].champion@)
            &&& rows[i].total_appearances > 0
            &&& rows[i].rank_sum == rank_total(ps, ids, rows[i].champion@)
            &&& rows[i].top_8_count == placed_within(ps, ids, rows[i].champion@, TOP_8 as int)
            &&& rows[i].top_16_count == placed_within(ps, ids, rows[i].champion@, TOP_16 as int)
            &&& rows[i].win_rates@ == rates_of(ps, ids, rows[i].champion@)
            &&& rows[i].total_events == ids.len()
        }
    &&& forall|i: int, j: int|
        0 <= i < j < rows.len() ==> #[trigger] rows[i].champion@ != #[trigger] rows[j].champion@
    &&& forall|k: int|
        0 <= k < ps.len() && counted(#[trigger] ps[k], ids) ==> exists|i: int|
            0 <= i < rows.len() && #[trigger] rows[i].champion@ == ps[k].key@
    &&& forall|i: int, j: int|
        0 <= i < j < rows.len() ==> ranked_before(
            #[trigger] rows[i].total_appearances as int,
            #[trigger] rows[j].total_appearances as int,
            first_index(ps, ids, rows[i].champion@),
            first_index(ps, ids, rows[j].champion@),
        )
}

/// Performance rows from sorted tallies, in the same order.
fn performance_rows(ts: Vec<Tally>, Ghost(ps): Ghost<Seq<Placing>>, Ghost(ids): Ghost<Seq<i32>>, events: u64) -> (rows: Vec<ChampionPerformance>)
    requires
        tallies_of(ts@, ps, ids),
        sorted_desc(ts@),
        events == ids.len(),
    ensures
        performance_of(rows@, ps, ids),
{
    let ghost orig = ts@;
    let mut rest = ts;
    let mut rows: Vec<ChampionPerformance> = Vec::new();
    while rest.len() > 0
        invariant
            rows.len() + rest.len() == orig.len(),
            rest@ == orig.subrange(rows.len() as int, orig.len() as int),
            events == ids.len(),
            forall|k: int| 0 <= k < rows.len() ==> {
                &&& #[trigger] rows@[k].champion == orig[k].key
                &&& rows@[k].total_appearances == orig[k].appearances
                &&& rows@[k].rank_sum == orig[k].rank_sum
                &&& rows@[k].top_8_count == orig[k].top_8
                &&& rows@[k].top_16_count == orig[k].top_16
                &&& rows@[k].win_rates@ == orig[k].win_rates@
                &&& rows@[k].total_events == events
            },
        decreases rest.len(),
    {
        let t = rest.remove(0);
        proof {
            assert(t == orig[rows.len() as int]);
        }
        rows.push(ChampionPerformance {
            champion: t.key,
            total_appearances: t.appearances,
            total_events: events,
            rank_sum: t.rank_sum,
            top_8_count: t.top_8,
            top_16_count: t.top_16,
            win_rates: t.win_rates,
        });
        proof {
            assert(rest@ =~= orig.subrange(rows.len() as int, orig.len() as int));
        }
    }
    proof {
        let r = rows@;
        assert forall|i: int| 0 <= i < r.len() implies #[trigger] r[i].total_appearances == appearances(ps, ids, r[i].champion@) by {
            assert(r[i].champion == orig[i].key);
            assert(tally_exact(orig[i], ps, ids));
        }
        assert forall|i: int, j: int| 0 <= i < j < r.len() implies #[trigger] r[i].champion@ != #[trigger] r[j].champion@ by {
            assert(r[i].champion == orig[i].key);
            assert(r[j].champion == orig[j].key);
        }
        assert forall|k: int| 0 <= k < ps.len() && counted(#[trigger] ps[k], ids) implies exists|i: int|
            0 <= i < r.len() && #[trigger] r[i].champion@ == ps[k].key@ by {
            let i = choose|i: int| 0 <= i < orig.len() && #[trigger] orig[i].key@ == ps[k].key@;
            assert(r[i].champion == orig[i].key);
        }
        assert forall|i: int, j: int| 0 <= i < j < r.len() implies ranked_before(
            #[trigger] r[i].total_appearances as int,
            #[trigger] r[j].total_appearances as int,
            first_index(ps, ids, r[i].champion@),
            first_index(ps, ids, r[j].champion@),
        ) by {
            assert(goes_before(orig[i], orig[j]));
            assert(tally_exact(orig[i], ps, ids) && tally_exact(orig[j], ps, ids));
            assert(r[i].champion == orig[i].key && r[j].champion == orig[j].key);
            assert(orig[i].key@ != orig[j].key@);
            lemma_first_index_distinct(ps, ids, orig[i].key@, orig[j].key@);
        }
    }
    rows
}

/// Champion performance over the standings of the selected events (complete,
/// ranked, started no earlier than `since` if given): one row per champion,
/// most appearances first. Empty when no event is selected.
pub fn calculate_champion_performance(
    events: &Vec<Event>,
    standings: &Vec<Standing>,
    since: Option<i64>,
) -> (rows: Vec<ChampionPerformance>)
    ensures
        performance_of(
            rows@,
            standings@.map_values(|s: Standing| standing_placing(s)),
            selected_ids(events@, None, since),
        ),
        selected_ids(events@, None, since).len() == 0 ==> rows@.len() == 0,
{
    let ids = select_event_ids(events, None, since);
    let ps = placings_of_standings(standings);
    if ids.len() == 0 {
        let rows: Vec<ChampionPerformance> = Vec::new();
        proof {
            assert forall|k: int| 0 <= k < ps@.len() implies !counted(#[trigger] ps@[k], ids@) by {}
        }
        return rows;
    }
    let ts = ranked_tallies(&ps, &ids);
    performance_rows(ts, Ghost(ps@), Ghost(ids@), ids.len() as u64)
}

/// The finishes a decklist lends to its cards: one per entry of its card
/// frequency map whose quantity fits an `i32`, weighted by that quantity.
pub open spec fn frequency_placings(d: Decklist, fs: Seq<CardFrequency>) -> Seq<Placing>
    decreases fs.len(),
{
    if fs.len() == 0 {
        Seq::empty()
    } else {
        let rest = frequency_placings(d, fs.drop_last());
        let f = fs.last();
        if i32::MIN <= f.quantity <= i32::MAX {
            rest.push(
                Placing {
                    event_id: d.event_id,
                    key: f.slug,
                    rank: d.rank,
                    weight: f.quantity as i32,
                    win_rate: None,
                },
            )
        } else {
            rest
        }
    }
}

/// The card finishes of one decklist; none where no frequency map was derived.
pub open spec fn deck_card_placings(d: Decklist) -> Seq<Placing> {
    match d.card_frequencies {
        Some(fs) => frequency_placings(d, fs@),
        None => Seq::empty(),
    }
}

/// The card finishes of a list of decklists, in order.
pub open spec fn card_placings(ds: Seq<Decklist>) -> Seq<Placing>
    decreases ds.len(),
{
    if ds.len() == 0 {
        Seq::empty()
    } else {
        card_placings(ds.drop_last()) + deck_card_placings(ds.last())
    }
}

/// Collects the card finishes of a list of decklists.
pub fn card_placings_of(ds: &Vec<Decklist>) -> (ps: Vec<Placing>)
    ensures
        ps@ == card_placings(ds@),
{
    let mut ps: Vec<Placing> = Vec::new();
    let mut i: usize = 0;
    while i < ds.len()
        invariant
            i <= ds.len(),
            ps@ == card_placings(ds@.take(i as int)),
        decreases ds.len() - i,
    {
        let d = &ds[i];
        proof {
            assert(ds@.take(i + 1).drop_last() =~= ds@.take(i as int));
        }
        let ghost base = ps@;
        match &d.card_frequencies {
            Some(fs) => {
                let mut j: usize = 0;
                while j < fs.len()
                    invariant
                        j <= fs.len(),
                        ps@ == base + frequency_placings(*d, fs@.take(j as int)),
                    decreases fs.len() - j,
                {
                    proof {
                        assert(fs@.take(j + 1).drop_last() =~= fs@.take(j as int));
                    }
                    let f = &fs[j];
                    if i32::MIN as i128 <= f.quantity && f.quantity <= i32::MAX as i128 {
                        ps.push(
                            Placing {
                                event_id: d.event_id,
                                key: f.slug.clone(),
                                rank: d.rank,
                                weight: f.quantity as i32,
                                win_rate: None,
                            },
                        );
                        proof {
                            assert(ps@ =~= base + frequency_placings(*d, fs@.take(j + 1)));
                        }
                    }
                    j = j + 1;
                }
                proof {
                    assert(fs@.take(j as int) =~= fs@);
                }
            },
            None => {
                proof {
                    assert(ps@ =~= base + deck_card_placings(*d));
                }
            },
        }
        i = i + 1;
    }
    proof {
        assert(ds@.take(i as int) =~= ds@);
    }
    ps
}

/// Whether `name` is what the catalog calls card `slug`: the name of the
/// first catalog card with that slug, or the slug itself when there is none.
pub open spec fn named(catalog: Seq<Card>, slug: Seq<char>, name: Seq<char>) -> bool {
    ||| exists|k: int|
        0 <= k < catalog.len() && #[trigger] catalog[k].slug@ == slug && name == catalog[k].name@
            && forall|j: int| 0 <= j < k ==> #[trigger] catalog[j].slug@ != slug
    ||| (forall|j: int| 0 <= j < catalog.len() ==> #[trigger] catalog[j].slug@ != slug) && name == slug
}

/// The display name of a card.
pub fn card_name(catalog: &Vec<Card>, slug: &String) -> (name: String)
    ensures
        named(catalog@, slug@, name@),
{
    let mut j: usize = 0;
    while j < catalog.len()
        invariant
            j <= catalog.len(),
            forall|k: int| 0 <= k < j ==> #[trigger] catalog@[k].slug@ != slug@,
        decreases catalog.len() - j,
    {
        if catalog[j].slug == *slug {
            return catalog[j].name.clone();
        }
        j = j + 1;
    }
    slug.clone()
}

/// How a card fares in the decks at the selected events. Its meta share is
/// `deck_count / total_decks`, its average quantity
/// `total_quantity / deck_count`, its average placement
/// `rank_sum / deck_count`.
#[derive(Debug, Clone)]
pub struct CardPerformance {
    pub slug: String,
    pub name: String,
    /// Decklists that hold the card.
    pub deck_count: u64,
    pub total_quantity: i128,
    pub rank_sum: i128,
    /// Decklists at the selected events.
    pub total_decks: u64,
}

/// Whether `rows` is the full card performance over the card finishes `ps`
/// at the events `ids`: one exact row per card, named from the catalog, most
/// decks first.
pub open spec fn card_rows_of(
    rows: Seq<CardPerformance>,
    ps: Seq<Placing>,
    ids: Seq<i32>,
    catalog: Seq<Card>,
    total: int,
) -> bool {
    &&& forall|i: int|
        0 <= i < rows.len() ==> {
            &&& #[trigger] rows[i].deck_count == appearances(ps, ids, rows[i].slug@)
            &&& rows[i].deck_count > 0
            &&& rows[i].total_quantity == weight_total(ps, ids, rows[i].slug@)
            &&& rows[i].rank_sum == rank_total(ps, ids, rows[i].slug@)
            &&& rows[i].total_decks == total
            &&& named(catalog, rows[i].slug@, rows[i].name@)
        }
    &&& forall|i: int, j: int|
        0 <= i < j < rows.len() ==> #[trigger] rows[i].slug@ != #[trigger] rows[j].slug@
    &&& forall|k: int|
        0 <= k < ps.len() && counted(#[trigger] ps[k], ids) ==> exists|i: int|
            0 <= i < rows.len() && #[trigger] rows[i].slug@ == ps[k].key@
    &&& forall|i: int, j: int|
        0 <= i < j < rows.len() ==> ranked_before(
            #[trigger] rows[i].deck_count as int,
            #[trigger] rows[j].deck_count as int,
            first_index(ps, ids, rows[i].slug@),
            first_index(ps, ids, rows[j].slug@),
        )
}

/// The first `limit` rows where a limit of zero or more is given and is below
/// the number of rows; all rows otherwise.
pub open spec fn limited<T>(rows: Seq<T>, limit: Option<i64>) -> Seq<T> {
    match limit {
        Some(l) => if 0 <= l < rows.len() {
            rows.take(l as int)
        } else {
            rows
        },
        None => rows,
    }
}

/// Card performance rows from sorted tallies, in the same order.
fn card_rows(
    ts: Vec<Tally>,
    catalog: &Vec<Card>,
    Ghost(ps): Ghost<Seq<Placing>>,
    Ghost(ids): Ghost<Seq<i32>>,
    total: u64,
) -> (rows: Vec<CardPerformance>)
    requires
        tallies_of(ts@, ps, ids),
        sorted_desc(ts@),
    ensures
        card_rows_of(rows@, ps, ids, catalog@, total as int),
{
    let ghost orig = ts@;
    let mut rest = ts;
    let mut rows: Vec<CardPerformance> = Vec::new();
    while rest.len() > 0
        invariant
            rows.len() + rest.len() == orig.len(),
            rest@ == orig.subrange(rows.len() as int, orig.len() as int),
            forall|k: int| 0 <= k < rows.len() ==> {
                &&& #[trigger] rows@[k].slug == orig[k].key
                &&& rows@[k].deck_count == orig[k].appearances
                &&& rows@[k].total_quantity == orig[k].weight_sum
                &&& rows@[k].rank_sum == orig[k].rank_sum
                &&& rows@[k].total_decks == total
                &&& named(catalog@, rows@[k].slug@, rows@[k].name@)
            },
        decreases rest.len(),
    {
        let t = rest.remove(0);
        proof {
            assert(t == orig[rows.len() as int]);
        }
        let name = card_name(catalog, &t.key);
        rows.push(CardPerformance {
            slug: t.key,
            name,
            deck_count: t.appearances,
            total_quantity: t.weight_sum,
            rank_sum: t.rank_sum,
            total_decks: total,
        });
        proof {
            assert(rest@ =~= orig.subrange(rows.len() as int, orig.len() as int));
        }
    }
    proof {
        let r = rows@;
        assert forall|i: int| 0 <= i < r.len() implies #[trigger] r[i].deck_count == appearances(ps, ids, r[i].slug@) by {
            assert(r[i].slug == orig[i].key);
            assert(tally_exact(orig[i], ps, ids));
        }
        assert forall|i: int, j: int| 0 <= i < j < r.len() implies #[trigger] r[i].slug@ != #[trigger] r[j].slug@ by {
            assert(r[i].slug == orig[i].key);
            assert(r[j].slug == orig[j].key);
        }
        assert forall|k: int| 0 <= k < ps.len() && counted(#[trigger] ps[k], ids) implies exists|i: int|
            0 <= i < r.len() && #[trigger] r[i].slug@ == ps[k].key@ by {
            let i = choose|i: int| 0 <= i < orig.len() && #[trigger] orig[i].key@ == ps[k].key@;
            assert(r[i].slug == orig[i].key);
        }
        assert forall|i: int, j: int| 0 <= i < j < r.len() implies ranked_before(
            #[trigger] r[i].deck_count as int,
            #[trigger] r[j].deck_count as int,
            first_index(ps, ids, r[i].slug@),
            first_index(ps, ids, r[j].slug@),
        ) by {
            assert(goes_before(orig[i], orig[j]));
            assert(tally_exact(orig[i], ps, ids) && tally_exact(orig[j], ps, ids));
            assert(r[i].slug == orig[i].key && r[j].slug == orig[j].key);
            assert(orig[i].key@ != orig[j].key@);
            lemma_first_index_distinct(ps, ids, orig[i].key@, orig[j].key@);
        }
    }
    rows
}

/// Card performance over the decklists of the selected events: one row per
/// card, named from the catalog, most decks first, cut to `limit` rows where
/// a limit is given. Empty when no event is selected.
pub fn calculate_card_performance(
    events: &Vec<Event>,
    decklists: &Vec<Decklist>,
    catalog: &Vec<Card>,
    format: Option<EventFormat>,
    since: Option<i64>,
    limit: Option<i64>,
) -> (rows: Vec<CardPerformance>)
    requires
        frequency_slugs_distinct(decklists@),
    ensures
        exists|full: Seq<CardPerformance>|
            card_rows_of(
                full,
                card_placings(decklists@),
                selected_ids(events@, format, since),
                catalog@,
                counted_total(
                    decklists@.map_values(|d: Decklist| decklist_placing(d)),
                    selected_ids(events@, format, since),
                ) as int,
            ) && rows@ == limited(full, limit) && rows@.len() == limited_len(full.len() as int, limit)
                && forall|k: int|
                0 < rows@.len() <= k < full.len() ==> #[trigger] full[k].deck_count <= rows@.last().deck_count,
        forall|k: int|
            0 <= k < rows@.len() ==> #[trigger] rows@[k].deck_count == decks_holding(
                decklists@,
                selected_ids(events@, format, since),
                rows@[k].slug@,
            ),
        sorted_desc_cards(rows@),
        limit is Some && limit->Some_0 >= 0 ==> rows@.len() <= limit->Some_0,
        selected_ids(events@, format, since).len() == 0 ==> rows@.len() == 0,
{
    let ids = select_event_ids(events, format, since);
    let deck_ps = placings_of_decklists(decklists);
    let ps = card_placings_of(decklists);
    if ids.len() == 0 {
        let rows: Vec<CardPerformance> = Vec::new();
        proof {
            assert forall|k: int| 0 <= k < ps@.len() implies !counted(#[trigger] ps@[k], ids@) by {}
            assert(card_rows_of(rows@, ps@, ids@, catalog@, counted_total(deck_ps@, ids@) as int));
            assert(rows@ == limited(rows@, limit));
        }
        return rows;
    }
    let total = count_selected(&deck_ps, &ids);
    let ts = ranked_tallies(&ps, &ids);
    let mut rows = card_rows(ts, catalog, Ghost(ps@), Ghost(ids@), total);
    let ghost full = rows@;
    if let Some(l) = limit {
        if l >= 0 && (l as u64) < (rows.len() as u64) {
            rows.truncate(l as usize);
        }
    }
    proof {
        assert(rows@ == limited(full, limit));
        assert forall|k: int| 0 <= k < rows@.len() implies #[trigger] rows@[k].deck_count
            == decks_holding(decklists@, ids@, rows@[k].slug@) by {
            assert(rows@[k] == full[k]);
            lemma_card_finishes_count_decks(decklists@, ids@, rows@[k].slug@);
        }
        assert forall|k: int| 0 < rows@.len() <= k < full.len() implies #[trigger] full[k].deck_count
            <= rows@.last().deck_count by {
            assert(rows@.last() == full[rows@.len() - 1]);
            assert(ranked_before(
                full[rows@.len() - 1].deck_count as int,
                full[k].deck_count as int,
                first_index(ps@, ids@, full[rows@.len() - 1].slug@),
                first_index(ps@, ids@, full[k].slug@),
            ));
        }
        assert forall|i: int, j: int| 0 <= i < j < rows@.len() implies #[trigger] rows@[i].deck_count >= #[trigger] rows@[j].deck_count by {
            assert(rows@[i] == full[i] && rows@[j] == full[j]);
        }
    }
    rows
}

/// Whether each decklist's card-frequency map holds a slug at most once, so
/// that a card's finishes count the decks that hold it.
pub open spec fn frequency_slugs_distinct(ds: Seq<Decklist>) -> bool {
    forall|k: int| 0 <= k < ds.len() ==> #[trigger] slugs_distinct(ds[k])
}

/// Whether a decklist's card-frequency map holds a slug at most once.
pub open spec fn slugs_distinct(d: Decklist) -> bool {
    match d.card_frequencies {
        Some(fs) => forall|i: int, j: int|
            0 <= i < j < fs.len() ==> #[trigger] fs@[i].slug@ != #[trigger] fs@[j].slug@,
        None => true,
    }
}

/// The number of rows a limit keeps of `n`.
pub open spec fn limited_len(n: int, limit: Option<i64>) -> int {
    match limit {
        Some(l) => if 0 <= l < n {
            l as int
        } else {
            n
        },
        None => n,
    }
}

/// Whether card rows are ordered by deck count, largest first.
pub open spec fn sorted_desc_cards(rows: Seq<CardPerformance>) -> bool {
    forall|i: int, j: int| 0 <= i < j < rows.len() ==> #[trigger] rows[i].deck_count >= #[trigger] rows[j].deck_count
}


/// Whether two card rows show the same card with the same statistics.
pub open spec fn same_card_row(a: CardPerformance, b: CardPerformance) -> bool {
    &&& a.slug@ == b.slug@
    &&& a.name@ == b.name@
    &&& a.deck_count == b.deck_count
    &&& a.total_quantity == b.total_quantity
    &&& a.rank_sum == b.rank_sum
    &&& a.total_decks == b.total_decks
}

proof fn lemma_named_unique(catalog: Seq<Card>, slug: Seq<char>, x: Seq<char>, y: Seq<char>)
    requires
        named(catalog, slug, x),
        named(catalog, slug, y),
    ensures
        x == y,
{
    if exists|k: int|
        0 <= k < catalog.len() && #[trigger] catalog[k].slug@ == slug && x == catalog[k].name@
            && forall|j: int| 0 <= j < k ==> #[trigger] catalog[j].slug@ != slug {
        let k1 = choose|k: int|
            0 <= k < catalog.len() && #[trigger] catalog[k].slug@ == slug && x == catalog[k].name@
                && forall|j: int| 0 <= j < k ==> #[trigger] catalog[j].slug@ != slug;
        if exists|k: int|
            0 <= k < catalog.len() && #[trigger] catalog[k].slug@ == slug && y == catalog[k].name@
                && forall|j: int| 0 <= j < k ==> #[trigger] catalog[j].slug@ != slug {
            let k2 = choose|k: int|
                0 <= k < catalog.len() && #[trigger] catalog[k].slug@ == slug && y == catalog[k].name@
                    && forall|j: int| 0 <= j < k ==> #[trigger] catalog[j].slug@ != slug;
            if k1 < k2 {
                assert(catalog[k1].slug@ != slug);
            } else if k2 < k1 {
                assert(catalog[k2].slug@ != slug);
            }
        } else {
            assert(catalog[k1].slug@ != slug);
        }
    } else {
        if exists|k: int|
            0 <= k < catalog.len() && #[trigger] catalog[k].slug@ == slug && y == catalog[k].name@
                && forall|j: int| 0 <= j < k ==> #[trigger] catalog[j].slug@ != slug {
            let k2 = choose|k: int|
                0 <= k < catalog.len() && #[trigger] catalog[k].slug@ == slug && y == catalog[k].name@
                    && forall|j: int| 0 <= j < k ==> #[trigger] catalog[j].slug@ != slug;
            assert(catalog[k2].slug@ != slug);
        }
    }
}

/// A key shown in one card list is shown in any other for the same inputs.
proof fn lemma_card_key_shown(
    a: Seq<CardPerformance>,
    b: Seq<CardPerformance>,
    ps: Seq<Placing>,
    ids: Seq<i32>,
    catalog: Seq<Card>,
    total: int,
    i: int,
) -> (j: int)
    requires
        card_rows_of(a, ps, ids, catalog, total),
        card_rows_of(b, ps, ids, catalog, total),
        0 <= i < a.len(),
    ensures
        0 <= j < b.len(),
        b[j].slug@ == a[i].slug@,
{
    assert(a[i].deck_count == appearances(ps, ids, a[i].slug@));
    lemma_first_index(ps, ids, a[i].slug@);
    let f = first_index(ps, ids, a[i].slug@);
    assert(counted(ps[f], ids));
    choose|j: int| 0 <= j < b.len() && #[trigger] b[j].slug@ == ps[f].key@
}

/// The rows at position `i` of two card lists for the same inputs show the
/// same card, given that all earlier positions do.
proof fn lemma_card_key_at(
    a: Seq<CardPerformance>,
    b: Seq<CardPerformance>,
    ps: Seq<Placing>,
    ids: Seq<i32>,
    catalog: Seq<Card>,
    total: int,
    i: int,
)
    requires
        card_rows_of(a, ps, ids, catalog, total),
        card_rows_of(b, ps, ids, catalog, total),
        0 <= i < a.len(),
        0 <= i < b.len(),
        forall|m: int| 0 <= m < i ==> #[trigger] a[m].slug@ == b[m].slug@,
    ensures
        a[i].slug@ == b[i].slug@,
{
    let j = lemma_card_key_shown(a, b, ps, ids, catalog, total, i);
    let k = lemma_card_key_shown(b, a, ps, ids, catalog, total, i);
    if a[i].slug@ != b[i].slug@ {
        if j < i {
            assert(a[j].slug@ == b[j].slug@);
            assert(a[j].slug@ != a[i].slug@);
        }
        if k < i {
            assert(a[k].slug@ == b[k].slug@);
            assert(b[k].slug@ != b[i].slug@);
        }
        assert(j > i && k > i);
        assert(b[i].deck_count == appearances(ps, ids, b[i].slug@));
        assert(a[i].deck_count == appearances(ps, ids, a[i].slug@));
        assert(b[j].deck_count == appearances(ps, ids, b[j].slug@));
        assert(a[k].deck_count == appearances(ps, ids, a[k].slug@));
        assert(ranked_before(
            b[i].deck_count as int,
            b[j].deck_count as int,
            first_index(ps, ids, b[i].slug@),
            first_index(ps, ids, b[j].slug@),
        ));
        assert(ranked_before(
            a[i].deck_count as int,
            a[k].deck_count as int,
            first_index(ps, ids, a[i].slug@),
            first_index(ps, ids, a[k].slug@),
        ));
    }
}

proof fn lemma_card_keys_agree(
    a: Seq<CardPerformance>,
    b: Seq<CardPerformance>,
    ps: Seq<Placing>,
    ids: Seq<i32>,
    catalog: Seq<Card>,
    total: int,
    n: int,
)
    requires
        card_rows_of(a, ps, ids, catalog, total),
        card_rows_of(b, ps, ids, catalog, total),
        0 <= n <= a.len(),
        n <= b.len(),
    ensures
        forall|m: int| 0 <= m < n ==> #[trigger] a[m].slug@ == b[m].slug@,
    decreases n,
{
    if n > 0 {
        lemma_card_keys_agree(a, b, ps, ids, catalog, total, n - 1);
        lemma_card_key_at(a, b, ps, ids, catalog, total, n - 1);
    }
}

/// A card performance list is determined by what it is computed from: two
/// lists that are both the card performance of the same finishes, selection,
/// catalog and deck total hold the same rows in the same order. A call with a
/// limit therefore returns the first rows of the same call without one.
pub proof fn lemma_card_rows_determined(
    a: Seq<CardPerformance>,
    b: Seq<CardPerformance>,
    ps: Seq<Placing>,
    ids: Seq<i32>,
    catalog: Seq<Card>,
    total: int,
)
    requires
        card_rows_of(a, ps, ids, catalog, total),
        card_rows_of(b, ps, ids, catalog, total),
    ensures
        a.len() == b.len(),
        forall|i: int| 0 <= i < a.len() ==> same_card_row(#[trigger] a[i], b[i]),
{
    let n = if a.len() < b.len() {
        a.len() as int
    } else {
        b.len() as int
    };
    lemma_card_keys_agree(a, b, ps, ids, catalog, total, n);
    if a.len() < b.len() {
        let j = lemma_card_key_shown(b, a, ps, ids, catalog, total, a.len() as int);
        assert(a[j].slug@ == b[j].slug@);
        assert(b[j].slug@ != b[a.len() as int].slug@);
    }
    if b.len() < a.len() {
        let j = lemma_card_key_shown(a, b, ps, ids, catalog, total, b.len() as int);
        assert(a[j].slug@ == b[j].slug@);
        assert(a[j].slug@ != a[b.len() as int].slug@);
    }
    assert forall|i: int| 0 <= i < a.len() implies same_card_row(#[trigger] a[i], b[i]) by {
        assert(a[i].slug@ == b[i].slug@);
        assert(a[i].deck_count == appearances(ps, ids, a[i].slug@));
        assert(b[i].deck_count == appearances(ps, ids, b[i].slug@));
        lemma_named_unique(catalog, a[i].slug@, a[i].name@, b[i].name@);
    }
}


/// Whether a decklist's card-frequency map has an entry for `slug` whose
/// quantity fits an `i32`.
pub open spec fn holds_card(d: Decklist, slug: Seq<char>) -> bool {
    match d.card_frequencies {
        Some(fs) => exists|k: int|
            0 <= k < fs.len() && #[trigger] fs@[k].slug@ == slug && i32::MIN <= fs@[k].quantity
                <= i32::MAX,
        None => false,
    }
}

/// The decklists at selected events that hold card `slug`.
pub open spec fn decks_holding(ds: Seq<Decklist>, ids: Seq<i32>, slug: Seq<char>) -> nat
    decreases ds.len(),
{
    if ds.len() == 0 {
        0
    } else {
        decks_holding(ds.drop_last(), ids, slug) + if ids.contains(ds.last().event_id) && holds_card(
            ds.last(),
            slug,
        ) {
            1nat
        } else {
            0nat
        }
    }
}

proof fn lemma_appearances_concat(a: Seq<Placing>, b: Seq<Placing>, ids: Seq<i32>, c: Seq<char>)
    ensures
        appearances(a + b, ids, c) == appearances(a, ids, c) + appearances(b, ids, c),
    decreases b.len(),
{
    if b.len() == 0 {
        assert(a + b =~= a);
    } else {
        lemma_appearances_concat(a, b.drop_last(), ids, c);
        assert((a + b).drop_last() =~= a + b.drop_last());
    }
}

/// Over a prefix of a frequency map with distinct slugs, a card has one
/// finish when the prefix holds it (with a quantity that fits an `i32`) and
/// the deck is selected, none otherwise.
proof fn lemma_frequency_appearances(d: Decklist, fs: Seq<CardFrequency>, ids: Seq<i32>, c: Seq<char>)
    requires
        forall|i: int, j: int| 0 <= i < j < fs.len() ==> #[trigger] fs[i].slug@ != #[trigger] fs[j].slug@,
    ensures
        appearances(frequency_placings(d, fs), ids, c) == if ids.contains(d.event_id) && exists|k: int|
            0 <= k < fs.len() && #[trigger] fs[k].slug@ == c && i32::MIN <= fs[k].quantity <= i32::MAX {
            1nat
        } else {
            0nat
        },
    decreases fs.len(),
{
    if fs.len() > 0 {
        let q = fs.drop_last();
        let f = fs.last();
        assert forall|i: int, j: int| 0 <= i < j < q.len() implies #[trigger] q[i].slug@ != #[trigger] q[j].slug@ by {
            assert(q[i] == fs[i] && q[j] == fs[j]);
        }
        lemma_frequency_appearances(d, q, ids, c);
        let rest = frequency_placings(d, q);
        if i32::MIN <= f.quantity <= i32::MAX {
            let p = Placing { event_id: d.event_id, key: f.slug, rank: d.rank, weight: f.quantity as i32, win_rate: None };
            lemma_unfold(rest, p, ids, c);
        }
        if exists|k: int| 0 <= k < fs.len() && #[trigger] fs[k].slug@ == c && i32::MIN <= fs[k].quantity <= i32::MAX {
            let k = choose|k: int| 0 <= k < fs.len() && #[trigger] fs[k].slug@ == c && i32::MIN <= fs[k].quantity <= i32::MAX;
            if k < q.len() {
                assert(q[k] == fs[k]);
                assert(fs[k].slug@ != fs[fs.len() - 1].slug@);
            }
        } else {
            assert forall|k: int| 0 <= k < q.len() implies !(#[trigger] q[k].slug@ == c && i32::MIN <= q[k].quantity <= i32::MAX) by {
                assert(q[k] == fs[k]);
            }
            assert(fs[fs.len() - 1] == f);
        }
        if exists|k: int| 0 <= k < q.len() && #[trigger] q[k].slug@ == c && i32::MIN <= q[k].quantity <= i32::MAX {
            let k = choose|k: int| 0 <= k < q.len() && #[trigger] q[k].slug@ == c && i32::MIN <= q[k].quantity <= i32::MAX;
            assert(fs[k] == q[k]);
        }
    }
}

/// Where each frequency map holds a slug at most once, a card's finishes are
/// the selected decklists that hold it: its deck count counts decks.
pub proof fn lemma_card_finishes_count_decks(ds: Seq<Decklist>, ids: Seq<i32>, c: Seq<char>)
    requires
        frequency_slugs_distinct(ds),
    ensures
        appearances(card_placings(ds), ids, c) == decks_holding(ds, ids, c),
    decreases ds.len(),
{
    if ds.len() > 0 {
        let q = ds.drop_last();
        let d = ds.last();
        assert forall|k: int| 0 <= k < q.len() implies #[trigger] slugs_distinct(q[k]) by {
            assert(q[k] == ds[k]);
        }
        lemma_card_finishes_count_decks(q, ids, c);
        lemma_appearances_concat(card_placings(q), deck_card_placings(d), ids, c);
        assert(slugs_distinct(ds[ds.len() - 1]));
        assert(ds[ds.len() - 1] == d);
        match d.card_frequencies {
            Some(fs) => {
                lemma_frequency_appearances(d, fs@, ids, c);
            },
            None => {
                assert(deck_card_placings(d) =~= Seq::<Placing>::empty());
            },
        }
    }
}

} // verus!
