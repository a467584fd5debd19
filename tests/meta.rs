use meta_crawler::card::Card;
use meta_crawler::decklist::{CardFrequency, Decklist};
use meta_crawler::event::{Event, EventFormat};
use meta_crawler::meta::{
    calculate_card_performance, calculate_champion_performance, calculate_meta_breakdown,
    select_event_ids, window_start, DAY_MS,
};
use meta_crawler::standing::{Standing, WinRate};

fn event(id: i32, status: &str, ranked: bool, format: EventFormat, start: Option<i64>) -> Event {
    let mut e = Event::new(id, format!("E{}", id), format, status.to_string(), 0);
    e.ranked = ranked;
    e.start_date = start;
    e
}

fn deck(event_id: i32, champion: &str, rank: i32, cards: &[(&str, i128)]) -> Decklist {
    let mut d = Decklist::new(event_id, format!("p{}", rank), "P".to_string(), champion.to_string(), rank, 0);
    d.card_frequencies = Some(
        cards.iter().map(|(s, q)| CardFrequency { slug: s.to_string(), quantity: *q }).collect(),
    );
    d
}

fn standing(event_id: i32, champion: &str, rank: i32, rate: Option<(i32, i64)>) -> Standing {
    let mut s = Standing::new(event_id, format!("p{}", rank), "P".to_string(), rank, champion.to_string(), 0);
    s.match_win_rate = rate.map(|(wins, matches)| WinRate { wins, matches });
    s
}

fn percent(part: u64, whole: u64) -> f64 {
    part as f64 / whole as f64 * 100.0
}

#[test]
fn meta_percentages_of_three_champions() {
    let events = vec![event(1, "complete", true, EventFormat::Standard, None)];
    let mut decks = Vec::new();
    for r in 0..6 {
        decks.push(deck(1, "a", r + 1, &[]));
    }
    for r in 0..3 {
        decks.push(deck(1, "b", r + 7, &[]));
    }
    decks.push(deck(1, "c", 10, &[]));
    let rows = calculate_meta_breakdown(&events, &decks, None, None);
    let counts: Vec<(String, u64)> = rows.iter().map(|r| (r.champion.clone(), r.deck_count)).collect();
    assert_eq!(counts, vec![("a".to_string(), 6), ("b".to_string(), 3), ("c".to_string(), 1)]);
    let shares: Vec<f64> = rows.iter().map(|r| percent(r.deck_count, r.total_decks)).collect();
    assert_eq!(shares, vec![60.0, 30.0, 10.0]);
    assert!((shares.iter().sum::<f64>() - 100.0).abs() < 1e-9);
    assert_eq!(rows[0].rank_sum, 21);
    assert_eq!(rows[0].top_8_count, 6);
    assert_eq!(rows[1].top_8_count, 2);
    assert_eq!(rows[2].top_8_count, 0);
}

#[test]
fn meta_breakdown_only_counts_selected_events() {
    let events = vec![
        event(1, "complete", true, EventFormat::Standard, Some(1_000)),
        event(2, "complete", false, EventFormat::Standard, Some(1_000)),
        event(3, "active", true, EventFormat::Standard, Some(1_000)),
        event(4, "complete", true, EventFormat::Draft, Some(1_000)),
        event(5, "complete", true, EventFormat::Standard, Some(10)),
        event(6, "complete", true, EventFormat::Standard, None),
    ];
    assert_eq!(select_event_ids(&events, None, None), vec![1, 4, 5, 6]);
    assert_eq!(select_event_ids(&events, Some(EventFormat::Standard), Some(500)), vec![1]);
    let decks: Vec<Decklist> = (1..=6).map(|e| deck(e, "x", 1, &[])).collect();
    let rows = calculate_meta_breakdown(&events, &decks, Some(EventFormat::Standard), Some(500));
    assert_eq!(rows.len(), 1);
    assert_eq!(rows[0].deck_count, 1);
    assert_eq!(rows[0].total_decks, 1);
}

#[test]
fn meta_breakdown_empty_without_events() {
    let decks = vec![deck(1, "a", 1, &[])];
    assert!(calculate_meta_breakdown(&Vec::new(), &decks, None, None).is_empty());
}

#[test]
fn meta_shares_sum_to_hundred() {
    let events = vec![event(1, "complete", true, EventFormat::Limited, None), event(2, "complete", true, EventFormat::Limited, None)];
    let champs = ["a", "b", "c", "a", "d", "a", "c", "e", "b"];
    let decks: Vec<Decklist> = champs.iter().enumerate().map(|(i, c)| deck(1 + (i % 2) as i32, c, i as i32 + 1, &[])).collect();
    let rows = calculate_meta_breakdown(&events, &decks, None, None);
    assert_eq!(rows.iter().map(|r| r.deck_count).sum::<u64>(), 9);
    let total: f64 = rows.iter().map(|r| percent(r.deck_count, r.total_decks)).sum();
    assert!((total - 100.0).abs() < 1e-9);
    assert!(rows.windows(2).all(|w| w[0].deck_count >= w[1].deck_count));
}

#[test]
fn champion_performance_over_standings() {
    let events = vec![event(1, "complete", true, EventFormat::Standard, None), event(2, "complete", true, EventFormat::Sealed, None)];
    let standings = vec![
        standing(1, "a", 1, Some((3, 4))),
        standing(1, "b", 9, Some((2, 4))),
        standing(2, "a", 17, None),
        standing(2, "a", 12, Some((1, 2))),
        standing(3, "b", 1, Some((4, 4))),
    ];
    let rows = calculate_champion_performance(&events, &standings, None);
    assert_eq!(rows.len(), 2);
    assert_eq!(rows[0].champion, "a");
    assert_eq!(rows[0].total_appearances, 3);
    assert_eq!(rows[0].total_events, 2);
    assert_eq!(rows[0].rank_sum, 30);
    assert_eq!(rows[0].top_8_count, 1);
    assert_eq!(rows[0].top_16_count, 2);
    assert_eq!(rows[0].win_rates, vec![WinRate { wins: 3, matches: 4 }, WinRate { wins: 1, matches: 2 }]);
    assert_eq!(rows[1].champion, "b");
    assert_eq!(rows[1].total_appearances, 1);
    assert_eq!(rows[1].top_8_count, 0);
    assert_eq!(rows[1].top_16_count, 1);
}

#[test]
fn card_performance_sorted_named_and_limited() {
    let events = vec![event(1, "complete", true, EventFormat::Standard, None)];
    let decks = vec![
        deck(1, "a", 1, &[("x", 4), ("y", 2)]),
        deck(1, "b", 3, &[("x", 2), ("z", 1)]),
        deck(1, "c", 5, &[("x", 1), ("y", 3)]),
        deck(2, "c", 5, &[("w", 1)]),
    ];
    let catalog = vec![Card::new("x".to_string(), "Card X".to_string(), 0)];
    let rows = calculate_card_performance(&events, &decks, &catalog, None, None, None);
    let order: Vec<(&str, u64)> = rows.iter().map(|r| (r.slug.as_str(), r.deck_count)).collect();
    assert_eq!(order, vec![("x", 3), ("y", 2), ("z", 1)]);
    assert_eq!(rows[0].name, "Card X");
    assert_eq!(rows[1].name, "y");
    assert_eq!(rows[0].total_quantity, 7);
    assert_eq!(rows[0].rank_sum, 9);
    assert_eq!(rows[0].total_decks, 3);
    assert_eq!(rows[1].total_quantity, 5);
    assert!((percent(rows[0].deck_count, rows[0].total_decks) - 100.0).abs() < 1e-9);
    let limited = calculate_card_performance(&events, &decks, &catalog, None, None, Some(2));
    assert_eq!(limited.len(), 2);
    assert_eq!(limited[0].slug, "x");
    assert_eq!(limited[1].slug, "y");
    assert!(calculate_card_performance(&events, &decks, &catalog, None, None, Some(0)).is_empty());
    assert_eq!(calculate_card_performance(&events, &decks, &catalog, None, None, Some(10)).len(), 3);
    assert_eq!(calculate_card_performance(&events, &decks, &catalog, None, None, Some(-1)).len(), 3);
}

#[test]
fn card_performance_empty_without_selection() {
    let events = vec![event(1, "active", true, EventFormat::Standard, None)];
    let decks = vec![deck(1, "a", 1, &[("x", 4)])];
    assert!(calculate_card_performance(&events, &decks, &Vec::new(), None, None, None).is_empty());
}

#[test]
fn window_of_days() {
    assert_eq!(window_start(100 * DAY_MS, 30), 70 * DAY_MS);
    assert_eq!(window_start(5, 0), 5);
}

#[test]
fn equal_counts_keep_order_of_first_selected_deck() {
    let events = vec![event(1, "complete", true, EventFormat::Standard, None), event(2, "active", true, EventFormat::Standard, None)];
    let decks = vec![
        deck(2, "a", 1, &[]),
        deck(1, "b", 2, &[]),
        deck(1, "a", 3, &[]),
        deck(1, "c", 4, &[]),
        deck(1, "b", 5, &[]),
        deck(1, "a", 6, &[]),
    ];
    let rows = calculate_meta_breakdown(&events, &decks, None, None);
    let order: Vec<&str> = rows.iter().map(|r| r.champion.as_str()).collect();
    assert_eq!(order, vec!["b", "a", "c"]);
    let mut more = decks.clone();
    more.insert(0, deck(2, "c", 1, &[]));
    more.push(deck(2, "c", 1, &[]));
    let again = calculate_meta_breakdown(&events, &more, None, None);
    let order2: Vec<&str> = again.iter().map(|r| r.champion.as_str()).collect();
    assert_eq!(order2, order);
}

#[test]
fn card_ties_and_limit_prefix() {
    let events = vec![event(1, "complete", true, EventFormat::Standard, None)];
    let decks = vec![
        deck(1, "a", 1, &[("y", 1), ("x", 1)]),
        deck(1, "b", 2, &[("z", 2), ("x", 1)]),
    ];
    let all = calculate_card_performance(&events, &decks, &Vec::new(), None, None, None);
    let order: Vec<&str> = all.iter().map(|r| r.slug.as_str()).collect();
    assert_eq!(order, vec!["x", "y", "z"]);
    let top = calculate_card_performance(&events, &decks, &Vec::new(), None, None, Some(2));
    assert_eq!(top.len(), 2);
    for (a, b) in top.iter().zip(all.iter()) {
        assert_eq!(a.slug, b.slug);
        assert_eq!(a.deck_count, b.deck_count);
    }
}

#[test]
fn champion_ties_by_first_standing() {
    let events = vec![event(1, "complete", true, EventFormat::Standard, None)];
    let standings = vec![standing(1, "z", 1, None), standing(1, "m", 2, None), standing(1, "a", 3, None)];
    let rows = calculate_champion_performance(&events, &standings, None);
    let order: Vec<&str> = rows.iter().map(|r| r.champion.as_str()).collect();
    assert_eq!(order, vec!["z", "m", "a"]);
}
