use meta_crawler::card::{Card, CardData, Champion};
use meta_crawler::decklist::{CardFrequency, Decklist, DecklistCard, DecklistData};
use meta_crawler::event::{qualifies, Event, EventData, EventFormat};
use meta_crawler::standing::{decklist_player_ids, Standing, StandingData, WinRate};
use meta_crawler::sync::{card_slugs, distinct_texts};

fn card(slug: &str, quantity: i32) -> DecklistCard {
    DecklistCard {
        slug: slug.to_string(),
        name: slug.to_uppercase(),
        quantity,
        card_type: None,
        element: None,
        cost: None,
    }
}

fn freq(fs: &[CardFrequency], slug: &str) -> Option<i128> {
    fs.iter().find(|f| f.slug == slug).map(|f| f.quantity)
}

fn event(status: &str, ranked: bool, has_decklists: bool, player_count: i32) -> Event {
    let mut e = Event::new(1, "Open".to_string(), EventFormat::Standard, status.to_string(), 0);
    e.ranked = ranked;
    e.has_decklists = has_decklists;
    e.player_count = player_count;
    e
}

#[test]
fn decklist_frequencies_and_counts() {
    let data = DecklistData {
        player_id: "player-one".to_string(),
        player_name: "Player".to_string(),
        champion: "lorraine".to_string(),
        rank: 3,
        main_deck: vec![card("a", 4), card("b", 2)],
        sideboard: Some(vec![card("a", 1)]),
    };
    let d = Decklist::from_api(7, data, 99);
    let fs = d.card_frequencies.clone().unwrap();
    assert_eq!(fs.len(), 2);
    assert_eq!(freq(&fs, "a"), Some(5));
    assert_eq!(freq(&fs, "b"), Some(2));
    assert_eq!(d.main_deck_count, 6);
    assert_eq!(d.sideboard_count, 1);
    assert_eq!(d.event_id, 7);
    assert_eq!(d.updated_at, 99);
}

#[test]
fn frequencies_sum_repeated_lines() {
    let mut d = Decklist::new(1, "p".to_string(), "P".to_string(), "c".to_string(), 1, 0);
    d.main_deck = vec![card("x", 3), card("y", 1), card("x", 2)];
    d.sideboard = vec![card("y", 4), card("z", 1)];
    d.calculate_frequencies();
    let fs = d.card_frequencies.unwrap();
    assert_eq!(fs.len(), 3);
    assert_eq!(freq(&fs, "x"), Some(5));
    assert_eq!(freq(&fs, "y"), Some(5));
    assert_eq!(freq(&fs, "z"), Some(1));
}

#[test]
fn empty_decklist_has_empty_frequencies() {
    let mut d = Decklist::new(1, "p".to_string(), "P".to_string(), "c".to_string(), 1, 0);
    d.calculate_frequencies();
    assert_eq!(d.card_frequencies.unwrap().len(), 0);
}

#[test]
fn decklist_without_sideboard() {
    let data = DecklistData {
        player_id: "p".to_string(),
        player_name: "P".to_string(),
        champion: "c".to_string(),
        rank: 1,
        main_deck: vec![card("a", 60)],
        sideboard: None,
    };
    let d = Decklist::from_api(1, data, 0);
    assert_eq!(d.sideboard_count, 0);
    assert!(d.sideboard.is_empty());
    assert!(d.is_valid());
}

#[test]
fn deck_size_rules() {
    let mut d = Decklist::new(1, "p".to_string(), "P".to_string(), "c".to_string(), 1, 0);
    d.main_deck_count = 60;
    d.sideboard_count = 15;
    assert!(d.is_valid());
    d.main_deck_count = 59;
    assert!(!d.is_valid());
    d.main_deck_count = 60;
    d.sideboard_count = 16;
    assert!(!d.is_valid());
}

#[test]
fn interesting_events() {
    assert!(event("complete", true, true, 0).is_interesting());
    assert!(event("COMPLETE", true, false, 61).is_interesting());
    assert!(event("Complete", true, true, 10).is_interesting());
    assert!(!event("complete", true, false, 60).is_interesting());
    assert!(!event("complete", false, true, 100).is_interesting());
    assert!(!event("active", true, true, 100).is_interesting());
    assert!(!event("completed", true, true, 100).is_interesting());
}

#[test]
fn interest_rule_on_lowered_status() {
    assert!(qualifies("complete", true, false, 61));
    assert!(!qualifies("COMPLETE", true, true, 100));
    assert!(!qualifies("complete", true, false, 60));
}

#[test]
fn ingest_plan_follows_interest() {
    let p = event("complete", true, true, 0).ingest_plan();
    assert!(p.fetch_standings && p.fetch_decklists);
    let p = event("complete", true, false, 100).ingest_plan();
    assert!(p.fetch_standings && !p.fetch_decklists);
    let p = event("upcoming", true, true, 100).ingest_plan();
    assert!(!p.fetch_standings && !p.fetch_decklists);
}

#[test]
fn statistics_refresh_event() {
    let mut e = event("complete", true, false, 10);
    e.apply_statistics(None);
    assert_eq!(e.player_count, 10);
    assert!(!e.has_decklists);
    e.apply_statistics(Some((80, true)));
    assert_eq!(e.player_count, 80);
    assert!(e.has_decklists);
}

#[test]
fn event_format_names() {
    assert_eq!(EventFormat::from_str("standard"), EventFormat::Standard);
    assert_eq!(EventFormat::from_str("Limited"), EventFormat::Limited);
    assert_eq!(EventFormat::from_str("SEALED"), EventFormat::Sealed);
    assert_eq!(EventFormat::from_str("draft"), EventFormat::Draft);
    assert_eq!(EventFormat::from_str("constructed"), EventFormat::Unknown);
    assert_eq!(EventFormat::from_str(""), EventFormat::Unknown);
    assert_eq!(EventFormat::from_upper("standard"), EventFormat::Unknown);
}

#[test]
fn event_from_payload_parses_dates() {
    let data = EventData {
        id: 12,
        name: "Regional".to_string(),
        format: "standard".to_string(),
        status: "complete".to_string(),
        ranked: true,
        player_count: 64,
        start_date: Some("2024-01-02T03:04:05Z".to_string()),
        end_date: Some("not a date".to_string()),
        location: None,
        organizer: Some("Org".to_string()),
        rounds: Some(6),
        tier: None,
    };
    let e = Event::from_api(data, 5);
    assert_eq!(e.event_id, 12);
    assert_eq!(e.format, EventFormat::Standard);
    assert_eq!(e.start_date, Some(1_704_164_645_000));
    assert_eq!(e.end_date, None);
    assert!(!e.has_decklists);
    assert_eq!(e.crawled_at, 5);
}

#[test]
fn event_dates_with_offset_read_as_utc() {
    let data = EventData {
        id: 1,
        name: "n".to_string(),
        format: "x".to_string(),
        status: "s".to_string(),
        ranked: false,
        player_count: 0,
        start_date: Some("1970-01-01T01:00:00+01:00".to_string()),
        end_date: None,
        location: None,
        organizer: None,
        rounds: None,
        tier: None,
    };
    let e = Event::from_api(data, 0);
    assert_eq!(e.start_date, Some(0));
    assert_eq!(e.format, EventFormat::Unknown);
}

#[test]
fn standing_win_rate() {
    let data = StandingData {
        player_id: "p".to_string(),
        player_name: "P".to_string(),
        rank: 2,
        champion: "c".to_string(),
        wins: 3,
        losses: 1,
        draws: 1,
        has_decklist: Some(true),
    };
    let s = Standing::from_api(4, data, 0);
    assert_eq!(s.match_win_rate, Some(WinRate { wins: 3, matches: 5 }));
    assert!(s.has_decklist);
    let mut t = Standing::new(4, "q".to_string(), "Q".to_string(), 1, "c".to_string(), 0);
    t.calculate_win_rate();
    assert_eq!(t.match_win_rate, None);
}

#[test]
fn decklist_players_are_those_with_lists() {
    let mk = |id: &str, has: bool| {
        let mut s = Standing::new(1, id.to_string(), id.to_string(), 1, "c".to_string(), 0);
        s.has_decklist = has;
        s
    };
    let ids = decklist_player_ids(&vec![mk("a", true), mk("b", false), mk("c", true)]);
    assert_eq!(ids, vec!["a".to_string(), "c".to_string()]);
}

#[test]
fn card_from_payload() {
    let data = CardData {
        slug: "s".to_string(),
        name: "N".to_string(),
        card_type: Some("Ally".to_string()),
        element: None,
        classes: Some(vec!["Warrior".to_string(), "Mage".to_string()]),
        cost: Some(2),
        reserve_cost: None,
        power: None,
        life_modifier: Some(20),
        effect_text: Some("text".to_string()),
        flavor_text: None,
        image_url: None,
        set: Some("DOA".to_string()),
        collector_number: Some("001".to_string()),
        rarity: None,
        artist: None,
        subtypes: None,
    };
    let c = Card::from_api(data, 3);
    assert_eq!(c.card_text, Some("text".to_string()));
    assert_eq!(c.set_name, Some("DOA".to_string()));
    assert_eq!(c.card_number, Some("001".to_string()));
    let champ = Champion::from_card(c, 4);
    assert_eq!(champ.class, Some("Warrior".to_string()));
    assert_eq!(champ.life, Some(20));
    assert_eq!(champ.ability_text, Some("text".to_string()));
    let plain = Champion::new("x".to_string(), "X".to_string(), 1);
    assert_eq!(plain.class, None);
    assert_eq!(Card::new("y".to_string(), "Y".to_string(), 2).name, "Y");
}

#[test]
fn card_slugs_are_distinct_over_main_and_side() {
    let mut d1 = Decklist::new(1, "p".to_string(), "P".to_string(), "c".to_string(), 1, 0);
    d1.main_deck = vec![card("a", 1), card("b", 2), card("a", 1)];
    d1.sideboard = vec![card("c", 1)];
    let mut d2 = Decklist::new(2, "q".to_string(), "Q".to_string(), "c".to_string(), 1, 0);
    d2.main_deck = vec![card("c", 1), card("d", 1)];
    assert_eq!(card_slugs(&vec![d1, d2]), vec!["a", "b", "c", "d"]);
    assert!(card_slugs(&Vec::new()).is_empty());
    let names = vec!["x".to_string(), "y".to_string(), "x".to_string()];
    assert_eq!(distinct_texts(&names), vec!["x", "y"]);
}

#[test]
fn event_from_payload_with_dates_given() {
    let data = EventData {
        id: 3,
        name: "Store".to_string(),
        format: "Draft".to_string(),
        status: "complete".to_string(),
        ranked: true,
        player_count: 12,
        start_date: Some("ignored".to_string()),
        end_date: None,
        location: Some("Here".to_string()),
        organizer: None,
        rounds: None,
        tier: Some("local".to_string()),
    };
    let e = Event::from_api_dated(data, Some(10), Some(20), 7);
    assert_eq!(e.start_date, Some(10));
    assert_eq!(e.end_date, Some(20));
    assert_eq!(e.format, EventFormat::Draft);
    assert_eq!(e.location, Some("Here".to_string()));
    assert_eq!(e.updated_at, 7);
}
