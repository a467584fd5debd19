//! Tournament events: their format, the policy that picks events worth a
//! detailed fetch, and their construction from the upstream payload.
use vstd::prelude::*;
use crate::text::{lowercase, lowercase_of, str_eq, uppercase, uppercase_of};

verus! {

/// Player count above which a ranked, complete event is worth a detailed fetch
/// even without published decklists.
pub const LARGE_EVENT_PLAYERS: i32 = 60;

/// The format an event is played in.
#[derive(Debug, Clone, Copy, PartialEq, Eq, Structural)]
pub enum EventFormat {
    Standard,
    Limited,
    Sealed,
    Draft,
    Unknown,
}

/// The format an upper-case format name stands for.
pub open spec fn format_named(upper: Seq<char>) -> EventFormat {
    if upper == "STANDARD"@ {
        EventFormat::Standard
    } else if upper == "LIMITED"@ {
        EventFormat::Limited
    } else if upper == "SEALED"@ {
        EventFormat::Sealed
    } else if upper == "DRAFT"@ {
        EventFormat::Draft
    } else {
        EventFormat::Unknown
    }
}

impl EventFormat {
    /// The format a name stands for, compared without regard to case; any
    /// other name is `Unknown`.
    pub fn from_str(s: &str) -> (f: EventFormat)
        ensures
            f == format_named(uppercase_of(s@)),
    {
        let upper = uppercase(s);
        EventFormat::from_upper(upper.as_str())
    }

    /// The format an already upper-cased name stands for.
    pub fn from_upper(upper: &str) -> (f: EventFormat)
        ensures
            f == format_named(upper@),
    {
        if str_eq(upper, "STANDARD") {
            EventFormat::Standard
        } else if str_eq(upper, "LIMITED") {
            EventFormat::Limited
        } else if str_eq(upper, "SEALED") {
            EventFormat::Sealed
        } else if str_eq(upper, "DRAFT") {
            EventFormat::Draft
        } else {
            EventFormat::Unknown
        }
    }
}

/// A tournament event. Times are milliseconds since the Unix epoch.
#[derive(Debug, Clone)]
pub struct Event {
    /// The upstream id; unique.
    pub event_id: i32,
    pub name: String,
    pub format: EventFormat,
    /// For example "complete", "active", "upcoming".
    pub status: String,
    pub ranked: bool,
    pub player_count: i32,
    pub start_date: Option<i64>,
    pub end_date: Option<i64>,
    pub location: Option<String>,
    pub organizer: Option<String>,
    pub rounds: Option<i32>,
    pub has_decklists: bool,
    pub tier: Option<String>,
    pub updated_at: i64,
    pub crawled_at: i64,
}

/// The interest rule over a status already in lower case.
pub open spec fn interest_rule(
    lowered_status: Seq<char>,
    ranked: bool,
    has_decklists: bool,
    player_count: int,
) -> bool {
    lowered_status == "complete"@ && ranked && (has_decklists || player_count
        > LARGE_EVENT_PLAYERS)
}

/// Whether an event justifies fetching its standings and decklists: its
/// status is "complete" in any case, it is ranked, and it has decklists or
/// more than sixty players.
pub open spec fn interesting(e: Event) -> bool {
    interest_rule(lowercase_of(e.status@), e.ranked, e.has_decklists, e.player_count as int)
}

/// The interest rule, given the status in lower case.
pub fn qualifies(lowered_status: &str, ranked: bool, has_decklists: bool, player_count: i32) -> (r:
    bool)
    ensures
        r == interest_rule(lowered_status@, ranked, has_decklists, player_count as int),
{
    str_eq(lowered_status, "complete") && ranked && (has_decklists || player_count
        > LARGE_EVENT_PLAYERS)
}

impl Event {
    /// A new event with no statistics yet.
    pub fn new(event_id: i32, name: String, format: EventFormat, status: String, now: i64) -> (e:
        Event)
        ensures
            e.event_id == event_id,
            e.name == name,
            e.format == format,
            e.status == status,
            !e.ranked,
            e.player_count == 0,
            e.start_date is None,
            e.end_date is None,
            e.location is None,
            e.organizer is None,
            e.rounds is None,
            !e.has_decklists,
            e.tier is None,
            e.updated_at == now,
            e.crawled_at == now,
    {
        Event {
            event_id,
            name,
            format,
            status,
            ranked: false,
            player_count: 0,
            start_date: None,
            end_date: None,
            location: None,
            organizer: None,
            rounds: None,
            has_decklists: false,
            tier: None,
            updated_at: now,
            crawled_at: now,
        }
    }

    /// Whether the event is worth a detailed fetch.
    pub fn is_interesting(&self) -> (r: bool)
        ensures
            r == interesting(*self),
    {
        let lowered = lowercase(self.status.as_str());
        qualifies(lowered.as_str(), self.ranked, self.has_decklists, self.player_count)
    }

    /// What to fetch beyond the event itself: standings for an interesting
    /// event, and decklists too where the event publishes them.
    pub fn ingest_plan(&self) -> (p: IngestPlan)
        ensures
            p.fetch_standings == interesting(*self),
            p.fetch_decklists == (interesting(*self) && self.has_decklists),
    {
        let standings = self.is_interesting();
        IngestPlan { fetch_standings: standings, fetch_decklists: standings && self.has_decklists }
    }

    /// Takes the player count and decklist flag from a statistics lookup; a
    /// failed lookup leaves the event as it was.
    pub fn apply_statistics(&mut self, stats: Option<(i32, bool)>)
        ensures
            stats is None ==> *final(self) == *old(self),
            stats is Some ==> *final(self) == (Event {
                player_count: stats->Some_0.0,
                has_decklists: stats->Some_0.1,
                ..*old(self)
            }),
    {
        if let Some((player_count, has_decklists)) = stats {
            self.player_count = player_count;
            self.has_decklists = has_decklists;
        }
    }
}

/// The detail fetches a found event calls for.
#[derive(Debug, Clone, Copy, PartialEq, Eq, Structural)]
pub struct IngestPlan {
    pub fetch_standings: bool,
    pub fetch_decklists: bool,
}

/// An event as the upstream describes it.
#[derive(Debug, Clone)]
pub struct EventData {
    pub id: i32,
    pub name: String,
    pub format: String,
    pub status: String,
    pub ranked: bool,
    pub player_count: i32,
    pub start_date: Option<String>,
    pub end_date: Option<String>,
    pub location: Option<String>,
    pub organizer: Option<String>,
    pub rounds: Option<i32>,
    pub tier: Option<String>,
}

/// The instant an RFC 3339 timestamp denotes, in milliseconds since the Unix
/// epoch, or `None` where the text is not such a timestamp.
pub uninterp spec fn rfc3339_millis(s: Seq<char>) -> Option<i64>;

/// Relies on chrono's `DateTime::parse_from_rfc3339`, read back as UTC
/// milliseconds through `with_timezone` and `timestamp_millis`.
#[verifier::external_body]
fn parse_rfc3339(s: &str) -> (r: Option<i64>)
    ensures
        r == rfc3339_millis(s@),
        s@.len() == 0 ==> r is None,
{
    chrono::DateTime::parse_from_rfc3339(s).ok().map(|dt| dt.with_timezone(&chrono::Utc).timestamp_millis())
}

/// The instant an optional timestamp text denotes; absent or unreadable text
/// gives none.
pub open spec fn date_of(s: Option<String>) -> Option<i64> {
    match s {
        Some(t) => rfc3339_millis(t@),
        None => None,
    }
}

fn parse_date(s: &Option<String>) -> (r: Option<i64>)
    ensures
        r == date_of(*s),
{
    match s {
        Some(t) => parse_rfc3339(t.as_str()),
        None => None,
    }
}

impl Event {
    /// The event an upstream payload describes, fetched at `now`, with its
    /// dates already read. Decklist availability is unknown until statistics
    /// are applied.
    pub fn from_api_dated(
        data: EventData,
        start_date: Option<i64>,
        end_date: Option<i64>,
        now: i64,
    ) -> (e: Event)
        ensures
            e.event_id == data.id,
            e.name == data.name,
            e.format == format_named(uppercase_of(data.format@)),
            e.status == data.status,
            e.ranked == data.ranked,
            e.player_count == data.player_count,
            e.start_date == start_date,
            e.end_date == end_date,
            e.location == data.location,
            e.organizer == data.organizer,
            e.rounds == data.rounds,
            !e.has_decklists,
            e.tier == data.tier,
            e.updated_at == now,
            e.crawled_at == now,
    {
        let format = EventFormat::from_str(data.format.as_str());
        Event {
            event_id: data.id,
            name: data.name,
            format,
            status: data.status,
            ranked: data.ranked,
            player_count: data.player_count,
            start_date,
            end_date,
            location: data.location,
            organizer: data.organizer,
            rounds: data.rounds,
            has_decklists: false,
            tier: data.tier,
            updated_at: now,
            crawled_at: now,
        }
    }

    /// The event an upstream payload describes, fetched at `now`; its dates
    /// are read as RFC 3339 timestamps, and one that does not read is absent.
    pub fn from_api(data: EventData, now: i64) -> (e: Event)
        ensures
            e.start_date == date_of(data.start_date),
            e.end_date == date_of(data.end_date),
            e.event_id == data.id,
            e.name == data.name,
            e.format == format_named(uppercase_of(data.format@)),
            e.status == data.status,
            e.ranked == data.ranked,
            e.player_count == data.player_count,
            e.location == data.location,
            e.organizer == data.organizer,
            e.rounds == data.rounds,
            !e.has_decklists,
            e.tier == data.tier,
            e.updated_at == now,
            e.crawled_at == now,
    {
        let start_date = parse_date(&data.start_date);
        let end_date = parse_date(&data.end_date);
        Event::from_api_dated(data, start_date, end_date, now)
    }
}

} // verus!
