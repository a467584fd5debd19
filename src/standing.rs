//! A player's final standing in an event.
use vstd::prelude::*;

verus! {

/// A match win rate held exactly: `wins / matches`, with `matches > 0`.
#[derive(Debug, Clone, Copy, PartialEq, Eq, Structural)]
pub struct WinRate {
    pub wins: i32,
    pub matches: i64,
}

/// A player's standing in an event; unique on (event_id, player_id).
#[derive(Debug, Clone)]
pub struct Standing {
    pub event_id: i32,
    pub player_id: String,
    pub player_name: String,
    /// Final placement, 1 for the winner.
    pub rank: i32,
    /// Slug of the champion played.
    pub champion: String,
    pub wins: i32,
    pub losses: i32,
    pub draws: i32,
    /// Derived at ingestion from the match record; absent when no match was
    /// played.
    pub match_win_rate: Option<WinRate>,
    pub has_decklist: bool,
    /// Milliseconds since the Unix epoch.
    pub updated_at: i64,
}

/// Matches played: wins, losses and draws together.
pub open spec fn matches_played(s: Standing) -> int {
    s.wins + s.losses + s.draws
}

impl Standing {
    /// A standing with an empty match record.
    pub fn new(
        event_id: i32,
        player_id: String,
        player_name: String,
        rank: i32,
        champion: String,
        now: i64,
    ) -> (s: Standing)
        ensures
            s.event_id == event_id,
            s.player_id == player_id,
            s.player_name == player_name,
            s.rank == rank,
            s.champion == champion,
            s.wins == 0 && s.losses == 0 && s.draws == 0,
            s.match_win_rate is None,
            !s.has_decklist,
            s.updated_at == now,
    {
        Standing {
            event_id,
            player_id,
            player_name,
            rank,
            champion,
            wins: 0,
            losses: 0,
            draws: 0,
            match_win_rate: None,
            has_decklist: false,
            updated_at: now,
        }
    }

    /// Derives the match win rate from the match record when at least one
    /// match was played; otherwise the standing stays as it was.
    pub fn calculate_win_rate(&mut self)
        ensures
            matches_played(*old(self)) > 0 ==> *final(self) == (Standing {
                match_win_rate: Some(
                    WinRate { wins: old(self).wins, matches: matches_played(*old(self)) as i64 },
                ),
                ..*old(self)
            }),
            matches_played(*old(self)) <= 0 ==> *final(self) == *old(self),
    {
        let total: i64 = self.wins as i64 + self.losses as i64 + self.draws as i64;
        if total > 0 {
            self.match_win_rate = Some(WinRate { wins: self.wins, matches: total });
        }
    }
}

/// A standing as the upstream describes it.
#[derive(Debug, Clone)]
pub struct StandingData {
    pub player_id: String,
    pub player_name: String,
    pub rank: i32,
    pub champion: String,
    pub wins: i32,
    pub losses: i32,
    pub draws: i32,
    pub has_decklist: Option<bool>,
}

impl Standing {
    /// The standing an upstream payload describes for event `event_id`,
    /// with its win rate derived.
    pub fn from_api(event_id: i32, data: StandingData, now: i64) -> (s: Standing)
        ensures
            s.event_id == event_id,
            s.player_id == data.player_id,
            s.player_name == data.player_name,
            s.rank == data.rank,
            s.champion == data.champion,
            s.wins == data.wins,
            s.losses == data.losses,
            s.draws == data.draws,
            s.has_decklist == (data.has_decklist == Some(true)),
            matches_played(s) > 0 ==> s.match_win_rate == Some(
                WinRate { wins: data.wins, matches: matches_played(s) as i64 },
            ),
            matches_played(s) <= 0 ==> s.match_win_rate is None,
            s.updated_at == now,
    {
        let mut s = Standing::new(
            event_id,
            data.player_id,
            data.player_name,
            data.rank,
            data.champion,
            now,
        );
        s.wins = data.wins;
        s.losses = data.losses;
        s.draws = data.draws;
        s.has_decklist = match data.has_decklist {
            Some(b) => b,
            None => false,
        };
        s.calculate_win_rate();
        s
    }
}

/// The players of a standings list whose decklist is published, in order.
pub open spec fn decklist_players(standings: Seq<Standing>) -> Seq<String>
    decreases standings.len(),
{
    if standings.len() == 0 {
        Seq::empty()
    } else {
        let rest = decklist_players(standings.drop_last());
        if standings.last().has_decklist {
            rest.push(standings.last().player_id)
        } else {
            rest
        }
    }
}

/// The ids of the players whose decklist is to be fetched.
pub fn decklist_player_ids(standings: &Vec<Standing>) -> (ids: Vec<String>)
    ensures
        ids@ == decklist_players(standings@),
{
    let mut ids: Vec<String> = Vec::new();
    let mut i: usize = 0;
    while i < standings.len()
        invariant
            i <= standings.len(),
            ids@ == decklist_players(standings@.take(i as int)),
        decreases standings.len() - i,
    {
        proof {
            assert(standings@.take(i + 1).drop_last() =~= standings@.take(i as int));
        }
        if standings[i].has_decklist {
            ids.push(standings[i].player_id.clone());
        }
        i = i + 1;
    }
    proof {
        assert(standings@.take(i as int) =~= standings@);
    }
    ids
}

} // verus!
