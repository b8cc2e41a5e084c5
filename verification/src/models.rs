//! The row types the aggregator consumes and the summary it produces.

use vstd::prelude::*;

verus! {

/// One player row: identity plus the current and the historical peak rating.
/// The current rating (`overall_rating`) orders the leaderboard.
#[derive(Clone, Copy, Debug, PartialEq, Eq, Structural)]
pub struct User {
    pub id: i32,
    pub overall_rating: i32,
    pub highest_rating: i32,
}

/// One completed match row, read-only here. `attack_id` and `defend_id`
/// identify the two players; `is_attacker_alive` records whether the
/// attacker survived the match.
#[derive(Clone, Copy, Debug, PartialEq, Eq, Structural)]
pub struct Game {
    pub attack_id: i32,
    pub defend_id: i32,
    pub attack_score: i32,
    pub defend_score: i32,
    pub damage_done: i32,
    pub robots_destroyed: i32,
    pub emps_used: i32,
    pub is_attacker_alive: bool,
}

/// The derived, ephemeral aggregate: every field is a deterministic
/// function of the inputs handed to [`crate::stats::make_response`].
#[derive(Clone, Copy, Debug, PartialEq, Eq, Structural)]
pub struct StatsResponse {
    pub highest_attack_score: i32,
    pub highest_defense_score: i32,
    pub rating: i32,
    pub highest_rating: i32,
    pub position_in_leaderboard: i32,
    pub no_of_robots_killed: i32,
    pub no_of_robots_got_killed: i32,
    pub no_of_emps_used: i32,
    pub total_damage_defense: i32,
    pub total_damage_attack: i32,
    pub no_of_attackers_suicided: i32,
    pub no_of_attacks: i32,
    pub no_of_defenses: i32,
}

} // verus!
