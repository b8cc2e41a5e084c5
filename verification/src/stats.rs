//! The aggregator: folds one player's record, their attack and defense
//! match histories, and the rating-ordered leaderboard into a summary.

use vstd::prelude::*;
use crate::models::{Game, StatsResponse, User};

verus! {

/// Sum of `damage_done` over a match list.
pub open spec fn sum_damage(games: Seq<Game>) -> int
    decreases games.len(),
{
    if games.len() == 0 {
        0
    } else {
        sum_damage(games.drop_last()) + games.last().damage_done
    }
}

/// Sum of `robots_destroyed` over a match list.
pub open spec fn sum_robots(games: Seq<Game>) -> int
    decreases games.len(),
{
    if games.len() == 0 {
        0
    } else {
        sum_robots(games.drop_last()) + games.last().robots_destroyed
    }
}

/// Sum of `emps_used` over a match list.
pub open spec fn sum_emps(games: Seq<Game>) -> int
    decreases games.len(),
{
    if games.len() == 0 {
        0
    } else {
        sum_emps(games.drop_last()) + games.last().emps_used
    }
}

/// How many matches the attacker did not survive.
pub open spec fn count_suicides(games: Seq<Game>) -> int
    decreases games.len(),
{
    if games.len() == 0 {
        0
    } else {
        count_suicides(games.drop_last()) + if games.last().is_attacker_alive {
            0int
        } else {
            1int
        }
    }
}

/// Largest `attack_score` in a match list; 0 when the list is empty.
pub open spec fn max_attack_score(games: Seq<Game>) -> int
    decreases games.len(),
{
    if games.len() == 0 {
        0
    } else if games.len() == 1 {
        games[0].attack_score as int
    } else if games.last().attack_score >= max_attack_score(games.drop_last()) {
        games.last().attack_score as int
    } else {
        max_attack_score(games.drop_last())
    }
}

/// Largest `defend_score` in a match list; 0 when the list is empty.
pub open spec fn max_defend_score(games: Seq<Game>) -> int
    decreases games.len(),
{
    if games.len() == 0 {
        0
    } else if games.len() == 1 {
        games[0].defend_score as int
    } else if games.last().defend_score >= max_defend_score(games.drop_last()) {
        games.last().defend_score as int
    } else {
        max_defend_score(games.drop_last())
    }
}

/// One-based rank of the first entry whose `id` is `uid`; 0 when `uid`
/// does not occur (the explicit "unranked" sentinel).
pub open spec fn leaderboard_rank(users: Seq<User>, uid: i32) -> int
    decreases users.len(),
{
    if users.len() == 0 {
        0
    } else if leaderboard_rank(users.drop_last(), uid) != 0 {
        leaderboard_rank(users.drop_last(), uid)
    } else if users.last().id == uid {
        users.len() as int
    } else {
        0
    }
}

/// What the summary must hold: every field of `r` pinned as a function of
/// the four inputs.
pub open spec fn stats_of(
    user: User,
    attack_games: Seq<Game>,
    defense_games: Seq<Game>,
    users: Seq<User>,
    r: StatsResponse,
) -> bool {
    &&& r.rating == user.overall_rating
    &&& r.highest_rating == user.highest_rating
    &&& r.no_of_attacks == attack_games.len()
    &&& r.no_of_defenses == defense_games.len()
    &&& r.highest_attack_score == max_attack_score(attack_games)
    &&& r.total_damage_attack == sum_damage(attack_games)
    &&& r.no_of_robots_killed == sum_robots(attack_games)
    &&& r.no_of_emps_used == sum_emps(attack_games)
    &&& r.no_of_attackers_suicided == count_suicides(attack_games)
    &&& r.highest_defense_score == max_defend_score(defense_games)
    &&& r.total_damage_defense == sum_damage(defense_games)
    &&& r.no_of_robots_got_killed == sum_robots(defense_games)
    &&& r.position_in_leaderboard == leaderboard_rank(users, user.id)
}

/// Builds the summary. Pure and deterministic: no I/O, no failure mode.
/// The match lists need not be sorted; the maxima are computed by scanning,
/// so the result is invariant under reordering of either list.
pub fn make_response(
    user: &User,
    attack_game: &Vec<Game>,
    defense_game: &Vec<Game>,
    users: &Vec<User>,
) -> (r: StatsResponse)
    requires
        attack_game@.len() <= i32::MAX,
        defense_game@.len() <= i32::MAX,
        users@.len() <= i32::MAX,
        i32::MIN <= sum_damage(attack_game@) <= i32::MAX,
        i32::MIN <= sum_robots(attack_game@) <= i32::MAX,
        i32::MIN <= sum_emps(attack_game@) <= i32::MAX,
        i32::MIN <= sum_damage(defense_game@) <= i32::MAX,
        i32::MIN <= sum_robots(defense_game@) <= i32::MAX,
    ensures
        stats_of(*user, attack_game@, defense_game@, users@, r),
{
    let na: usize = attack_game.len();
    let nd: usize = defense_game.len();
    let nu: usize = users.len();

    let mut highest_attack_score: i32 = 0;
    if na > 0 {
        highest_attack_score = attack_game[0].attack_score;
        let mut i: usize = 1;
        while i < na
            invariant
                1 <= i <= na,
                na == attack_game@.len(),
                highest_attack_score == max_attack_score(attack_game@.take(i as int)),
            decreases na - i,
        {
            let s = attack_game[i].attack_score;
            proof {
                assert(attack_game@.take(i as int + 1).drop_last() =~= attack_game@.take(
                    i as int,
                ));
                assert(attack_game@.take(i as int + 1).last() == attack_game@[i as int]);
            }
            if s > highest_attack_score {
                highest_attack_score = s;
            }
            i += 1;
        }
        assert(attack_game@.take(na as int) =~= attack_game@);
    }

    let mut total_damage_attack: i64 = 0;
    let mut no_of_robots_killed: i64 = 0;
    let mut no_of_emps_used: i64 = 0;
    let mut no_of_attackers_suicided: i32 = 0;
    let mut i: usize = 0;
    while i < na
        invariant
            i <= na,
            na == attack_game@.len() <= i32::MAX,
            total_damage_attack == sum_damage(attack_game@.take(i as int)),
            no_of_robots_killed == sum_robots(attack_game@.take(i as int)),
            no_of_emps_used == sum_emps(attack_game@.take(i as int)),
            no_of_attackers_suicided == count_suicides(attack_game@.take(i as int)),
            (i as int) * (i32::MIN as int) <= total_damage_attack <= (i as int) * (
            i32::MAX as int),
            (i as int) * (i32::MIN as int) <= no_of_robots_killed <= (i as int) * (
            i32::MAX as int),
            (i as int) * (i32::MIN as int) <= no_of_emps_used <= (i as int) * (i32::MAX as int),
            0 <= no_of_attackers_suicided <= i,
        decreases na - i,
    {
        let g = attack_game[i];
        proof {
            assert(attack_game@.take(i as int + 1).drop_last() =~= attack_game@.take(i as int));
            assert(attack_game@.take(i as int + 1).last() == attack_game@[i as int]);
        }
        total_damage_attack = total_damage_attack + g.damage_done as i64;
        no_of_robots_killed = no_of_robots_killed + g.robots_destroyed as i64;
        no_of_emps_used = no_of_emps_used + g.emps_used as i64;
        if !g.is_attacker_alive {
            no_of_attackers_suicided = no_of_attackers_suicided + 1;
        }
        i += 1;
    }
    assert(attack_game@.take(na as int) =~= attack_game@);

    let mut highest_defense_score: i32 = 0;
    if nd > 0 {
        highest_defense_score = defense_game[0].defend_score;
        let mut i: usize = 1;
        while i < nd
            invariant
                1 <= i <= nd,
                nd == defense_game@.len(),
                highest_defense_score == max_defend_score(defense_game@.take(i as int)),
            decreases nd - i,
        {
            let s = defense_game[i].defend_score;
            proof {
                assert(defense_game@.take(i as int + 1).drop_last() =~= defense_game@.take(
                    i as int,
                ));
                assert(defense_game@.take(i as int + 1).last() == defense_game@[i as int]);
            }
            if s > highest_defense_score {
                highest_defense_score = s;
            }
            i += 1;
        }
        assert(defense_game@.take(nd as int) =~= defense_game@);
    }

    let mut total_damage_defense: i64 = 0;
    let mut no_of_robots_got_killed: i64 = 0;
    let mut i: usize = 0;
    while i < nd
        invariant
            i <= nd,
            nd == defense_game@.len() <= i32::MAX,
            total_damage_defense == sum_damage(defense_game@.take(i as int)),
            no_of_robots_got_killed == sum_robots(defense_game@.take(i as int)),
            (i as int) * (i32::MIN as int) <= total_damage_defense <= (i as int) * (
            i32::MAX as int),
            (i as int) * (i32::MIN as int) <= no_of_robots_got_killed <= (i as int) * (
            i32::MAX as int),
        decreases nd - i,
    {
        let g = defense_game[i];
        proof {
            assert(defense_game@.take(i as int + 1).drop_last() =~= defense_game@.take(i as int));
            assert(defense_game@.take(i as int + 1).last() == defense_game@[i as int]);
        }
        total_damage_defense = total_damage_defense + g.damage_done as i64;
        no_of_robots_got_killed = no_of_robots_got_killed + g.robots_destroyed as i64;
        i += 1;
    }
    assert(defense_game@.take(nd as int) =~= defense_game@);

    let mut position_in_leaderboard: i32 = 0;
    let mut i: usize = 0;
    while i < nu
        invariant
            i <= nu,
            nu == users@.len() <= i32::MAX,
            position_in_leaderboard == leaderboard_rank(users@.take(i as int), user.id),
            0 <= position_in_leaderboard <= i,
        decreases nu - i,
    {
        proof {
            assert(users@.take(i as int + 1).drop_last() =~= users@.take(i as int));
            assert(users@.take(i as int + 1).last() == users@[i as int]);
        }
        if position_in_leaderboard == 0 && users[i].id == user.id {
            position_in_leaderboard = (i as i32) + 1;
        }
        i += 1;
    }
    assert(users@.take(nu as int) =~= users@);

    StatsResponse {
        highest_attack_score,
        highest_defense_score,
        rating: user.overall_rating,
        highest_rating: user.highest_rating,
        position_in_leaderboard,
        no_of_robots_killed: no_of_robots_killed as i32,
        no_of_robots_got_killed: no_of_robots_got_killed as i32,
        no_of_emps_used: no_of_emps_used as i32,
        total_damage_defense: total_damage_defense as i32,
        total_damage_attack: total_damage_attack as i32,
        no_of_attackers_suicided,
        no_of_attacks: na as i32,
        no_of_defenses: nd as i32,
    }
}

/// Law: on a non-empty match list, [`max_attack_score`] is the maximum of
/// the `attack_score` column: some match attains it and none exceeds it.
pub proof fn lemma_max_attack_score_is_maximum(s: Seq<Game>)
    requires
        s.len() > 0,
    ensures
        exists|i: int| 0 <= i < s.len() && s[i].attack_score == max_attack_score(s),
        forall|i: int| 0 <= i < s.len() ==> s[i].attack_score <= max_attack_score(s),
    decreases s.len(),
{
    if s.len() == 1 {
        assert(s[0].attack_score == max_attack_score(s));
    } else {
        lemma_max_attack_score_is_maximum(s.drop_last());
        assert(forall|j: int| 0 <= j < s.drop_last().len() ==> s.drop_last()[j] == s[j]);
        if s.last().attack_score >= max_attack_score(s.drop_last()) {
            assert(s[s.len() - 1].attack_score == max_attack_score(s));
        } else {
            let w = choose|i: int|
                0 <= i < s.drop_last().len() && s.drop_last()[i].attack_score
                    == max_attack_score(s.drop_last());
            assert(s[w].attack_score == max_attack_score(s));
        }
    }
}

/// Law: on a non-empty match list, [`max_defend_score`] is the maximum of
/// the `defend_score` column: some match attains it and none exceeds it.
pub proof fn lemma_max_defend_score_is_maximum(s: Seq<Game>)
    requires
        s.len() > 0,
    ensures
        exists|i: int| 0 <= i < s.len() && s[i].defend_score == max_defend_score(s),
        forall|i: int| 0 <= i < s.len() ==> s[i].defend_score <= max_defend_score(s),
    decreases s.len(),
{
    if s.len() == 1 {
        assert(s[0].defend_score == max_defend_score(s));
    } else {
        lemma_max_defend_score_is_maximum(s.drop_last());
        assert(forall|j: int| 0 <= j < s.drop_last().len() ==> s.drop_last()[j] == s[j]);
        if s.last().defend_score >= max_defend_score(s.drop_last()) {
            assert(s[s.len() - 1].defend_score == max_defend_score(s));
        } else {
            let w = choose|i: int|
                0 <= i < s.drop_last().len() && s.drop_last()[i].defend_score
                    == max_defend_score(s.drop_last());
            assert(s[w].defend_score == max_defend_score(s));
        }
    }
}

/// Law: when `uid` occurs nowhere in the leaderboard, the rank is the
/// "unranked" sentinel 0.
pub proof fn lemma_rank_absent(users: Seq<User>, uid: i32)
    requires
        forall|j: int| 0 <= j < users.len() ==> users[j].id != uid,
    ensures
        leaderboard_rank(users, uid) == 0,
    decreases users.len(),
{
    if users.len() > 0 {
        assert(forall|j: int|
            0 <= j < users.drop_last().len() ==> users.drop_last()[j] == users[j]);
        lemma_rank_absent(users.drop_last(), uid);
    }
}

/// Law: when `uid` first occurs at zero-based index `i`, the rank is the
/// one-based position `i + 1`.
pub proof fn lemma_rank_found(users: Seq<User>, uid: i32, i: int)
    requires
        0 <= i < users.len(),
        users[i].id == uid,
        forall|j: int| 0 <= j < i ==> users[j].id != uid,
    ensures
        leaderboard_rank(users, uid) == i + 1,
    decreases users.len(),
{
    assert(forall|j: int|
        0 <= j < users.drop_last().len() ==> users.drop_last()[j] == users[j]);
    if i == users.len() - 1 {
        lemma_rank_absent(users.drop_last(), uid);
    } else {
        lemma_rank_found(users.drop_last(), uid, i);
    }
}

/// Law: an empty attack history leaves every attack-side field zero, and an
/// empty defense history every defense-side field.
pub proof fn lemma_empty_history_zero(
    user: User,
    attack_games: Seq<Game>,
    defense_games: Seq<Game>,
    users: Seq<User>,
    r: StatsResponse,
)
    requires
        stats_of(user, attack_games, defense_games, users, r),
    ensures
        attack_games.len() == 0 ==> r.highest_attack_score == 0 && r.total_damage_attack == 0
            && r.no_of_robots_killed == 0 && r.no_of_emps_used == 0
            && r.no_of_attackers_suicided == 0 && r.no_of_attacks == 0,
        defense_games.len() == 0 ==> r.highest_defense_score == 0 && r.total_damage_defense == 0
            && r.no_of_robots_got_killed == 0 && r.no_of_defenses == 0,
        users.len() == 0 ==> r.position_in_leaderboard == 0,
{
}

proof fn lemma_sum_damage_is_fold(s: Seq<Game>)
    ensures
        sum_damage(s) == s.fold_right(|g: Game, v: int| g.damage_done + v, 0int),
    decreases s.len(),
{
    let f = |g: Game, v: int| g.damage_done + v;
    if s.len() > 0 {
        lemma_sum_damage_is_fold(s.drop_last());
        assert(vstd::seq_lib::commutative_foldr(f));
        s.drop_last().lemma_fold_right_commute_one(s.last(), f, 0int);
    }
}

proof fn lemma_sum_robots_is_fold(s: Seq<Game>)
    ensures
        sum_robots(s) == s.fold_right(|g: Game, v: int| g.robots_destroyed + v, 0int),
    decreases s.len(),
{
    let f = |g: Game, v: int| g.robots_destroyed + v;
    if s.len() > 0 {
        lemma_sum_robots_is_fold(s.drop_last());
        assert(vstd::seq_lib::commutative_foldr(f));
        s.drop_last().lemma_fold_right_commute_one(s.last(), f, 0int);
    }
}

proof fn lemma_sum_emps_is_fold(s: Seq<Game>)
    ensures
        sum_emps(s) == s.fold_right(|g: Game, v: int| g.emps_used + v, 0int),
    decreases s.len(),
{
    let f = |g: Game, v: int| g.emps_used + v;
    if s.len() > 0 {
        lemma_sum_emps_is_fold(s.drop_last());
        assert(vstd::seq_lib::commutative_foldr(f));
        s.drop_last().lemma_fold_right_commute_one(s.last(), f, 0int);
    }
}

proof fn lemma_count_suicides_is_fold(s: Seq<Game>)
    ensures
        count_suicides(s) == s.fold_right(
            |g: Game, v: int| (if g.is_attacker_alive { 0int } else { 1int }) + v,
            0int,
        ),
    decreases s.len(),
{
    let f = |g: Game, v: int| (if g.is_attacker_alive { 0int } else { 1int }) + v;
    if s.len() > 0 {
        lemma_count_suicides_is_fold(s.drop_last());
        assert(vstd::seq_lib::commutative_foldr(f));
        s.drop_last().lemma_fold_right_commute_one(s.last(), f, 0int);
    }
}

proof fn lemma_max_attack_is_fold(s: Seq<Game>)
    requires
        s.len() > 0,
    ensures
        max_attack_score(s) == s.fold_right(
            |g: Game, v: int| if g.attack_score >= v { g.attack_score as int } else { v },
            i32::MIN - 1,
        ),
    decreases s.len(),
{
    let f = |g: Game, v: int| if g.attack_score >= v { g.attack_score as int } else { v };
    assert(vstd::seq_lib::commutative_foldr(f));
    assert(s.fold_right(f, i32::MIN - 1) == s.drop_last().fold_right(f, f(s.last(), i32::MIN - 1)));
    if s.len() == 1 {
        assert(s.drop_last() =~= Seq::<Game>::empty());
        assert(s.last() == s[0]);
        assert(s.drop_last().fold_right(f, f(s.last(), i32::MIN - 1)) == f(s[0], i32::MIN - 1));
        assert(f(s[0], i32::MIN - 1) == s[0].attack_score as int);
        assert(max_attack_score(s) == s[0].attack_score as int);
    } else {
        lemma_max_attack_is_fold(s.drop_last());
        s.drop_last().lemma_fold_right_commute_one(s.last(), f, i32::MIN - 1);
        assert(s.drop_last().fold_right(f, f(s.last(), i32::MIN - 1)) == f(
            s.last(),
            s.drop_last().fold_right(f, i32::MIN - 1),
        ));
        assert(f(s.last(), s.drop_last().fold_right(f, i32::MIN - 1)) == max_attack_score(s));
    }
}

proof fn lemma_max_defend_is_fold(s: Seq<Game>)
    requires
        s.len() > 0,
    ensures
        max_defend_score(s) == s.fold_right(
            |g: Game, v: int| if g.defend_score >= v { g.defend_score as int } else { v },
            i32::MIN - 1,
        ),
    decreases s.len(),
{
    let f = |g: Game, v: int| if g.defend_score >= v { g.defend_score as int } else { v };
    assert(vstd::seq_lib::commutative_foldr(f));
    assert(s.fold_right(f, i32::MIN - 1) == s.drop_last().fold_right(f, f(s.last(), i32::MIN - 1)));
    if s.len() == 1 {
        assert(s.drop_last() =~= Seq::<Game>::empty());
        assert(s.last() == s[0]);
        assert(s.drop_last().fold_right(f, f(s.last(), i32::MIN - 1)) == f(s[0], i32::MIN - 1));
        assert(f(s[0], i32::MIN - 1) == s[0].defend_score as int);
        assert(max_defend_score(s) == s[0].defend_score as int);
    } else {
        lemma_max_defend_is_fold(s.drop_last());
        s.drop_last().lemma_fold_right_commute_one(s.last(), f, i32::MIN - 1);
        assert(s.drop_last().fold_right(f, f(s.last(), i32::MIN - 1)) == f(
            s.last(),
            s.drop_last().fold_right(f, i32::MIN - 1),
        ));
        assert(f(s.last(), s.drop_last().fold_right(f, i32::MIN - 1)) == max_defend_score(s));
    }
}

/// Law: every aggregate drawn from a match list — the maxima, the sums and
/// the suicide count — depends only on which matches occur, not on their
/// order. Two lists with the same multiset of matches agree on all of them.
pub proof fn lemma_aggregates_reorder_invariant(s1: Seq<Game>, s2: Seq<Game>)
    requires
        s1.to_multiset() == s2.to_multiset(),
    ensures
        sum_damage(s1) == sum_damage(s2),
        sum_robots(s1) == sum_robots(s2),
        sum_emps(s1) == sum_emps(s2),
        count_suicides(s1) == count_suicides(s2),
        max_attack_score(s1) == max_attack_score(s2),
        max_defend_score(s1) == max_defend_score(s2),
{
    broadcast use vstd::seq_lib::group_to_multiset_ensures;

    assert(s1.len() == s1.to_multiset().len());
    assert(s2.len() == s2.to_multiset().len());
    assert(s1.len() == s2.len());
    let fd = |g: Game, v: int| g.damage_done + v;
    let fr = |g: Game, v: int| g.robots_destroyed + v;
    let fe = |g: Game, v: int| g.emps_used + v;
    let fs = |g: Game, v: int| (if g.is_attacker_alive { 0int } else { 1int }) + v;
    let fa = |g: Game, v: int| if g.attack_score >= v { g.attack_score as int } else { v };
    let fv = |g: Game, v: int| if g.defend_score >= v { g.defend_score as int } else { v };
    assert(vstd::seq_lib::commutative_foldr(fd));
    assert(vstd::seq_lib::commutative_foldr(fr));
    assert(vstd::seq_lib::commutative_foldr(fe));
    assert(vstd::seq_lib::commutative_foldr(fs));
    assert(vstd::seq_lib::commutative_foldr(fa));
    assert(vstd::seq_lib::commutative_foldr(fv));
    lemma_sum_damage_is_fold(s1);
    lemma_sum_damage_is_fold(s2);
    vstd::seq_lib::lemma_fold_right_permutation(s1, s2, fd, 0int);
    lemma_sum_robots_is_fold(s1);
    lemma_sum_robots_is_fold(s2);
    vstd::seq_lib::lemma_fold_right_permutation(s1, s2, fr, 0int);
    lemma_sum_emps_is_fold(s1);
    lemma_sum_emps_is_fold(s2);
    vstd::seq_lib::lemma_fold_right_permutation(s1, s2, fe, 0int);
    lemma_count_suicides_is_fold(s1);
    lemma_count_suicides_is_fold(s2);
    vstd::seq_lib::lemma_fold_right_permutation(s1, s2, fs, 0int);
    if s1.len() > 0 {
        lemma_max_attack_is_fold(s1);
        lemma_max_attack_is_fold(s2);
        vstd::seq_lib::lemma_fold_right_permutation(s1, s2, fa, i32::MIN - 1);
        lemma_max_defend_is_fold(s1);
        lemma_max_defend_is_fold(s2);
        vstd::seq_lib::lemma_fold_right_permutation(s1, s2, fv, i32::MIN - 1);
    }
}

/// Law: the aggregate is a pure function of its inputs. Any two summaries
/// that satisfy [`stats_of`] for the same inputs are equal, so repeating the
/// computation on identical inputs yields an identical result.
pub proof fn lemma_response_deterministic(
    user: User,
    attack_games: Seq<Game>,
    defense_games: Seq<Game>,
    users: Seq<User>,
    r1: StatsResponse,
    r2: StatsResponse,
)
    requires
        stats_of(user, attack_games, defense_games, users, r1),
        stats_of(user, attack_games, defense_games, users, r2),
    ensures
        r1 == r2,
{
}

} // verus!

