use player_stats::models::{Game, StatsResponse, User};
use player_stats::stats::make_response;

fn attack_match(
    attacker: i32,
    defender: i32,
    attack_score: i32,
    damage_done: i32,
    robots_destroyed: i32,
    emps_used: i32,
    is_attacker_alive: bool,
) -> Game {
    Game {
        attack_id: attacker,
        defend_id: defender,
        attack_score,
        defend_score: 0,
        damage_done,
        robots_destroyed,
        emps_used,
        is_attacker_alive,
    }
}

fn defense_match(
    attacker: i32,
    defender: i32,
    defend_score: i32,
    damage_done: i32,
    robots_destroyed: i32,
) -> Game {
    Game {
        attack_id: attacker,
        defend_id: defender,
        attack_score: 0,
        defend_score,
        damage_done,
        robots_destroyed,
        emps_used: 0,
        is_attacker_alive: true,
    }
}

fn player(id: i32, overall_rating: i32, highest_rating: i32) -> User {
    User { id, overall_rating, highest_rating }
}

#[test]
fn single_attack_match_scenario() {
    let user = player(1, 1500, 1500);
    let attack = vec![attack_match(1, 2, 50, 10, 2, 1, true)];
    let defense: Vec<Game> = vec![];
    let leaderboard = vec![user];
    let r = make_response(&user, &attack, &defense, &leaderboard);
    assert_eq!(r.highest_attack_score, 50);
    assert_eq!(r.total_damage_attack, 10);
    assert_eq!(r.no_of_robots_killed, 2);
    assert_eq!(r.no_of_emps_used, 1);
    assert_eq!(r.no_of_attackers_suicided, 0);
    assert_eq!(r.no_of_attacks, 1);
    assert_eq!(r.no_of_defenses, 0);
    assert_eq!(r.position_in_leaderboard, 1);
    assert_eq!(r.rating, 1500);
    assert_eq!(r.highest_rating, 1500);
}

#[test]
fn one_suicide_in_two_attacks() {
    let user = player(7, 1200, 1300);
    let attack = vec![
        attack_match(7, 2, 40, 5, 1, 0, true),
        attack_match(7, 3, 30, 8, 0, 2, false),
    ];
    let defense: Vec<Game> = vec![];
    let leaderboard = vec![user];
    let r = make_response(&user, &attack, &defense, &leaderboard);
    assert_eq!(r.no_of_attackers_suicided, 1);
    assert_eq!(r.no_of_attacks, 2);
    assert_eq!(r.highest_attack_score, 40);
    assert_eq!(r.total_damage_attack, 13);
    assert_eq!(r.no_of_emps_used, 2);
}

#[test]
fn empty_leaderboard_means_unranked() {
    let user = player(5, 900, 1000);
    let attack: Vec<Game> = vec![];
    let defense: Vec<Game> = vec![];
    let leaderboard: Vec<User> = vec![];
    let r = make_response(&user, &attack, &defense, &leaderboard);
    assert_eq!(r.position_in_leaderboard, 0);
}

#[test]
fn empty_histories_leave_all_aggregates_zero() {
    let user = player(3, 1100, 1250);
    let attack: Vec<Game> = vec![];
    let defense: Vec<Game> = vec![];
    let leaderboard = vec![player(9, 2000, 2000), player(3, 1100, 1250)];
    let r = make_response(&user, &attack, &defense, &leaderboard);
    assert_eq!(r.highest_attack_score, 0);
    assert_eq!(r.highest_defense_score, 0);
    assert_eq!(r.total_damage_attack, 0);
    assert_eq!(r.total_damage_defense, 0);
    assert_eq!(r.no_of_robots_killed, 0);
    assert_eq!(r.no_of_robots_got_killed, 0);
    assert_eq!(r.no_of_emps_used, 0);
    assert_eq!(r.no_of_attackers_suicided, 0);
    assert_eq!(r.no_of_attacks, 0);
    assert_eq!(r.no_of_defenses, 0);
    assert_eq!(r.rating, 1100);
    assert_eq!(r.highest_rating, 1250);
    assert_eq!(r.position_in_leaderboard, 2);
}

#[test]
fn counts_equal_list_lengths() {
    let user = player(2, 1000, 1000);
    let attack = vec![
        attack_match(2, 4, 10, 1, 0, 0, true),
        attack_match(2, 5, 20, 2, 1, 1, true),
        attack_match(2, 6, 30, 3, 0, 0, false),
    ];
    let defense = vec![
        defense_match(4, 2, 15, 6, 2),
        defense_match(5, 2, 25, 7, 3),
    ];
    let leaderboard = vec![player(4, 1800, 1900), player(2, 1000, 1000)];
    let r = make_response(&user, &attack, &defense, &leaderboard);
    assert_eq!(r.no_of_attacks, 3);
    assert_eq!(r.no_of_defenses, 2);
}

#[test]
fn aggregates_ignore_input_order() {
    let user = player(1, 1500, 1600);
    let a = attack_match(1, 2, 10, 4, 1, 0, true);
    let b = attack_match(1, 3, 90, 6, 2, 3, false);
    let c = attack_match(1, 4, 50, 5, 0, 1, true);
    let d1 = defense_match(2, 1, 70, 12, 4);
    let d2 = defense_match(3, 1, 20, 3, 1);
    let leaderboard = vec![player(9, 1700, 1700), player(1, 1500, 1600)];

    let r1 = make_response(&user, &vec![a, b, c], &vec![d1, d2], &leaderboard);
    let r2 = make_response(&user, &vec![c, a, b], &vec![d2, d1], &leaderboard);
    assert_eq!(r1, r2);
    assert_eq!(r1.highest_attack_score, 90);
    assert_eq!(r1.highest_defense_score, 70);
    assert_eq!(r1.total_damage_attack, 15);
    assert_eq!(r1.total_damage_defense, 15);
    assert_eq!(r1.no_of_robots_killed, 3);
    assert_eq!(r1.no_of_robots_got_killed, 5);
}

#[test]
fn highest_score_is_max_not_first_element() {
    let user = player(1, 1000, 1000);
    let attack = vec![
        attack_match(1, 2, 30, 0, 0, 0, true),
        attack_match(1, 3, 80, 0, 0, 0, true),
        attack_match(1, 4, 55, 0, 0, 0, true),
    ];
    let defense = vec![
        defense_match(2, 1, 5, 0, 0),
        defense_match(3, 1, 45, 0, 0),
    ];
    let r = make_response(&user, &attack, &defense, &vec![user]);
    assert_eq!(r.highest_attack_score, 80);
    assert_eq!(r.highest_defense_score, 45);
}

#[test]
fn negative_scores_and_damage() {
    let user = player(1, -5, 0);
    let attack = vec![
        attack_match(1, 2, -30, -4, 0, 0, true),
        attack_match(1, 3, -10, 9, 0, 0, true),
    ];
    let defense: Vec<Game> = vec![];
    let r = make_response(&user, &attack, &defense, &vec![user]);
    assert_eq!(r.highest_attack_score, -10);
    assert_eq!(r.total_damage_attack, 5);
}

#[test]
fn rank_is_one_based_index_in_leaderboard() {
    let target = player(42, 1400, 1450);
    let leaderboard = vec![
        player(1, 2000, 2100),
        player(2, 1800, 1850),
        player(42, 1400, 1450),
        player(3, 1200, 1600),
    ];
    let none: Vec<Game> = vec![];
    let r = make_response(&target, &none, &none, &leaderboard);
    assert_eq!(r.position_in_leaderboard, 3);
}

#[test]
fn absent_user_is_unranked() {
    let target = player(42, 1400, 1450);
    let leaderboard = vec![player(1, 2000, 2100), player(2, 1800, 1850)];
    let none: Vec<Game> = vec![];
    let r = make_response(&target, &none, &none, &leaderboard);
    assert_eq!(r.position_in_leaderboard, 0);
}

#[test]
fn rank_uses_first_matching_entry() {
    let target = player(8, 1000, 1000);
    let leaderboard = vec![
        player(9, 1500, 1500),
        player(8, 1000, 1000),
        player(8, 1000, 1000),
    ];
    let none: Vec<Game> = vec![];
    let r = make_response(&target, &none, &none, &leaderboard);
    assert_eq!(r.position_in_leaderboard, 2);
}

#[test]
fn identical_inputs_give_identical_output() {
    let user = player(6, 1234, 1300);
    let attack = vec![
        attack_match(6, 1, 11, 2, 1, 0, false),
        attack_match(6, 2, 7, 3, 0, 2, true),
    ];
    let defense = vec![defense_match(1, 6, 9, 4, 1)];
    let leaderboard = vec![player(1, 1500, 1500), player(6, 1234, 1300)];
    let r1 = make_response(&user, &attack, &defense, &leaderboard);
    let r2 = make_response(&user, &attack, &defense, &leaderboard);
    assert_eq!(r1, r2);
}

#[test]
fn response_copies_both_ratings() {
    let user = player(11, 1332, 2417);
    let none: Vec<Game> = vec![];
    let board: Vec<User> = vec![];
    let r: StatsResponse = make_response(&user, &none, &none, &board);
    assert_eq!(r.rating, 1332);
    assert_eq!(r.highest_rating, 2417);
}
