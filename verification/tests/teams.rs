use matchscore::action::{AIAction, ActionData};
use matchscore::entities::{SIDE_L, SIDE_R, XPLAYERID_UNKNOWN};
use matchscore::geometry::POS_UNSEEN;
use matchscore::playdata::Card;
use matchscore::score::SCORE_POINT;
use matchscore::teams::Teams;

const P: i128 = SCORE_POINT as i128;

fn teams() -> Teams {
    Teams::new(&vec!["1", "2"], &vec!["7"])
}

#[test]
fn new_teams_know_their_rosters_only() {
    let t = teams();
    assert!(t.has_player(SIDE_L, "1"));
    assert!(t.has_player(SIDE_L, "2"));
    assert!(t.has_player(SIDE_R, "7"));
    assert!(!t.has_player(SIDE_R, "1"));
    assert!(!t.has_player(SIDE_L, "7"));
    assert!(t.admits(SIDE_L, XPLAYERID_UNKNOWN));
    assert!(!t.admits(SIDE_L, "7"));
    assert_eq!(t.pids(SIDE_L), &vec!["1".to_string(), "2".to_string()]);
    assert_eq!(t.pids(SIDE_R), &vec!["7".to_string()]);
    assert_eq!(t.balltimes(), (0, 0));
}

#[test]
fn new_player_has_nothing() {
    let t = teams();
    let p = t.get_player(SIDE_R, "7");
    assert_eq!(p.id(), "7");
    assert_eq!(p.pos(), (POS_UNSEEN, POS_UNSEEN));
    assert_eq!(p.score().pscore(), 0);
    assert_eq!(p.score().dist(), 0);
    assert_eq!(p.score().card(), Card::NoCard);
    assert!(p.score().vtimepscore_deltas().is_empty());
    assert!(p.score().vtimepscore_cumul().is_empty());
}

#[test]
fn roster_that_names_a_player_twice_has_the_player_once() {
    let mut t = Teams::new(&vec!["1", "2", "1"], &vec![]);
    assert_eq!(t.pids(SIDE_L).len(), 3);
    t.pscore_update(4, SIDE_L, "1", 10);
    assert_eq!(t.get_player(SIDE_L, "1").score().pscore(), 10);
    assert_eq!(t.score_minmax(true), ((0, 10), (i128::MAX, i128::MIN)));
}

#[test]
fn any_side_but_the_left_is_the_right() {
    let mut t = teams();
    t.pscore_update(4, 'x', "7", 10);
    assert_eq!(t.get_player(SIDE_R, "7").score().pscore(), 10);
}

#[test]
fn pscore_update_changes_one_player() {
    let mut t = teams();
    t.pscore_update(4, SIDE_L, "2", 500);
    t.pscore_update(9, SIDE_L, "2", -700);
    let s = t.get_player(SIDE_L, "2").score();
    assert_eq!(s.pscore(), -200);
    assert_eq!(s.vtimepscore_deltas(), &vec![(4, 500), (9, -700)]);
    assert_eq!(s.vtimepscore_cumul(), &vec![(4, 500), (9, -200)]);
    assert_eq!(s.hist_cumul_maxpscore(), 500);
    assert_eq!(s.hist_cumul_minpscore(), -200);
    assert_eq!(t.get_player(SIDE_L, "1").score().pscore(), 0);
    assert_eq!(t.get_player(SIDE_R, "7").score().pscore(), 0);
}

#[test]
fn reserved_player_changes_nothing() {
    let mut t = teams();
    t.pscore_update(4, SIDE_L, XPLAYERID_UNKNOWN, 500);
    t.card_issued(4, SIDE_L, XPLAYERID_UNKNOWN, Card::Red);
    t.count_increment(SIDE_L, XPLAYERID_UNKNOWN, AIAction::Kick);
    t.dist_update_from_pos(SIDE_L, XPLAYERID_UNKNOWN, (1, 1));
    assert_eq!(t.score_minmax(true), ((0, 0), (0, 0)));
    assert_eq!(t.dist_max(), (0, 0));
    assert_eq!(t.get_player(SIDE_L, "1").score().kicks(), 0);
}

#[test]
fn card_costs_its_price() {
    let mut t = teams();
    t.card_issued(3, SIDE_L, "1", Card::Yellow);
    t.card_issued(8, SIDE_R, "7", Card::Red);
    let y = t.get_player(SIDE_L, "1").score();
    assert_eq!(y.card(), Card::Yellow);
    assert_eq!(y.pscore(), -(P * 3 / 2));
    assert_eq!(y.vtimepscore_deltas(), &vec![(3, -(SCORE_POINT * 3 / 2))]);
    let r = t.get_player(SIDE_R, "7").score();
    assert_eq!(r.card(), Card::Red);
    assert_eq!(r.pscore(), -(P * 3));
    assert_eq!(r.score(true), -(P * 3));
    assert_eq!(r.score(false), 0);
}

#[test]
fn only_the_last_card_is_left_out_of_the_score() {
    let mut t = teams();
    t.pscore_update(1, SIDE_L, "1", SCORE_POINT);
    t.card_issued(3, SIDE_L, "1", Card::Yellow);
    t.card_issued(8, SIDE_L, "1", Card::Red);
    let s = t.get_player(SIDE_L, "1").score();
    assert_eq!(s.score(true), P - P * 3 / 2 - P * 3);
    assert_eq!(s.score(false), P - P * 3 / 2);
}

#[test]
fn count_increment_counts_kicks_tackles_and_catches() {
    let mut t = teams();
    for kind in [
        AIAction::Kick,
        AIAction::Kick,
        AIAction::Tackle,
        AIAction::Catch,
        AIAction::Goal,
        AIAction::NoAction,
    ] {
        t.count_increment(SIDE_R, "7", kind);
    }
    let s = t.get_player(SIDE_R, "7").score();
    assert_eq!((s.kicks(), s.tackles(), s.catches()), (2, 1, 1));
}

#[test]
fn first_sighting_adds_no_distance() {
    let mut t = teams();
    t.dist_update_from_pos(SIDE_L, "1", (300_000, 400_000));
    let p = t.get_player(SIDE_L, "1");
    assert_eq!(p.pos(), (300_000, 400_000));
    assert_eq!(p.score().dist(), 0);
}

#[test]
fn distance_is_the_sum_of_the_legs() {
    let mut t = teams();
    let way = [(0, 0), (300_000, 400_000), (300_000, 400_000), (0, 0), (1, 1), (-2, 5)];
    let mut last = 0;
    for pos in way {
        t.dist_update_from_pos(SIDE_L, "1", pos);
        let d = t.get_player(SIDE_L, "1").score().dist();
        assert!(d >= last);
        last = d;
    }
    assert_eq!(last, 500_000 + 0 + 500_000 + 1 + 5);
    assert_eq!(t.get_player(SIDE_L, "1").pos(), (-2, 5));
    assert_eq!(t.dist_max(), (1_000_006, 0));
    assert_eq!(t.dist_minmax(), ((0, 1_000_006), (0, 0)));
    t.dist_update_from_pos(SIDE_L, "2", (0, 0));
    t.dist_update_from_pos(SIDE_L, "2", (0, 9));
    assert_eq!(t.dist_minmax(), ((9, 1_000_006), (0, 0)));
    assert_eq!(Teams::new(&vec![], &vec!["1"]).dist_minmax(), ((u64::MAX, 0), (0, 0)));
}

#[test]
fn sighting_at_the_unseen_position_starts_the_way_anew() {
    let mut t = teams();
    t.dist_update_from_pos(SIDE_L, "1", (0, 0));
    t.dist_update_from_pos(SIDE_L, "1", (POS_UNSEEN, POS_UNSEEN));
    let d = t.get_player(SIDE_L, "1").score().dist();
    assert_eq!(d, 140_007_142);
    t.dist_update_from_pos(SIDE_L, "1", (0, 0));
    assert_eq!(t.get_player(SIDE_L, "1").score().dist(), d);
}

#[test]
fn ranges_span_the_players_of_each_side() {
    let mut t = teams();
    t.pscore_update(1, SIDE_L, "1", 40);
    t.pscore_update(2, SIDE_L, "1", -90);
    t.pscore_update(3, SIDE_L, "2", 10);
    t.pscore_update(4, SIDE_R, "7", 5);
    assert_eq!(t.score_minmax(true), ((-50, 10), (5, 5)));
    assert_eq!(t.score_hist_cumul_minmax(), ((-50, 40), (5, 5)));
}

#[test]
fn ranges_of_untouched_players_are_open() {
    let t = teams();
    assert_eq!(t.score_minmax(true), ((0, 0), (0, 0)));
    assert_eq!(t.score_hist_cumul_minmax(), ((i128::MAX, i128::MIN), (i128::MAX, i128::MIN)));
    let none = Teams::new(&vec![], &vec![]);
    assert_eq!(none.score_minmax(false), ((i128::MAX, i128::MIN), (i128::MAX, i128::MIN)));
    assert_eq!(none.dist_max(), (0, 0));
}

#[test]
fn score_range_can_leave_the_last_card_out() {
    let mut t = teams();
    t.card_issued(3, SIDE_L, "1", Card::Yellow);
    assert_eq!(t.score_minmax(true), ((-(P * 3 / 2), 0), (0, 0)));
    assert_eq!(t.score_minmax(false), ((0, 0), (0, 0)));
}

#[test]
fn ball_time_goes_to_the_side_that_kept_the_ball() {
    let mut t = teams();
    let a = ActionData::new(10, SIDE_L, "1".to_string(), (0, 0), AIAction::Kick);
    let b = ActionData::new(17, SIDE_L, "2".to_string(), (0, 0), AIAction::Kick);
    let c = ActionData::new(20, SIDE_R, "7".to_string(), (0, 0), AIAction::Kick);
    let d = ActionData::new(31, SIDE_R, "7".to_string(), (0, 0), AIAction::Kick);
    t.balltime_update(&a, &b);
    assert_eq!(t.balltimes(), (7, 0));
    t.balltime_update(&b, &c);
    assert_eq!(t.balltimes(), (7, 0));
    t.balltime_update(&c, &d);
    assert_eq!(t.balltimes(), (7, 11));
}

#[test]
fn statistics_have_room_far_beyond_any_game() {
    let mut t = teams();
    t.dist_update_from_pos(SIDE_L, "1", (i32::MIN, i32::MIN));
    assert!(t.can_move(SIDE_L, "1", (i32::MAX, i32::MAX)));
    t.dist_update_from_pos(SIDE_L, "1", (i32::MAX, i32::MAX));
    assert_eq!(t.get_player(SIDE_L, "1").score().dist(), 6_074_000_998);
    assert!(t.can_move(SIDE_L, "1", (i32::MIN, i32::MIN)));
    assert!(t.can_move(SIDE_L, XPLAYERID_UNKNOWN, (0, 0)));
    for kind in [AIAction::Kick, AIAction::Tackle, AIAction::Catch, AIAction::Goal] {
        assert!(t.can_count(SIDE_R, "7", kind));
        assert!(t.can_count(SIDE_R, XPLAYERID_UNKNOWN, kind));
    }
}

#[test]
fn ball_time_has_room_up_to_the_largest_number() {
    let mut t = teams();
    let a = ActionData::new(0, SIDE_L, "1".to_string(), (0, 0), AIAction::Kick);
    let b = ActionData::new(usize::MAX, SIDE_L, "2".to_string(), (0, 0), AIAction::Kick);
    let c = ActionData::new(usize::MAX, SIDE_R, "7".to_string(), (0, 0), AIAction::Kick);
    let d = ActionData::new(1, SIDE_L, "2".to_string(), (0, 0), AIAction::Kick);
    assert!(t.can_time(&a, &b));
    t.balltime_update(&a, &b);
    assert_eq!(t.balltimes(), (usize::MAX as u64, 0));
    assert!(t.can_time(&a, &a));
    assert!(t.can_time(&a, &c));
    assert!(t.can_time(&c, &c));
    assert_eq!(t.can_time(&a, &d), usize::MAX as u64 != u64::MAX);
    assert_eq!(t.can_time(&a, &b), (usize::MAX as u64) < u64::MAX / 2);
}
