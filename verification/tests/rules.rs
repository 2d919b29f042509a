use matchscore::action::{
    AIAction, ActionData, HAReturn, GOAL_CHAIN_TIME, HA_LOOKBACK_MAX, REPEAT_TACKLE_MINTIME,
    SELF_PASS_MINTIME,
};
use matchscore::engine::ActionsInfo;
use matchscore::entities::{
    is_xplayerid, SIDE_L, SIDE_R, XPLAYERID_OOPS_OTHERSIDE_START, XPLAYERID_UNKNOWN,
};
use matchscore::score::SCORE_POINT;

const P: i128 = SCORE_POINT as i128;

fn ev(time: usize, side: char, id: &str, action: AIAction) -> ActionData {
    ActionData::new(time, side, id.to_string(), (100_000, 200_000), action)
}

fn engine() -> ActionsInfo {
    ActionsInfo::new(&vec!["1", "2", "3"], &vec!["1", "2", "3"])
}

fn feed(info: &mut ActionsInfo, e: ActionData) {
    assert!(info.accepts(&e));
    info.handle_action(e);
}

fn run(events: Vec<ActionData>) -> ActionsInfo {
    let mut info = engine();
    for e in events {
        feed(&mut info, e);
    }
    info
}

fn pscore(info: &ActionsInfo, side: char, id: &str) -> i128 {
    info.teams().get_player(side, id).score().pscore()
}

fn all_scores(info: &ActionsInfo) -> Vec<i128> {
    let mut v = info.player_scores(SIDE_L, true);
    v.extend(info.player_scores(SIDE_R, true));
    v
}

#[test]
fn first_kick_is_kept_without_credit() {
    let info = run(vec![ev(0, SIDE_L, "1", AIAction::Kick)]);
    assert_eq!(info.actions().len(), 1);
    assert_eq!(info.rawactions().len(), 1);
    assert_eq!(all_scores(&info), vec![0; 6]);
    assert_eq!(info.teams().get_player(SIDE_L, "1").score().kicks(), 1);
}

#[test]
fn first_tackle_catch_or_goal_is_not_kept() {
    for kind in [AIAction::Tackle, AIAction::Catch, AIAction::Goal] {
        let info = run(vec![ev(7, SIDE_R, "2", kind)]);
        assert_eq!(info.actions().len(), 0);
        assert_eq!(info.rawactions().len(), 1);
        assert_eq!(all_scores(&info), vec![0; 6]);
    }
}

#[test]
fn movement_is_never_entered() {
    let mut info = run(vec![ev(0, SIDE_L, "1", AIAction::NoAction)]);
    assert_eq!(info.actions().len(), 0);
    assert_eq!(info.rawactions().len(), 0);
    feed(&mut info, ev(1, SIDE_L, "1", AIAction::Kick));
    feed(&mut info, ev(2, SIDE_L, "2", AIAction::NoAction));
    assert_eq!(info.actions().len(), 1);
    assert_eq!(info.rawactions().len(), 1);
    assert_eq!(all_scores(&info), vec![0; 6]);
    assert_eq!(info.teams().get_player(SIDE_L, "2").pos(), (100_000, 200_000));
    assert_eq!(info.teams().balltimes(), (0, 0));
}

#[test]
fn pass_to_a_team_mate_credits_both() {
    let info = run(vec![ev(0, SIDE_L, "1", AIAction::Kick), ev(3, SIDE_L, "2", AIAction::Kick)]);
    assert_eq!(pscore(&info, SIDE_L, "1"), P * 3 / 10);
    assert_eq!(pscore(&info, SIDE_L, "2"), P * 3 / 10);
    assert_eq!(info.actions().len(), 2);
}

#[test]
fn pass_to_oneself_is_worth_a_twentieth() {
    let info = run(vec![
        ev(0, SIDE_L, "1", AIAction::Kick),
        ev(SELF_PASS_MINTIME, SIDE_L, "1", AIAction::Kick),
    ]);
    let deltas = info.teams().get_player(SIDE_L, "1").score().vtimepscore_deltas().clone();
    assert_eq!(deltas, vec![(10, SCORE_POINT * 15 / 1000), (10, SCORE_POINT * 15 / 1000)]);
    assert_eq!(pscore(&info, SIDE_L, "1"), P * 3 / 100);
    assert_eq!(info.actions().len(), 2);
}

#[test]
fn kick_repeated_too_soon_changes_no_score() {
    let mut info = run(vec![ev(0, SIDE_L, "1", AIAction::Kick), ev(4, SIDE_L, "2", AIAction::Kick)]);
    let before = all_scores(&info);
    feed(&mut info, ev(4 + SELF_PASS_MINTIME - 1, SIDE_L, "2", AIAction::Kick));
    assert_eq!(all_scores(&info), before);
    assert_eq!(info.actions().len(), 2);
    assert_eq!(info.rawactions().len(), 3);
    assert_eq!(info.teams().get_player(SIDE_L, "2").score().kicks(), 2);
}

#[test]
fn kick_after_a_dropped_kick_is_held_against_the_kept_one() {
    let info = run(vec![
        ev(0, SIDE_L, "1", AIAction::Kick),
        ev(5, SIDE_L, "1", AIAction::Kick),
        ev(12, SIDE_L, "1", AIAction::Kick),
    ]);
    assert_eq!(info.actions().len(), 2);
    assert_eq!(info.actions()[1].time, 12);
    assert_eq!(pscore(&info, SIDE_L, "1"), P * 3 / 100);
}

#[test]
fn kick_after_own_tackle_is_no_pass_to_oneself() {
    let info = run(vec![
        ev(0, SIDE_L, "1", AIAction::Kick),
        ev(1, SIDE_R, "1", AIAction::Tackle),
        ev(2, SIDE_R, "1", AIAction::Kick),
    ]);
    assert_eq!(pscore(&info, SIDE_R, "1"), P * 24 / 100 + P * 3 / 10 + P * 3 / 10);
}

#[test]
fn ball_lost_to_the_other_side_costs_the_kicker() {
    let info = run(vec![ev(0, SIDE_L, "1", AIAction::Kick), ev(3, SIDE_R, "2", AIAction::Kick)]);
    assert_eq!(pscore(&info, SIDE_L, "1"), -(P * 48 / 100));
    assert_eq!(pscore(&info, SIDE_R, "2"), P * 48 / 100);
    assert_eq!(info.teams().balltimes(), (0, 0));
}

#[test]
fn tackle_after_kick_of_own_or_other_side() {
    let own = run(vec![ev(0, SIDE_L, "1", AIAction::Kick), ev(1, SIDE_L, "2", AIAction::Tackle)]);
    assert_eq!(pscore(&own, SIDE_L, "1"), P / 5);
    assert_eq!(pscore(&own, SIDE_L, "2"), P / 5);
    assert_eq!(own.actions().len(), 2);
    let other = run(vec![ev(0, SIDE_L, "1", AIAction::Kick), ev(1, SIDE_R, "2", AIAction::Tackle)]);
    assert_eq!(pscore(&other, SIDE_L, "1"), -(P * 16 / 100));
    assert_eq!(pscore(&other, SIDE_R, "2"), P * 24 / 100);
}

#[test]
fn tackle_repeated_too_soon_changes_no_score() {
    let mut info =
        run(vec![ev(0, SIDE_L, "1", AIAction::Kick), ev(2, SIDE_R, "3", AIAction::Tackle)]);
    let before = all_scores(&info);
    feed(&mut info, ev(2 + REPEAT_TACKLE_MINTIME - 1, SIDE_R, "3", AIAction::Tackle));
    assert_eq!(all_scores(&info), before);
    assert_eq!(info.actions().len(), 2);
    assert_eq!(info.rawactions().len(), 3);
    assert_eq!(info.teams().get_player(SIDE_R, "3").score().tackles(), 2);
}

#[test]
fn tackle_repeated_late_enough_is_scored() {
    let info = run(vec![
        ev(0, SIDE_L, "1", AIAction::Kick),
        ev(2, SIDE_R, "3", AIAction::Tackle),
        ev(2 + REPEAT_TACKLE_MINTIME, SIDE_R, "3", AIAction::Tackle),
    ]);
    assert_eq!(pscore(&info, SIDE_R, "3"), P * 24 / 100 + P / 5 + P / 5);
    assert_eq!(info.actions().len(), 3);
}

#[test]
fn tackle_by_another_player_is_scored_at_once() {
    let info = run(vec![
        ev(0, SIDE_L, "1", AIAction::Kick),
        ev(2, SIDE_R, "3", AIAction::Tackle),
        ev(3, SIDE_L, "2", AIAction::Tackle),
    ]);
    assert_eq!(pscore(&info, SIDE_R, "3"), P * 24 / 100 - P * 16 / 100);
    assert_eq!(pscore(&info, SIDE_L, "2"), P * 24 / 100);
    assert_eq!(info.actions().len(), 3);
}

#[test]
fn tackle_or_catch_after_catch_or_goal_is_dropped() {
    for second in [AIAction::Tackle, AIAction::Catch] {
        let mut info =
            run(vec![ev(0, SIDE_L, "1", AIAction::Kick), ev(1, SIDE_R, "1", AIAction::Catch)]);
        let before = all_scores(&info);
        feed(&mut info, ev(2, SIDE_L, "2", second));
        assert_eq!(all_scores(&info), before);
        assert_eq!(info.actions().len(), 2);
        assert_eq!(info.rawactions().len(), 3);
    }
    for second in [AIAction::Tackle, AIAction::Catch] {
        let mut info = run(vec![
            ev(0, SIDE_L, "1", AIAction::Kick),
            ev(1, SIDE_L, "2", AIAction::Kick),
            ev(2, SIDE_L, XPLAYERID_UNKNOWN, AIAction::Goal),
        ]);
        assert_eq!(info.actions().len(), 3);
        let before = all_scores(&info);
        feed(&mut info, ev(3, SIDE_R, "2", second));
        assert_eq!(all_scores(&info), before);
        assert_eq!(info.actions().len(), 3);
        assert_eq!(info.rawactions().len(), 4);
    }
}

#[test]
fn catch_after_kick_of_own_or_other_side() {
    let own = run(vec![ev(0, SIDE_L, "1", AIAction::Kick), ev(1, SIDE_L, "2", AIAction::Catch)]);
    assert_eq!(pscore(&own, SIDE_L, "1"), P * 4 / 10);
    assert_eq!(pscore(&own, SIDE_L, "2"), P * 4 / 10);
    let other = run(vec![ev(0, SIDE_L, "1", AIAction::Kick), ev(1, SIDE_R, "2", AIAction::Catch)]);
    assert_eq!(pscore(&other, SIDE_L, "1"), P * 2 / 10);
    assert_eq!(pscore(&other, SIDE_R, "2"), P * 8 / 10);
    assert_eq!(other.teams().get_player(SIDE_R, "2").score().catches(), 1);
}

#[test]
fn kick_after_a_goal_of_the_other_side_is_worth_little() {
    let info = run(vec![
        ev(0, SIDE_L, "1", AIAction::Kick),
        ev(1, SIDE_L, "2", AIAction::Kick),
        ev(2, SIDE_L, XPLAYERID_UNKNOWN, AIAction::Goal),
        ev(9, SIDE_R, "1", AIAction::Kick),
    ]);
    assert_eq!(pscore(&info, SIDE_R, "1"), P * 15 / 1000);
    assert_eq!(info.actions().len(), 4);
}

#[test]
fn kick_after_a_goal_of_its_own_side_is_refused() {
    let info = run(vec![
        ev(0, SIDE_L, "1", AIAction::Kick),
        ev(1, SIDE_L, "2", AIAction::Kick),
        ev(2, SIDE_L, XPLAYERID_UNKNOWN, AIAction::Goal),
    ]);
    assert!(!info.accepts(&ev(9, SIDE_L, "1", AIAction::Kick)));
    assert!(info.accepts(&ev(9, SIDE_R, "1", AIAction::Kick)));
}

#[test]
fn goal_reported_twice_is_dropped_silently() {
    let mut info = run(vec![
        ev(0, SIDE_L, "1", AIAction::Kick),
        ev(1, SIDE_L, "2", AIAction::Kick),
        ev(2, SIDE_L, XPLAYERID_UNKNOWN, AIAction::Goal),
    ]);
    let before = all_scores(&info);
    feed(&mut info, ev(2, SIDE_L, XPLAYERID_UNKNOWN, AIAction::Goal));
    assert_eq!(all_scores(&info), before);
    assert_eq!(info.actions().len(), 3);
    assert_eq!(info.rawactions().len(), 4);
    assert_eq!(info.rawactions()[3].playerid, XPLAYERID_UNKNOWN);
}

#[test]
fn second_goal_without_play_between_is_refused() {
    let info = run(vec![
        ev(0, SIDE_L, "1", AIAction::Kick),
        ev(1, SIDE_L, "2", AIAction::Kick),
        ev(2, SIDE_L, XPLAYERID_UNKNOWN, AIAction::Goal),
    ]);
    assert!(!info.accepts(&ev(3, SIDE_L, XPLAYERID_UNKNOWN, AIAction::Goal)));
    assert!(!info.accepts(&ev(3, SIDE_R, XPLAYERID_UNKNOWN, AIAction::Goal)));
}

#[test]
fn goal_whose_chain_reaches_an_earlier_goal_is_refused() {
    let info = run(vec![
        ev(0, SIDE_L, "1", AIAction::Kick),
        ev(1, SIDE_L, "2", AIAction::Kick),
        ev(2, SIDE_L, XPLAYERID_UNKNOWN, AIAction::Goal),
        ev(3, SIDE_R, "1", AIAction::Kick),
    ]);
    assert!(!info.accepts(&ev(4, SIDE_R, XPLAYERID_UNKNOWN, AIAction::Goal)));
    assert!(info.accepts(&ev(3 + GOAL_CHAIN_TIME + 1, SIDE_R, XPLAYERID_UNKNOWN, AIAction::Goal)));
}

#[test]
fn goal_of_unknown_player_goes_to_the_last_kicker() {
    let info = run(vec![
        ev(0, SIDE_R, "1", AIAction::Kick),
        ev(5, SIDE_R, "3", AIAction::Kick),
        ev(6, SIDE_R, XPLAYERID_UNKNOWN, AIAction::Goal),
    ]);
    assert_eq!(info.rawactions()[2].playerid, "3");
    assert_eq!(info.actions()[2].playerid, "3");
    assert_eq!(pscore(&info, SIDE_R, "3"), P * 3 / 10 + P);
    assert_eq!(pscore(&info, SIDE_R, "1"), P * 3 / 10 + P / 2);
}

#[test]
fn goal_with_a_player_keeps_it() {
    let info = run(vec![
        ev(0, SIDE_R, "1", AIAction::Kick),
        ev(5, SIDE_R, "3", AIAction::Kick),
        ev(6, SIDE_R, "2", AIAction::Goal),
    ]);
    assert_eq!(info.rawactions()[2].playerid, "2");
    assert_eq!(pscore(&info, SIDE_R, "2"), P);
    assert_eq!(pscore(&info, SIDE_R, "3"), P * 3 / 10);
    assert_eq!(pscore(&info, SIDE_R, "1"), P * 3 / 10 + P / 2);
}

#[test]
fn goal_moves_nobody_unless_it_is_the_first_action() {
    let mut info = engine();
    feed(&mut info, ActionData::new(0, SIDE_R, "2".to_string(), (1, 1), AIAction::Goal));
    assert_eq!(info.teams().get_player(SIDE_R, "2").pos(), (1, 1));
    feed(&mut info, ActionData::new(1, SIDE_R, "1".to_string(), (2, 2), AIAction::Kick));
    feed(&mut info, ActionData::new(2, SIDE_R, "2".to_string(), (700, 1), AIAction::Goal));
    assert_eq!(info.teams().get_player(SIDE_R, "2").pos(), (1, 1));
    assert_eq!(info.teams().get_player(SIDE_R, "2").score().dist(), 0);
}

#[test]
fn goal_brought_about_by_the_other_side_costs_its_kicker() {
    let mut info =
        run(vec![ev(0, SIDE_L, "1", AIAction::Kick), ev(5, SIDE_L, "2", AIAction::Kick)]);
    let before = pscore(&info, SIDE_L, "2");
    feed(&mut info, ev(6, SIDE_R, XPLAYERID_UNKNOWN, AIAction::Goal));
    let entered = &info.rawactions()[2];
    assert_eq!(entered.playerid, format!("{}-{}", XPLAYERID_OOPS_OTHERSIDE_START, "2"));
    assert!(is_xplayerid(&entered.playerid));
    assert_eq!(entered.side, SIDE_R);
    assert_eq!(pscore(&info, SIDE_L, "2") - before, -P);
    assert_eq!(pscore(&info, SIDE_L, "1"), P * 3 / 10 - P * 3 / 20);
    assert_eq!(info.player_scores(SIDE_R, true), vec![0, 0, 0]);
    assert_eq!(info.actions().len(), 3);
}

#[test]
fn goal_after_a_missed_catch_costs_the_keeper_half() {
    let mut info =
        run(vec![ev(0, SIDE_L, "1", AIAction::Kick), ev(5, SIDE_R, "1", AIAction::Catch)]);
    let before = pscore(&info, SIDE_R, "1");
    feed(&mut info, ev(6, SIDE_L, "3", AIAction::Goal));
    assert_eq!(info.rawactions()[2].playerid, format!("{}-3", XPLAYERID_OOPS_OTHERSIDE_START));
    assert_eq!(pscore(&info, SIDE_R, "1") - before, -(P / 2));
    assert_eq!(pscore(&info, SIDE_L, "1"), P * 2 / 10 + P / 2);
    assert_eq!(pscore(&info, SIDE_L, "3"), 0);
}

#[test]
fn goal_chain_ends_behind_an_action_that_lies_too_far_back() {
    let info = run(vec![
        ev(0, SIDE_L, "3", AIAction::Kick),
        ev(20, SIDE_L, "1", AIAction::Kick),
        ev(50, SIDE_L, "2", AIAction::Kick),
        ev(51, SIDE_L, XPLAYERID_UNKNOWN, AIAction::Goal),
    ]);
    assert_eq!(pscore(&info, SIDE_L, "2"), P * 3 / 10 + P);
    assert_eq!(pscore(&info, SIDE_L, "1"), P * 3 / 10 + P * 3 / 10 + P / 2);
    assert_eq!(pscore(&info, SIDE_L, "3"), P * 3 / 10);
    assert_eq!(info.actions().len(), 4);
}

#[test]
fn goal_chain_ends_at_once_behind_a_far_last_action() {
    let info = run(vec![
        ev(0, SIDE_L, "3", AIAction::Kick),
        ev(1, SIDE_L, "1", AIAction::Kick),
        ev(1 + GOAL_CHAIN_TIME + 1, SIDE_L, XPLAYERID_UNKNOWN, AIAction::Goal),
    ]);
    assert_eq!(pscore(&info, SIDE_L, "1"), P * 3 / 10 + P);
    assert_eq!(pscore(&info, SIDE_L, "3"), P * 3 / 10);
    assert_eq!(info.actions().len(), 3);
}

#[test]
fn goal_after_a_single_action_is_credited_but_not_kept() {
    let info = run(vec![
        ev(0, SIDE_L, "3", AIAction::Kick),
        ev(1, SIDE_L, XPLAYERID_UNKNOWN, AIAction::Goal),
    ]);
    assert_eq!(pscore(&info, SIDE_L, "3"), P);
    assert_eq!(info.actions().len(), 1);
    assert_eq!(info.rawactions().len(), 2);
    assert_eq!(info.rawactions()[1].playerid, "3");
}

#[test]
fn goal_chain_goes_back_no_further_than_the_limit() {
    let mut info = engine();
    let kicks = HA_LOOKBACK_MAX + 5;
    for i in 0..kicks {
        let id = if i % 2 == 0 { "1" } else { "2" };
        feed(&mut info, ev(0, SIDE_L, id, AIAction::Kick));
    }
    let before1 = pscore(&info, SIDE_L, "1");
    let before2 = pscore(&info, SIDE_L, "2");
    feed(&mut info, ev(0, SIDE_L, "3", AIAction::Goal));
    let mut want1: i128 = 0;
    let mut want2: i128 = 0;
    for k in 2..=HA_LOOKBACK_MAX {
        let i = kicks - k;
        if i % 2 == 0 {
            want1 += P / k as i128;
        } else {
            want2 += P / k as i128;
        }
    }
    assert_eq!(pscore(&info, SIDE_L, "3"), P);
    assert_eq!(pscore(&info, SIDE_L, "1") - before1, want1);
    assert_eq!(pscore(&info, SIDE_L, "2") - before2, want2);
    let deltas = info.teams().get_player(SIDE_L, "1").score().vtimepscore_deltas().len()
        + info.teams().get_player(SIDE_L, "2").score().vtimepscore_deltas().len();
    assert_eq!(deltas, 2 * (kicks - 1) + HA_LOOKBACK_MAX - 1);
}

#[test]
fn every_share_of_a_goal_chain_is_exact() {
    for k in 1..=HA_LOOKBACK_MAX {
        assert_eq!(matchscore::action::goal_chain_share(k) * k as i64, SCORE_POINT);
        assert_eq!(
            matchscore::action::goal_chain_otherside_share(k) * k as i64 * 10,
            -3 * SCORE_POINT
        );
    }
}

#[test]
fn action_out_of_time_order_is_refused() {
    let info = run(vec![ev(10, SIDE_L, "1", AIAction::Kick)]);
    assert!(!info.accepts(&ev(9, SIDE_L, "2", AIAction::Kick)));
    assert!(info.accepts(&ev(10, SIDE_L, "2", AIAction::Kick)));
    assert!(info.accepts(&ev(9, SIDE_L, "2", AIAction::NoAction)));
}

#[test]
fn unknown_player_or_side_is_refused() {
    let info = engine();
    assert!(!info.accepts(&ev(0, SIDE_L, "9", AIAction::Kick)));
    assert!(!info.accepts(&ev(0, SIDE_L, "9", AIAction::NoAction)));
    assert!(!info.accepts(&ev(0, 'x', "1", AIAction::Kick)));
    assert!(info.accepts(&ev(0, SIDE_L, XPLAYERID_UNKNOWN, AIAction::Kick)));
}

#[test]
fn reserved_player_is_entered_but_never_credited() {
    let info = run(vec![
        ev(0, SIDE_L, XPLAYERID_UNKNOWN, AIAction::Kick),
        ev(5, SIDE_L, "2", AIAction::Kick),
    ]);
    assert_eq!(info.actions().len(), 2);
    assert_eq!(info.player_scores(SIDE_L, true), vec![0, P * 3 / 10, 0]);
}

#[test]
fn handle_kick_alone_scores_and_tells_whether_to_keep() {
    let mut info = engine();
    let prev = ev(0, SIDE_L, "1", AIAction::Kick);
    let mut cur = ev(3, SIDE_L, "1", AIAction::Kick);
    assert_eq!(info.handle_kick(&mut cur, &prev), HAReturn::Done(false));
    assert_eq!(all_scores(&info), vec![0; 6]);
    let mut cur = ev(3, SIDE_R, "1", AIAction::Kick);
    assert_eq!(info.handle_kick(&mut cur, &prev), HAReturn::Done(true));
    assert_eq!(pscore(&info, SIDE_L, "1"), -(P * 48 / 100));
    assert_eq!(pscore(&info, SIDE_R, "1"), P * 48 / 100);
    assert_eq!(info.actions().len(), 0);
    assert_eq!(cur.playerid, "1");
}

#[test]
fn handle_goal_alone_goes_on_or_stops() {
    let mut info = engine();
    let prev = ev(0, SIDE_L, "1", AIAction::Kick);
    let mut cur = ev(3, SIDE_L, XPLAYERID_UNKNOWN, AIAction::Goal);
    assert_eq!(info.handle_goal(&mut cur, &prev, 1), HAReturn::ContinueSearch);
    assert_eq!(cur.playerid, "1");
    assert_eq!(pscore(&info, SIDE_L, "1"), P);
    let far = ev(3 + GOAL_CHAIN_TIME + 1, SIDE_L, "2", AIAction::Goal);
    let mut cur = far.clone();
    assert_eq!(info.handle_goal(&mut cur, &prev, 3), HAReturn::Done(true));
    assert_eq!(pscore(&info, SIDE_L, "1"), P + P / 3);
    let mut cur = ev(3, SIDE_R, "2", AIAction::Goal);
    assert_eq!(info.handle_goal(&mut cur, &prev, 4), HAReturn::Done(true));
    assert_eq!(pscore(&info, SIDE_L, "1"), P + P / 3 - P * 3 / 40);
    assert_eq!(cur.playerid, "2");
}

#[test]
fn handle_tackle_and_catch_alone() {
    let mut info = engine();
    let prev = ev(0, SIDE_L, "1", AIAction::Catch);
    let mut cur = ev(3, SIDE_R, "1", AIAction::Tackle);
    assert_eq!(info.handle_tackle(&mut cur, &prev), HAReturn::Done(false));
    assert_eq!(info.handle_catch(&mut cur, &prev), HAReturn::Done(false));
    let prev = ev(0, SIDE_L, "1", AIAction::Tackle);
    let mut cur = ev(3, SIDE_R, "1", AIAction::Catch);
    assert_eq!(info.handle_catch(&mut cur, &prev), HAReturn::Done(true));
    assert_eq!(pscore(&info, SIDE_L, "1"), P / 5);
    assert_eq!(pscore(&info, SIDE_R, "1"), P * 4 / 5);
}

#[test]
fn find_actiondata_rev_looks_back_as_far_as_told() {
    let mut info = run(vec![
        ev(0, SIDE_L, "1", AIAction::Kick),
        ev(1, SIDE_R, "1", AIAction::Tackle),
        ev(2, SIDE_R, "2", AIAction::Kick),
        ev(3, SIDE_L, "2", AIAction::Catch),
    ]);
    assert_eq!(info.find_actiondata_rev(AIAction::Kick, 0).unwrap().time, 2);
    assert_eq!(info.find_actiondata_rev(AIAction::Tackle, 3).unwrap().time, 1);
    assert!(info.find_actiondata_rev(AIAction::Tackle, 2).is_none());
    assert!(info.find_actiondata_rev(AIAction::Goal, 0).is_none());
    assert_eq!(info.find_actiondata_rev(AIAction::Catch, 1).unwrap().playerid, "2");
    assert_eq!(info.actions().len(), 4);
}
