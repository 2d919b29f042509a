use matchscore::action::{AIAction, ActionData};
use matchscore::engine::ActionsInfo;
use matchscore::entities::{SIDE_L, SIDE_R, XPLAYERID_UNKNOWN};
use matchscore::score::SCORE_POINT;

const P: i128 = SCORE_POINT as i128;

fn event(time: usize, side: char, id: &str, action: AIAction) -> ActionData {
    ActionData::new(time, side, id.to_string(), (500_000, 500_000), action)
}

fn feed(info: &mut ActionsInfo, ev: ActionData) {
    assert!(info.accepts(&ev));
    info.handle_action(ev);
}

fn pscore(info: &ActionsInfo, side: char, id: &str) -> i128 {
    info.teams().get_player(side, id).score().pscore()
}

fn played() -> ActionsInfo {
    let mut info = ActionsInfo::new(&vec!["1", "2"], &vec!["1"]);
    feed(&mut info, event(0, SIDE_L, "1", AIAction::Kick));
    feed(&mut info, event(5, SIDE_L, "2", AIAction::Kick));
    feed(&mut info, event(20, SIDE_R, "1", AIAction::Tackle));
    feed(&mut info, event(25, SIDE_R, "1", AIAction::Kick));
    feed(&mut info, event(40, SIDE_R, XPLAYERID_UNKNOWN, AIAction::Goal));
    info
}

#[test]
fn scenario_keeps_all_five_actions() {
    let info = played();
    assert_eq!(info.rawactions().len(), 5);
    assert_eq!(info.actions().len(), 5);
}

#[test]
fn scenario_credits_the_passer() {
    let info = played();
    assert_eq!(pscore(&info, SIDE_L, "1"), P * 30 / 100);
}

#[test]
fn scenario_credits_then_penalises_the_receiver() {
    let info = played();
    let deltas = info.teams().get_player(SIDE_L, "2").score().vtimepscore_deltas().clone();
    assert_eq!(deltas[0], (5, SCORE_POINT * 30 / 100));
    assert_eq!(deltas[1], (20, -(SCORE_POINT * 16 / 100)));
    assert_eq!(deltas[2], (40, -(SCORE_POINT / 10)));
    assert_eq!(deltas.len(), 3);
    assert_eq!(pscore(&info, SIDE_L, "2"), P * 4 / 100);
}

#[test]
fn scenario_credits_tackle_kick_and_goal() {
    let info = played();
    let deltas = info.teams().get_player(SIDE_R, "1").score().vtimepscore_deltas().clone();
    assert_eq!(
        deltas,
        vec![
            (20, SCORE_POINT * 24 / 100),
            (25, SCORE_POINT * 30 / 100),
            (25, SCORE_POINT * 30 / 100),
            (40, SCORE_POINT),
            (40, SCORE_POINT / 2),
        ]
    );
    assert_eq!(pscore(&info, SIDE_R, "1"), P * 234 / 100);
}

#[test]
fn scenario_names_the_scorer() {
    let info = played();
    let goal = &info.rawactions()[4];
    assert_eq!(goal.playerid, "1");
    assert_eq!(goal.side, SIDE_R);
    assert_eq!(goal.action, AIAction::Goal);
    assert_eq!(info.actions()[4].playerid, "1");
}

#[test]
fn scenario_counts_actions() {
    let info = played();
    let r1 = info.teams().get_player(SIDE_R, "1").score();
    assert_eq!((r1.kicks(), r1.tackles(), r1.catches()), (1, 1, 0));
    let l2 = info.teams().get_player(SIDE_L, "2").score();
    assert_eq!((l2.kicks(), l2.tackles(), l2.catches()), (1, 0, 0));
}

#[test]
fn scenario_shares_the_ball() {
    let info = played();
    assert_eq!(info.teams().balltimes(), (5, 20));
    assert_eq!(info.ball_possession(), Some((20, 80)));
}
