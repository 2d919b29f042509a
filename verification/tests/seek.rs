use matchscore::action::{AIAction, ActionData};
use matchscore::engine::ActionsInfo;
use matchscore::entities::{SIDE_L, SIDE_R};
use matchscore::score::SCORE_POINT;

const P: i128 = SCORE_POINT as i128;

fn kick(time: usize, side: char, id: &str) -> ActionData {
    ActionData::new(time, side, id.to_string(), (0, 0), AIAction::Kick)
}

fn played_to_forty() -> ActionsInfo {
    let mut info = ActionsInfo::new(&vec!["1", "2"], &vec!["1", "2"]);
    for (t, side, id) in [
        (0, SIDE_L, "1"),
        (10, SIDE_L, "2"),
        (12, SIDE_L, "2"),
        (20, SIDE_R, "1"),
        (30, SIDE_R, "2"),
        (40, SIDE_L, "1"),
    ] {
        let e = kick(t, side, id);
        assert!(info.accepts(&e));
        info.handle_action(e);
    }
    info
}

fn times(v: &Vec<ActionData>) -> Vec<usize> {
    v.iter().map(|a| a.time).collect()
}

#[test]
fn seek_alone_changes_no_history() {
    let mut info = played_to_forty();
    info.seek(-50);
    assert!(info.seek_pending());
    assert_eq!(times(info.actions()), vec![0, 10, 20, 30, 40]);
    assert_eq!(times(info.rawactions()), vec![0, 10, 12, 20, 30, 40]);
}

#[test]
fn next_action_after_seek_cuts_both_histories() {
    let mut info = played_to_forty();
    info.seek(-50);
    info.seek(-50);
    info.seek(50);
    let e = kick(12, SIDE_R, "2");
    assert!(info.accepts(&e));
    info.handle_action(e);
    assert!(!info.seek_pending());
    assert_eq!(times(info.actions()), vec![0, 10, 12]);
    assert_eq!(times(info.rawactions()), vec![0, 10, 12]);
    assert_eq!(info.rawactions()[2].side, SIDE_R);
    for a in &info.rawactions()[..2] {
        assert!(a.time < 12);
    }
}

#[test]
fn seek_keeps_the_scores_already_given() {
    let mut info = played_to_forty();
    let before = info.teams().get_player(SIDE_L, "1").score().pscore();
    info.seek(-50);
    let e = kick(5, SIDE_L, "2");
    assert!(info.accepts(&e));
    info.handle_action(e);
    assert_eq!(times(info.actions()), vec![0, 5]);
    assert_eq!(info.teams().get_player(SIDE_L, "1").score().pscore(), before + P * 3 / 10);
}

#[test]
fn movement_after_seek_cuts_the_histories_too() {
    let mut info = played_to_forty();
    info.seek(-50);
    let e = ActionData::new(20, SIDE_R, "1".to_string(), (0, 0), AIAction::NoAction);
    assert!(info.accepts(&e));
    info.handle_action(e);
    assert!(!info.seek_pending());
    assert_eq!(times(info.actions()), vec![0, 10]);
    assert_eq!(times(info.rawactions()), vec![0, 10, 12]);
}

#[test]
fn seek_forward_cuts_nothing() {
    let mut info = played_to_forty();
    info.seek(50);
    let e = kick(90, SIDE_R, "2");
    assert!(info.accepts(&e));
    info.handle_action(e);
    assert_eq!(times(info.actions()), vec![0, 10, 20, 30, 40, 90]);
}

#[test]
fn earlier_action_is_accepted_only_after_seek() {
    let mut info = played_to_forty();
    assert!(!info.accepts(&kick(15, SIDE_L, "1")));
    info.seek(-50);
    assert!(info.accepts(&kick(15, SIDE_L, "1")));
}

#[test]
fn skip_after_including_cuts_at_the_time_given() {
    let mut info = played_to_forty();
    info.skip_after_including(20);
    assert_eq!(times(info.actions()), vec![0, 10]);
    assert_eq!(times(info.rawactions()), vec![0, 10, 12]);
    info.skip_after_including(0);
    assert!(info.actions().is_empty());
    assert!(info.rawactions().is_empty());
}

#[test]
fn action_for_which_the_ball_time_has_no_room_is_refused() {
    let mut info = ActionsInfo::new(&vec!["1", "2"], &vec!["1", "2"]);
    for e in [kick(0, SIDE_L, "1"), kick(usize::MAX, SIDE_L, "2")] {
        assert!(info.accepts(&e));
        info.handle_action(e);
    }
    assert_eq!(info.teams().balltimes(), (usize::MAX as u64, 0));
    info.seek(-50);
    let e = kick(0, SIDE_L, "1");
    assert!(info.accepts(&e));
    info.handle_action(e);
    assert_eq!(times(info.actions()), vec![0]);
    assert_eq!(info.accepts(&kick(1, SIDE_L, "2")), usize::MAX as u64 != u64::MAX);
    assert!(info.accepts(&kick(0, SIDE_L, "2")));
    assert!(info.accepts(&kick(1, SIDE_R, "2")));
}
