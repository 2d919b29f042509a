use matchscore::passes::{
    KickData, Passes, SCORE_BAD_PASS, SCORE_GOOD_PASS, SCORE_SELF_PASS,
};
use matchscore::score::SCORE_POINT;

fn kick(time: usize, side: char, playerid: usize) -> KickData {
    KickData::new(time, side, playerid, (0, 0))
}

#[test]
fn pass_scores_are_fixed() {
    assert_eq!(SCORE_GOOD_PASS, SCORE_POINT);
    assert_eq!(SCORE_BAD_PASS, -(SCORE_POINT / 2));
    assert_eq!(SCORE_SELF_PASS, SCORE_POINT / 20);
}

#[test]
fn new_passes_rate_everybody_zero() {
    let p = Passes::new(3, 2);
    assert_eq!(p.scores(), (vec![0, 0, 0], vec![0, 0]));
    assert_eq!(p.score_max(), (0, 0));
    assert_eq!(Passes::new(0, 0).score_max(), (i128::MIN, i128::MIN));
}

#[test]
fn first_kick_rates_nobody() {
    let mut p = Passes::new(2, 2);
    p.add_kick(kick(0, 'a', 1));
    assert_eq!(p.scores(), (vec![0, 0], vec![0, 0]));
}

#[test]
fn each_kick_rates_the_kicker_before() {
    let mut p = Passes::new(2, 2);
    let g = SCORE_GOOD_PASS as i128;
    let b = SCORE_BAD_PASS as i128;
    let s = SCORE_SELF_PASS as i128;
    p.add_kick(kick(0, 'a', 0));
    p.add_kick(kick(1, 'a', 1));
    assert_eq!(p.scores(), (vec![g, 0], vec![0, 0]));
    p.add_kick(kick(2, 'a', 1));
    assert_eq!(p.scores(), (vec![g, s], vec![0, 0]));
    p.add_kick(kick(3, 'b', 1));
    assert_eq!(p.scores(), (vec![g, s + b], vec![0, 0]));
    p.add_kick(kick(4, 'b', 0));
    assert_eq!(p.scores(), (vec![g, s + b], vec![0, g]));
    p.add_kick(kick(5, 'a', 0));
    assert_eq!(p.scores(), (vec![g, s + b], vec![b, g]));
    assert_eq!(p.score_max(), (g, g));
}

#[test]
fn kick_of_a_player_that_is_not_there_is_not_known() {
    let p = Passes::new(2, 1);
    assert!(p.knows(&kick(0, 'a', 1)));
    assert!(!p.knows(&kick(0, 'a', 2)));
    assert!(p.knows(&kick(0, 'b', 0)));
    assert!(!p.knows(&kick(0, 'b', 1)));
    assert!(!p.knows(&kick(0, 'z', 1)));
}
