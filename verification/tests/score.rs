use matchscore::playdata::Card;
use matchscore::score::{Score, SCORE_POINT};

#[test]
fn score_point_is_a_thousand_times_the_least_common_multiple() {
    fn gcd(a: i64, b: i64) -> i64 {
        if b == 0 {
            a
        } else {
            gcd(b, a % b)
        }
    }
    let mut lcm: i64 = 1;
    for k in 1..=30 {
        lcm = lcm / gcd(lcm, k) * k;
    }
    assert_eq!(SCORE_POINT, 1000 * lcm);
}

#[test]
fn new_score_holds_what_it_was_given() {
    let s = Score::new(12, 1, 2, 3, 44, Card::Yellow);
    assert_eq!(s.pscore(), 12);
    assert_eq!((s.kicks(), s.tackles(), s.catches()), (1, 2, 3));
    assert_eq!(s.dist(), 44);
    assert_eq!(s.card(), Card::Yellow);
    assert_eq!(s.hist_cumul_minpscore(), i128::MAX);
    assert_eq!(s.hist_cumul_maxpscore(), i128::MIN);
    assert!(s.vtimepscore_deltas().is_empty());
}

#[test]
fn default_score_is_zero_throughout() {
    let s = Score::default();
    assert_eq!(s.pscore(), 0);
    assert_eq!((s.kicks(), s.tackles(), s.catches(), s.dist()), (0, 0, 0, 0));
    assert_eq!(s.card(), Card::NoCard);
    assert_eq!(s.score(true), 0);
    assert_eq!(s.score(false), 0);
}

#[test]
fn pscore_is_the_sum_of_its_changes() {
    let mut s = Score::default();
    let changes: [i64; 6] = [5, -3, 100, i64::MAX, i64::MIN, -7];
    let mut sum: i128 = 0;
    let mut low = i128::MAX;
    let mut high = i128::MIN;
    for (t, d) in changes.iter().enumerate() {
        s.pscore_update(t, *d);
        sum += *d as i128;
        low = low.min(sum);
        high = high.max(sum);
        assert_eq!(s.pscore(), sum);
        assert_eq!(s.vtimepscore_cumul()[t], (t, sum));
        assert_eq!(s.vtimepscore_deltas()[t], (t, *d));
        assert_eq!(s.hist_cumul_minpscore(), low);
        assert_eq!(s.hist_cumul_maxpscore(), high);
    }
    assert_eq!(s.vtimepscore_deltas().len(), 6);
    for entry in s.vtimepscore_cumul() {
        assert!(low <= entry.1 && entry.1 <= high);
    }
}

#[test]
fn card_values_are_fixed() {
    assert_eq!(Score::card_score_value(Card::NoCard), 0);
    assert_eq!(Score::card_score_value(Card::Yellow), -3_493_634_344_200_000);
    assert_eq!(Score::card_score_value(Card::Red), -6_987_268_688_400_000);
}

#[test]
fn card_issued_notes_the_card_and_its_cost() {
    let mut s = Score::new(0, 0, 0, 0, 0, Card::NoCard);
    s.card_issued(77, Card::Red);
    assert_eq!(s.card(), Card::Red);
    assert_eq!(s.vtimepscore_deltas(), &vec![(77, -3 * SCORE_POINT)]);
    s.card_issued(78, Card::NoCard);
    assert_eq!(s.card(), Card::NoCard);
    assert_eq!(s.vtimepscore_deltas().len(), 2);
    assert_eq!(s.score(false), s.pscore());
}

#[test]
fn counters_and_distance_count_up_to_the_largest_value() {
    let mut s = Score::new(0, usize::MAX - 1, 7, 0, u64::MAX - 5, Card::NoCard);
    s.add_kick();
    assert_eq!(s.kicks(), usize::MAX);
    s.add_tackle();
    assert_eq!(s.tackles(), 8);
    s.add_catch();
    assert_eq!(s.catches(), 1);
    s.add_distance(3);
    assert_eq!(s.dist(), u64::MAX - 2);
    s.add_distance(2);
    assert_eq!(s.dist(), u64::MAX);
    s.add_distance(0);
    assert_eq!(s.dist(), u64::MAX);
}
