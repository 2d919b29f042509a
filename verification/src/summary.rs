//! What a display needs of the engine's state: ranges for scaling, a
//! player's score over time, and each side's share of the ball.

use vstd::prelude::*;
use crate::engine::ActionsInfo;
use crate::score::{cumul_view, deltas_view, ScoreView, SCORE_POINT};
use crate::teams::{
    all_wf,
    dists_of,
    highest,
    hist_maxs_of,
    hist_mins_of,
    lemma_roster_has,
    lowest,
    scores_of,
};

verus! {

/// Scale each side by its own players.
pub const SUMMARY_RELATIVE_TEAM: char = 'T';

/// Scale both sides by the players of both.
pub const SUMMARY_RELATIVE_ALL: char = 'A';

/// The lower end of a plot of scores over time where nothing else is
/// given: two points below zero.
pub const PLOT_TVS_YMIN: i128 = -4_658_179_125_600_000;

/// The upper end of a plot of scores over time where nothing else is
/// given: five points.
pub const PLOT_TVS_YMAX: i128 = 11_645_447_814_000_000;

/// Which of a player's two histories to show.
#[derive(Debug, Clone, Copy, PartialEq, Eq, Structural)]
pub enum SummaryPlayerType {
    /// The changes of the score.
    ScoreDeltas,
    /// The score after each change.
    ScoreCumulative,
}

/// A pair of ranges, one for each side, as they are used for scaling: each
/// side's own, or for both sides the range that spans the two.
pub open spec fn spec_relative(
    summarytype: char,
    left: (int, int),
    right: (int, int),
) -> ((int, int), (int, int)) {
    if summarytype == SUMMARY_RELATIVE_ALL {
        let min = if left.0 < right.0 {
            left.0
        } else {
            right.0
        };
        let max = if left.1 > right.1 {
            left.1
        } else {
            right.1
        };
        ((min, max), (min, max))
    } else {
        (left, right)
    }
}

/// The history of a score that `sptype` names, each entry with its time.
pub open spec fn spec_series(score: ScoreView, sptype: SummaryPlayerType) -> Seq<(usize, int)> {
    match sptype {
        SummaryPlayerType::ScoreDeltas => score.deltas,
        SummaryPlayerType::ScoreCumulative => score.cumul,
    }
}

/// The range of a plot of a score over time: the one given, or else from
/// two points below zero to five points, widened to hold the score if the
/// plot shows the score after each change.
pub open spec fn spec_tvs_yrange(
    score: ScoreView,
    yminmax: Option<(i128, i128)>,
    sptype: SummaryPlayerType,
) -> (int, int) {
    match yminmax {
        Some(range) => (range.0 as int, range.1 as int),
        None => if sptype == SummaryPlayerType::ScoreDeltas {
            (PLOT_TVS_YMIN as int, PLOT_TVS_YMAX as int)
        } else if score.pscore > PLOT_TVS_YMAX {
            (PLOT_TVS_YMIN as int, score.pscore)
        } else if PLOT_TVS_YMIN > score.pscore {
            (score.pscore, PLOT_TVS_YMAX as int)
        } else {
            (PLOT_TVS_YMIN as int, PLOT_TVS_YMAX as int)
        },
    }
}

/// The left side's share of the time for which either side had the ball,
/// in hundredths, rounded to the nearest whole number, a half upwards.
pub open spec fn spec_ball_possession(lballtime: nat, rballtime: nat) -> int {
    let l = lballtime as int;
    let total = (lballtime + rballtime) as int;
    (200 * l + total) / (2 * total)
}

/// The number of whole points nearest to a score, a half upwards; zero for
/// a score below zero.
pub open spec fn spec_score_bar_len(score: i128) -> int {
    let point = SCORE_POINT as int;
    if score < 0 {
        0
    } else if (score as int) % point >= point / 2 {
        (score as int) / point + 1
    } else {
        (score as int) / point
    }
}

/// The sum of the weights of a kernel.
pub open spec fn spec_weights_total(weights: Seq<u8>) -> int
    decreases weights.len(),
{
    if weights.len() == 0 {
        0
    } else {
        spec_weights_total(weights.drop_last()) + weights.last()
    }
}

/// The place in a series of `len` entries at which the weight `j` of a
/// kernel lies when the kernel's middle, its weight `half`, lies at `i`:
/// beyond either end of the series, the place of the entry at that end.
pub open spec fn spec_window_index(len: int, half: int, i: int, j: int) -> int {
    let k = i + j - half;
    if k < 0 {
        0
    } else if k >= len {
        len - 1
    } else {
        k
    }
}

/// The sum of the first `n` weights of a kernel, each times the entry of
/// the series at which it lies when the kernel's middle lies at `i`.
pub open spec fn spec_window_sum(
    values: Seq<(usize, int)>,
    weights: Seq<u8>,
    i: int,
    n: int,
) -> int
    decreases n,
{
    if n <= 0 {
        0
    } else {
        spec_window_sum(values, weights, i, n - 1) + weights[n - 1] * values[spec_window_index(
            values.len() as int,
            weights.len() as int / 2,
            i,
            n - 1,
        )].1
    }
}

/// A series smoothed by a kernel of weights in hundredths: each entry
/// becomes the weighted sum of the entries around it, in hundredths,
/// rounded down. A kernel without weights leaves the series as it is.
pub open spec fn spec_smoothed(values: Seq<(usize, int)>, weights: Seq<u8>) -> Seq<(usize, int)> {
    if weights.len() == 0 {
        values
    } else {
        Seq::new(
            values.len(),
            |i: int| (values[i].0, spec_window_sum(values, weights, i, weights.len() as int) / 100),
        )
    }
}

/// The first weights of a kernel add up to no more than all of them.
pub proof fn lemma_weights_total_grows(weights: Seq<u8>, n: int)
    requires
        0 <= n <= weights.len(),
    ensures
        0 <= spec_weights_total(weights.take(n)) <= spec_weights_total(weights),
        n < weights.len() ==> spec_weights_total(weights.take(n + 1)) == spec_weights_total(
            weights.take(n),
        ) + weights[n],
    decreases weights.len() - n,
{
    if n < weights.len() {
        assert(weights.take(n + 1).drop_last() =~= weights.take(n));
        lemma_weights_total_grows(weights, n + 1);
    } else {
        assert(weights.take(n) =~= weights);
    }
    lemma_weights_total_positive(weights.take(n));
}

/// The weights of a kernel add up to nothing less than zero.
pub proof fn lemma_weights_total_positive(weights: Seq<u8>)
    ensures
        0 <= spec_weights_total(weights),
    decreases weights.len(),
{
    if weights.len() > 0 {
        lemma_weights_total_positive(weights.drop_last());
    }
}

/// The plot limits are two points below zero and five points.
pub proof fn law_plot_limits()
    ensures
        PLOT_TVS_YMIN == -2 * SCORE_POINT,
        PLOT_TVS_YMAX == 5 * SCORE_POINT,
{
}

/// The left side's share of the ball is at most a hundred hundredths.
pub proof fn lemma_ball_possession_bound(lballtime: nat, rballtime: nat)
    requires
        lballtime + rballtime > 0,
    ensures
        0 <= spec_ball_possession(lballtime, rballtime) <= 100,
{
    let l = lballtime as int;
    let t = (lballtime + rballtime) as int;
    assert(200 * l + t <= 100 * (2 * t) + t);
    vstd::arithmetic::div_mod::lemma_div_is_ordered(200 * l + t, 100 * (2 * t) + t, 2 * t);
    assert((100 * (2 * t) + t) / (2 * t) == 100) by {
        vstd::arithmetic::div_mod::lemma_fundamental_div_mod_converse(
            100 * (2 * t) + t,
            2 * t,
            100,
            t,
        );
    }
    vstd::arithmetic::div_mod::lemma_div_pos_is_pos(200 * l + t, 2 * t);
}

/// The pair of ranges as they are used for scaling.
fn relative(summarytype: char, left: (i128, i128), right: (i128, i128)) -> (r: (
    (i128, i128),
    (i128, i128),
))
    ensures
        ((r.0.0 as int, r.0.1 as int), (r.1.0 as int, r.1.1 as int)) == spec_relative(
            summarytype,
            (left.0 as int, left.1 as int),
            (right.0 as int, right.1 as int),
        ),
{
    if summarytype == SUMMARY_RELATIVE_ALL {
        let min = if left.0 < right.0 {
            left.0
        } else {
            right.0
        };
        let max = if left.1 > right.1 {
            left.1
        } else {
            right.1
        };
        ((min, max), (min, max))
    } else {
        (left, right)
    }
}

/// The number of whole points nearest to a score, a half upwards; zero for
/// a score below zero.
pub fn score_bar_len(score: i128) -> (n: u128)
    ensures
        n == spec_score_bar_len(score),
{
    let point: i128 = SCORE_POINT as i128;
    if score < 0 {
        0
    } else if score % point >= point / 2 {
        (score / point + 1) as u128
    } else {
        (score / point) as u128
    }
}

/// The sum of the weights of a kernel, or a number over a hundred if they
/// add up to more than a hundred.
fn weights_total(weights: &Vec<u8>) -> (total: u64)
    ensures
        spec_weights_total(weights@) <= 100 ==> total == spec_weights_total(weights@),
        spec_weights_total(weights@) > 100 ==> total > 100,
{
    let mut total: u64 = 0;
    let mut j: usize = 0;
    while j < weights.len() && total <= 100
        invariant
            j <= weights.len(),
            total == spec_weights_total(weights@.take(j as int)),
            total <= 100 + 255,
        decreases weights.len() - j,
    {
        proof {
            lemma_weights_total_grows(weights@, j as int);
        }
        total = total + weights[j] as u64;
        j += 1;
    }
    proof {
        lemma_weights_total_grows(weights@, j as int);
        if j == weights.len() {
            assert(weights@.take(j as int) =~= weights@);
        }
    }
    total
}

/// The entry of a series smoothed by a kernel when the kernel's middle
/// lies at `i`.
fn smoothed_at(series: &Vec<(usize, i128)>, weights: &Vec<u8>, i: usize) -> (v: i128)
    requires
        i < series.len(),
        weights.len() > 0,
        spec_weights_total(weights@) <= 100,
    ensures
        v == spec_window_sum(cumul_view(series@), weights@, i as int, weights.len() as int) / 100,
{
    let ghost values = cumul_view(series@);
    let n = series.len();
    let m = weights.len();
    let half = m / 2;
    let mut hi: i128 = 0;
    let mut lo: i128 = 0;
    let mut j: usize = 0;
    let ghost top: int = 0x8000_0000_0000_0000_0000_0000_0000_0000;
    proof {
        assert(weights@.take(0) =~= Seq::<u8>::empty());
    }
    while j < m
        invariant
            j <= m,
            m == weights.len(),
            n == series.len(),
            0 < n,
            i < n,
            half == m / 2,
            values == cumul_view(series@),
            top == 0x8000_0000_0000_0000_0000_0000_0000_0000,
            spec_weights_total(weights@) <= 100,
            100 * hi + lo == spec_window_sum(values, weights@, i as int, j as int),
            -(spec_weights_total(weights@.take(j as int)) * (i128::MAX / 100)) <= hi
                <= spec_weights_total(weights@.take(j as int)) * (i128::MAX / 100),
            -(spec_weights_total(weights@.take(j as int)) * 99) <= lo <= spec_weights_total(
                weights@.take(j as int),
            ) * 99,
            -(spec_weights_total(weights@.take(j as int)) * top) <= spec_window_sum(
                values,
                weights@,
                i as int,
                j as int,
            ) <= spec_weights_total(weights@.take(j as int)) * (top - 1),
        decreases m - j,
    {
        let at: u128 = i as u128 + j as u128;
        let k: usize = if at < half as u128 {
            0
        } else if at - half as u128 >= n as u128 {
            n - 1
        } else {
            (at - half as u128) as usize
        };
        assert(k == spec_window_index(n as int, half as int, i as int, j as int));
        let y = series[k].1;
        assert(values[k as int].1 == y);
        let w = weights[j] as i128;
        let q = y / 100;
        let r = y % 100;
        proof {
            lemma_weights_total_grows(weights@, j as int);
            lemma_weights_total_grows(weights@, j + 1);
            let t = spec_weights_total(weights@.take(j as int));
            assert(t + w <= 100);
            assert(y == 100 * q + r);
            assert(-(i128::MAX / 100) <= q <= i128::MAX / 100);
            assert(-99 <= r <= 99);
            assert(w * y == 100 * (w * q) + w * r) by (nonlinear_arith)
                requires
                    y == 100 * q + r,
            ;
            assert(-(w * (i128::MAX / 100)) <= w * q <= w * (i128::MAX / 100)) by (nonlinear_arith)
                requires
                    0 <= w,
                    -(i128::MAX / 100) <= q <= i128::MAX / 100,
            ;
            assert(-(w * 99) <= w * r <= w * 99) by (nonlinear_arith)
                requires
                    0 <= w,
                    -99 <= r <= 99,
            ;
            assert(-(w * top) <= w * y <= w * (top - 1)) by (nonlinear_arith)
                requires
                    0 <= w,
                    -top <= y <= top - 1,
            ;
            assert((t + w) * (i128::MAX / 100) == t * (i128::MAX / 100) + w * (i128::MAX / 100))
                by (nonlinear_arith);
            assert((t + w) * 99 == t * 99 + w * 99) by (nonlinear_arith);
            assert((t + w) * top == t * top + w * top) by (nonlinear_arith);
            assert((t + w) * (top - 1) == t * (top - 1) + w * (top - 1)) by (nonlinear_arith);
            assert((t + w) * (i128::MAX / 100) <= 100 * (i128::MAX / 100)) by (nonlinear_arith)
                requires
                    0 <= t + w <= 100,
            ;
            assert((t + w) * 99 <= 9900) by (nonlinear_arith)
                requires
                    0 <= t + w <= 100,
            ;
        }
        hi = hi + w * q;
        lo = lo + w * r;
        j += 1;
    }
    proof {
        assert(weights@.take(m as int) =~= weights@);
        let t = spec_weights_total(weights@);
        let sum = spec_window_sum(values, weights@, i as int, m as int);
        assert(-(100 * top) <= sum <= 100 * (top - 1)) by (nonlinear_arith)
            requires
                0 <= t <= 100,
                -(t * top) <= sum <= t * (top - 1),
                top > 1,
        ;
        assert(sum / 100 == hi + lo / 100);
    }
    if lo >= 0 {
        hi + lo / 100
    } else {
        hi - (99 - lo) / 100
    }
}

/// A series smoothed by a kernel of weights in hundredths: each entry
/// becomes the weighted sum of the entries around it, in hundredths,
/// rounded down; beyond either end of the series the entry at that end
/// counts. A kernel without weights leaves the series as it is. There is
/// no result for weights that add up to more than a hundred.
pub fn smoothed(series: &Vec<(usize, i128)>, weights: &Vec<u8>) -> (r: Option<Vec<(usize, i128)>>)
    ensures
        match r {
            Some(s) => spec_weights_total(weights@) <= 100 && cumul_view(s@) == spec_smoothed(
                cumul_view(series@),
                weights@,
            ),
            None => spec_weights_total(weights@) > 100,
        },
{
    if weights_total(weights) > 100 {
        return None;
    }
    let ghost values = cumul_view(series@);
    let mut s: Vec<(usize, i128)> = Vec::new();
    let mut i: usize = 0;
    while i < series.len()
        invariant
            i <= series.len(),
            s.len() == i,
            values == cumul_view(series@),
            spec_weights_total(weights@) <= 100,
            forall|k: int|
                0 <= k < i ==> (#[trigger] s[k]).0 == spec_smoothed(values, weights@)[k].0 && s[k].1
                    == spec_smoothed(values, weights@)[k].1,
        decreases series.len() - i,
    {
        assert(values[i as int] == (series[i as int].0, series[i as int].1 as int));
        if weights.len() == 0 {
            s.push(series[i]);
        } else {
            let v = smoothed_at(series, weights, i);
            s.push((series[i].0, v));
        }
        i += 1;
    }
    assert(cumul_view(s@) =~= spec_smoothed(values, weights@));
    Some(s)
}

impl ActionsInfo {
    /// The lowest and the highest score of each side's players, for the
    /// left side first; with [`SUMMARY_RELATIVE_ALL`], for both sides the
    /// lowest and the highest of all players.
    pub fn score_range(&self, summarytype: char, inc_cardscore: bool) -> (r: (
        (i128, i128),
        (i128, i128),
    ))
        requires
            self.wf(),
        ensures
            ((r.0.0 as int, r.0.1 as int), (r.1.0 as int, r.1.1 as int)) == spec_relative(
                summarytype,
                (
                    lowest(scores_of(self@.teams.lplayers, inc_cardscore), i128::MAX as int),
                    highest(scores_of(self@.teams.lplayers, inc_cardscore), i128::MIN as int),
                ),
                (
                    lowest(scores_of(self@.teams.rplayers, inc_cardscore), i128::MAX as int),
                    highest(scores_of(self@.teams.rplayers, inc_cardscore), i128::MIN as int),
                ),
            ),
    {
        let (left, right) = self.teams().score_minmax(inc_cardscore);
        relative(summarytype, left, right)
    }

    /// The lowest and the highest score that each side's players ever had
    /// after a change, for the left side first; with
    /// [`SUMMARY_RELATIVE_ALL`], for both sides the lowest and the highest
    /// of all players.
    pub fn hist_score_range(&self, summarytype: char) -> (r: ((i128, i128), (i128, i128)))
        ensures
            ((r.0.0 as int, r.0.1 as int), (r.1.0 as int, r.1.1 as int)) == spec_relative(
                summarytype,
                (
                    lowest(hist_mins_of(self@.teams.lplayers), i128::MAX as int),
                    highest(hist_maxs_of(self@.teams.lplayers), i128::MIN as int),
                ),
                (
                    lowest(hist_mins_of(self@.teams.rplayers), i128::MAX as int),
                    highest(hist_maxs_of(self@.teams.rplayers), i128::MIN as int),
                ),
            ),
    {
        let (left, right) = self.teams().score_hist_cumul_minmax();
        relative(summarytype, left, right)
    }

    /// The longest distance that a player of the left and of the right side
    /// travelled; with [`SUMMARY_RELATIVE_ALL`], for both sides the longest
    /// of all players.
    pub fn dist_range(&self, summarytype: char) -> (r: (u64, u64))
        ensures
            ((0int, r.0 as int), (0int, r.1 as int)) == spec_relative(
                summarytype,
                (0, highest(dists_of(self@.teams.lplayers), 0)),
                (0, highest(dists_of(self@.teams.rplayers), 0)),
            ),
    {
        let (lmax, rmax) = self.teams().dist_max();
        if summarytype == SUMMARY_RELATIVE_ALL {
            let max = if lmax > rmax {
                lmax
            } else {
                rmax
            };
            (max, max)
        } else {
            (lmax, rmax)
        }
    }

    /// The history of the player `playerid` of `side` that `sptype` names,
    /// each entry with its time.
    pub fn score_series(&self, side: char, playerid: &str, sptype: SummaryPlayerType) -> (r: Vec<
        (usize, i128),
    >)
        requires
            self.wf(),
            self@.teams.has(side, playerid@),
        ensures
            cumul_view(r@) == spec_series(self@.teams.player(side, playerid@).score, sptype),
    {
        let score = self.teams().get_player(side, playerid).score();
        let mut r: Vec<(usize, i128)> = Vec::new();
        let mut i: usize = 0;
        match sptype {
            SummaryPlayerType::ScoreDeltas => {
                let vts = score.vtimepscore_deltas();
                while i < vts.len()
                    invariant
                        i <= vts.len(),
                        deltas_view(vts@) == score@.deltas,
                        r@.len() == i,
                        forall|j: int|
                            0 <= j < i ==> (#[trigger] r@[j]).0 == spec_series(score@, sptype)[j].0
                                && r@[j].1 == spec_series(score@, sptype)[j].1,
                        sptype == SummaryPlayerType::ScoreDeltas,
                    decreases vts.len() - i,
                {
                    assert(deltas_view(vts@)[i as int] == (vts[i as int].0, vts[i as int].1 as int));
                    r.push((vts[i].0, vts[i].1 as i128));
                    i += 1;
                }
            },
            SummaryPlayerType::ScoreCumulative => {
                let vts = score.vtimepscore_cumul();
                while i < vts.len()
                    invariant
                        i <= vts.len(),
                        cumul_view(vts@) == score@.cumul,
                        r@.len() == i,
                        forall|j: int|
                            0 <= j < i ==> (#[trigger] r@[j]).0 == spec_series(score@, sptype)[j].0
                                && r@[j].1 == spec_series(score@, sptype)[j].1,
                        sptype == SummaryPlayerType::ScoreCumulative,
                    decreases vts.len() - i,
                {
                    assert(cumul_view(vts@)[i as int] == (vts[i as int].0, vts[i as int].1 as int));
                    r.push(vts[i]);
                    i += 1;
                }
            },
        }
        assert(cumul_view(r@) =~= spec_series(score@, sptype));
        r
    }

    /// The range of a plot over time of the score of the player `playerid`
    /// of `side`: see [`spec_tvs_yrange`].
    pub fn tvs_yrange(
        &self,
        side: char,
        playerid: &str,
        yminmax: Option<(i128, i128)>,
        sptype: SummaryPlayerType,
    ) -> (r: (i128, i128))
        requires
            self.wf(),
            self@.teams.has(side, playerid@),
        ensures
            (r.0 as int, r.1 as int) == spec_tvs_yrange(
                self@.teams.player(side, playerid@).score,
                yminmax,
                sptype,
            ),
    {
        let player = self.teams().get_player(side, playerid);
        let mut ymin = PLOT_TVS_YMIN;
        let mut ymax = PLOT_TVS_YMAX;
        match yminmax {
            Some(range) => {
                ymin = range.0;
                ymax = range.1;
            },
            None => {
                if sptype == SummaryPlayerType::ScoreCumulative {
                    let pscore = player.score().pscore();
                    if pscore > ymax {
                        ymax = pscore;
                    } else if ymin > pscore {
                        ymin = pscore;
                    }
                }
            },
        }
        (ymin, ymax)
    }

    /// The score of each player of `side`, in the order of the roster.
    pub fn player_scores(&self, side: char, inc_cardscore: bool) -> (r: Vec<i128>)
        requires
            self.wf(),
        ensures
            r@.len() == self@.teams.pids(side).len(),
            forall|i: int|
                0 <= i < r@.len() ==> #[trigger] r@[i] == self@.teams.player(
                    side,
                    self@.teams.pids(side)[i],
                ).score.score(inc_cardscore),
    {
        let pids = self.teams().pids(side);
        let mut r: Vec<i128> = Vec::new();
        let mut i: usize = 0;
        while i < pids.len()
            invariant
                i <= pids.len(),
                self.wf(),
                pids@.map_values(|s: String| s@) == self@.teams.pids(side),
                r@.len() == i,
                forall|j: int|
                    0 <= j < i ==> #[trigger] r@[j] == self@.teams.player(
                        side,
                        self@.teams.pids(side)[j],
                    ).score.score(inc_cardscore),
            decreases pids.len() - i,
        {
            proof {
                assert(self@.teams.pids(side)[i as int] == pids[i as int]@);
                assert(self@.teams.pids(side).contains(pids[i as int]@));
                lemma_roster_has(self@.teams, side, pids[i as int]@);
                assert(all_wf(self@.teams.players(side)));
            }
            let player = self.teams().get_player(side, pids[i].as_str());
            r.push(player.score().score(inc_cardscore));
            i += 1;
        }
        r
    }

    /// Each side's share of the time for which either side had the ball, in
    /// hundredths: the left side's share rounded to the nearest whole
    /// number, and what is left of a hundred for the right side. Nothing
    /// while neither side had the ball.
    pub fn ball_possession(&self) -> (r: Option<(u64, u64)>)
        ensures
            match r {
                Some((lposs, rposs)) => {
                    &&& self@.teams.lballtime + self@.teams.rballtime > 0
                    &&& lposs == spec_ball_possession(
                        self@.teams.lballtime,
                        self@.teams.rballtime,
                    )
                    &&& lposs + rposs == 100
                },
                None => self@.teams.lballtime + self@.teams.rballtime == 0,
            },
    {
        let (l, r) = self.teams().balltimes();
        if l == 0 && r == 0 {
            return None;
        }
        let total: u128 = l as u128 + r as u128;
        proof {
            lemma_ball_possession_bound(l as nat, r as nat);
        }
        let lposs = ((200 * (l as u128) + total) / (2 * total)) as u64;
        Some((lposs, 100 - lposs))
    }
}

} // verus!
