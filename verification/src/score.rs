//! The score and the statistics of one player.
//!
//! Scores are whole numbers of score units; [`SCORE_POINT`] units make one
//! point. The unit is small enough that every share the scoring rules hand
//! out is a whole number of units.

use vstd::prelude::*;
use crate::playdata::Card;

verus! {

/// The number of score units in one point: 1000 times the least common
/// multiple of the numbers 1 to 30.
pub const SCORE_POINT: i64 = 2_329_089_562_800_000;

/// What a card costs the player it is shown to, in score units: a point and
/// a half for yellow, three points for red.
pub open spec fn spec_card_score_value(card: Card) -> int {
    match card {
        Card::NoCard => 0,
        Card::Yellow => -(SCORE_POINT / 2 * 3),
        Card::Red => -(SCORE_POINT * 3),
    }
}

/// The sum of the changes in a history of score changes.
pub open spec fn sum_deltas(deltas: Seq<(usize, int)>) -> int
    decreases deltas.len(),
{
    if deltas.len() == 0 {
        0
    } else {
        sum_deltas(deltas.drop_last()) + deltas.last().1
    }
}

/// A player's score and statistics as plain values.
pub struct ScoreView {
    /// The score, in score units.
    pub pscore: int,
    /// Each change of the score with its time, oldest first.
    pub deltas: Seq<(usize, int)>,
    /// The score after each change with its time, oldest first.
    pub cumul: Seq<(usize, int)>,
    /// The lowest score that a change ever led to; the largest `i128` while
    /// there was no change.
    pub hist_min: int,
    /// The highest score that a change ever led to; the smallest `i128`
    /// while there was no change.
    pub hist_max: int,
    pub kicks: nat,
    pub tackles: nat,
    pub catches: nat,
    /// The distance travelled, in position units.
    pub dist: nat,
    /// The card shown last.
    pub card: Card,
}

impl ScoreView {
    /// The two histories run in parallel, each entry of the second is the one
    /// before it plus the change, the score is the last entry, the extremes
    /// bound every entry, and the score is small enough for the number of
    /// changes that led to it.
    pub open spec fn wf(self) -> bool {
        &&& self.consistent()
        &&& self.deltas.len() <= usize::MAX
        &&& i64::MIN * (self.deltas.len() + 1) <= self.pscore <= i64::MAX * (self.deltas.len()
            + 1)
    }

    /// The two histories run in parallel, each entry of the second is the one
    /// before it plus the change, the score is the last entry, and the
    /// extremes bound every entry.
    pub open spec fn consistent(self) -> bool {
        &&& self.deltas.len() == self.cumul.len()
        &&& forall|i: int|
            0 <= i < self.deltas.len() ==> (#[trigger] self.cumul[i]).0 == self.deltas[i].0
        &&& forall|i: int|
            0 < i < self.deltas.len() ==> (#[trigger] self.cumul[i]).1 == self.cumul[i - 1].1
                + self.deltas[i].1
        &&& self.deltas.len() > 0 ==> self.pscore == self.cumul.last().1
        &&& forall|i: int|
            0 <= i < self.cumul.len() ==> self.hist_min <= (#[trigger] self.cumul[i]).1
                <= self.hist_max
    }

    /// The score before the first change.
    pub open spec fn opening(self) -> int {
        if self.deltas.len() == 0 {
            self.pscore
        } else {
            self.cumul[0].1 - self.deltas[0].1
        }
    }

    /// The score, with the last card's cost taken out again unless
    /// `inc_cardscore`.
    pub open spec fn score(self, inc_cardscore: bool) -> int {
        if inc_cardscore {
            self.pscore
        } else {
            self.pscore - spec_card_score_value(self.card)
        }
    }

    /// The score after a change of `delta` at `time`.
    pub open spec fn updated(self, time: usize, delta: int) -> ScoreView {
        let pscore = self.pscore + delta;
        ScoreView {
            pscore,
            deltas: self.deltas.push((time, delta)),
            cumul: self.cumul.push((time, pscore)),
            hist_min: if pscore < self.hist_min {
                pscore
            } else {
                self.hist_min
            },
            hist_max: if pscore > self.hist_max {
                pscore
            } else {
                self.hist_max
            },
            ..self
        }
    }

    /// The score after `card` was shown at `time`.
    pub open spec fn carded(self, time: usize, card: Card) -> ScoreView {
        ScoreView { card, ..self }.updated(time, spec_card_score_value(card))
    }

    /// The statistics after `d` more units were travelled.
    pub open spec fn travelled(self, d: nat) -> ScoreView {
        ScoreView { dist: self.dist + d, ..self }
    }
}

/// A score that is well formed stays so under a change, the score before the
/// first change stays what it was, and the new score is the old one plus the
/// change.
pub proof fn lemma_updated(s: ScoreView, time: usize, delta: int)
    requires
        s.wf(),
        s.deltas.len() < usize::MAX,
        i64::MIN <= delta <= i64::MAX,
    ensures
        s.updated(time, delta).wf(),
        i128::MIN <= s.updated(time, delta).pscore <= i128::MAX,
        s.updated(time, delta).opening() == s.opening(),
{
    lemma_updated_consistent(s, time, delta);
    let n = s.deltas.len() as int;
    let u = s.updated(time, delta);
    assert(i64::MAX * (n + 2) == i64::MAX * (n + 1) + i64::MAX) by (nonlinear_arith);
    assert(i64::MIN * (n + 2) == i64::MIN * (n + 1) + i64::MIN) by (nonlinear_arith);
    assert(i64::MAX * (n + 2) <= i64::MAX * 0x1_0000_0000_0000_0000) by (nonlinear_arith)
        requires
            n + 2 <= 0x1_0000_0000_0000_0000,
    ;
    assert(i64::MIN * (n + 2) >= i64::MIN * 0x1_0000_0000_0000_0000) by (nonlinear_arith)
        requires
            n + 2 <= 0x1_0000_0000_0000_0000,
    ;
}

/// A change keeps the histories of a score consistent, and the score before
/// the first change stays what it was.
pub proof fn lemma_updated_consistent(s: ScoreView, time: usize, delta: int)
    requires
        s.consistent(),
    ensures
        s.updated(time, delta).consistent(),
        s.updated(time, delta).opening() == s.opening(),
{
    let n = s.deltas.len() as int;
    let u = s.updated(time, delta);
    assert forall|i: int| 0 <= i < u.deltas.len() implies (#[trigger] u.cumul[i]).0
        == u.deltas[i].0 by {
        if i < n {
            assert(u.cumul[i] == s.cumul[i]);
        }
    }
    assert forall|i: int| 0 < i < u.deltas.len() implies (#[trigger] u.cumul[i]).1 == u.cumul[i
        - 1].1 + u.deltas[i].1 by {
        if i < n {
            assert(u.cumul[i] == s.cumul[i]);
        } else {
            assert(u.cumul[i - 1] == s.cumul[n - 1]);
        }
    }
    assert forall|i: int| 0 <= i < u.cumul.len() implies u.hist_min <= (#[trigger] u.cumul[i]).1
        <= u.hist_max by {
        if i < n {
            assert(u.cumul[i] == s.cumul[i]);
        }
    }
    if n > 0 {
        assert(u.cumul[0] == s.cumul[0]);
        assert(u.deltas[0] == s.deltas[0]);
    }
}

/// The score is the score before the first change plus all changes.
pub proof fn law_pscore_is_sum(s: ScoreView)
    requires
        s.consistent(),
    ensures
        s.pscore == s.opening() + sum_deltas(s.deltas),
{
    if s.deltas.len() > 0 {
        lemma_cumul_is_sum(s, s.deltas.len() as int);
        assert(s.deltas.take(s.deltas.len() as int) =~= s.deltas);
    }
}

/// The score after the first `n` changes is the score before the first
/// change plus those changes.
pub proof fn lemma_cumul_is_sum(s: ScoreView, n: int)
    requires
        s.consistent(),
        0 < n <= s.deltas.len(),
    ensures
        s.cumul[n - 1].1 == s.opening() + sum_deltas(s.deltas.take(n)),
    decreases n,
{
    let head = s.deltas.take(n);
    assert(head.drop_last() =~= s.deltas.take(n - 1));
    assert(head.last() == s.deltas[n - 1]);
    if n == 1 {
        assert(sum_deltas(s.deltas.take(0)) == 0);
    } else {
        lemma_cumul_is_sum(s, n - 1);
    }
}

/// A history of score changes as plain values.
pub open spec fn deltas_view(v: Seq<(usize, i64)>) -> Seq<(usize, int)> {
    v.map_values(|d: (usize, i64)| (d.0, d.1 as int))
}

/// A history of scores as plain values.
pub open spec fn cumul_view(v: Seq<(usize, i128)>) -> Seq<(usize, int)> {
    v.map_values(|c: (usize, i128)| (c.0, c.1 as int))
}

/// The score and the statistics of one player.
#[derive(Debug)]
pub struct Score {
    pscore: i128,
    vtimepscore_deltas: Vec<(usize, i64)>,
    vtimepscore_cumul: Vec<(usize, i128)>,
    hist_cumul_minpscore: i128,
    hist_cumul_maxpscore: i128,
    kicks: usize,
    tackles: usize,
    catches: usize,
    dist: u64,
    card: Card,
}

impl View for Score {
    type V = ScoreView;

    closed spec fn view(&self) -> ScoreView {
        ScoreView {
            pscore: self.pscore as int,
            deltas: deltas_view(self.vtimepscore_deltas@),
            cumul: cumul_view(self.vtimepscore_cumul@),
            hist_min: self.hist_cumul_minpscore as int,
            hist_max: self.hist_cumul_maxpscore as int,
            kicks: self.kicks as nat,
            tackles: self.tackles as nat,
            catches: self.catches as nat,
            dist: self.dist as nat,
            card: self.card,
        }
    }
}

impl Score {
    /// Whether the score is well formed.
    pub open spec fn wf(&self) -> bool {
        self@.wf()
    }

    /// A score that starts at `pscore` with the given statistics and no
    /// history.
    pub fn new(
        pscore: i64,
        kicks: usize,
        tackles: usize,
        catches: usize,
        dist: u64,
        card: Card,
    ) -> (s: Score)
        ensures
            s.wf(),
            s@ == (ScoreView {
                pscore: pscore as int,
                deltas: Seq::empty(),
                cumul: Seq::empty(),
                hist_min: i128::MAX as int,
                hist_max: i128::MIN as int,
                kicks: kicks as nat,
                tackles: tackles as nat,
                catches: catches as nat,
                dist: dist as nat,
                card,
            }),
            s@.opening() == pscore,
    {
        let s = Score {
            pscore: pscore as i128,
            vtimepscore_deltas: Vec::new(),
            vtimepscore_cumul: Vec::new(),
            hist_cumul_maxpscore: i128::MIN,
            hist_cumul_minpscore: i128::MAX,
            kicks,
            tackles,
            catches,
            dist,
            card,
        };
        assert(s@.deltas =~= Seq::empty());
        assert(s@.cumul =~= Seq::empty());
        s
    }

    /// The score of a player of whom nothing is known yet: zero throughout.
    pub fn default() -> (s: Score)
        ensures
            s.wf(),
            s@ == (ScoreView {
                pscore: 0,
                deltas: Seq::empty(),
                cumul: Seq::empty(),
                hist_min: i128::MAX as int,
                hist_max: i128::MIN as int,
                kicks: 0,
                tackles: 0,
                catches: 0,
                dist: 0,
                card: Card::NoCard,
            }),
            s@.opening() == 0,
    {
        Score::new(0, 0, 0, 0, 0, Card::NoCard)
    }

    /// Changes the score by `pscoredelta` and enters the change, with its
    /// time, in both histories.
    pub fn pscore_update(&mut self, time: usize, pscoredelta: i64)
        requires
            old(self).wf(),
        ensures
            final(self).wf(),
            final(self)@ == old(self)@.updated(time, pscoredelta as int),
            final(self)@.opening() == old(self)@.opening(),
    {
        self.vtimepscore_deltas.push((time, pscoredelta));
        let n = self.vtimepscore_deltas.len();
        proof {
            assert(deltas_view(old(self).vtimepscore_deltas@).len() < usize::MAX);
            lemma_updated(old(self)@, time, pscoredelta as int);
        }
        self.pscore = self.pscore + pscoredelta as i128;
        if self.pscore > self.hist_cumul_maxpscore {
            self.hist_cumul_maxpscore = self.pscore;
        }
        if self.pscore < self.hist_cumul_minpscore {
            self.hist_cumul_minpscore = self.pscore;
        }
        self.vtimepscore_cumul.push((time, self.pscore));
        proof {
            assert(self@.deltas =~= old(self)@.deltas.push((time, pscoredelta as int)));
            assert(self@.cumul =~= old(self)@.cumul.push((time, self.pscore as int)));
        }
    }

    /// What a card costs the player it is shown to, in score units.
    pub fn card_score_value(card: Card) -> (v: i64)
        ensures
            v == spec_card_score_value(card),
            -(SCORE_POINT * 3) <= v <= 0,
    {
        match card {
            Card::NoCard => 0,
            Card::Yellow => -(SCORE_POINT / 2 * 3),
            Card::Red => -(SCORE_POINT * 3),
        }
    }

    /// Notes `card` as the card shown last and takes its cost off the score.
    pub fn card_issued(&mut self, time: usize, card: Card)
        requires
            old(self).wf(),
        ensures
            final(self).wf(),
            final(self)@ == old(self)@.carded(time, card),
            final(self)@.opening() == old(self)@.opening(),
    {
        self.card = card;
        self.pscore_update(time, Self::card_score_value(card));
    }

    /// The score; unless `inc_cardscore`, without the cost of the card shown
    /// last. The cost of cards shown before that one stays in.
    pub fn score(&self, inc_cardscore: bool) -> (v: i128)
        requires
            self.wf(),
        ensures
            v == self@.score(inc_cardscore),
    {
        let adjustcardscore: i64 = if inc_cardscore {
            0
        } else {
            Self::card_score_value(self.card)
        };
        proof {
            let n = self@.deltas.len() as int;
            assert(i64::MAX * (n + 1) <= i64::MAX * 0x1_0000_0000_0000_0000) by (nonlinear_arith)
                requires
                    n + 1 <= 0x1_0000_0000_0000_0000,
            ;
        }
        self.pscore - adjustcardscore as i128
    }

    /// Counts one more kick.
    pub fn add_kick(&mut self)
        requires
            old(self)@.kicks < usize::MAX,
        ensures
            final(self)@ == (ScoreView { kicks: old(self)@.kicks + 1, ..old(self)@ }),
            old(self).wf() ==> final(self).wf(),
    {
        self.kicks = self.kicks + 1;
    }

    /// Counts one more tackle.
    pub fn add_tackle(&mut self)
        requires
            old(self)@.tackles < usize::MAX,
        ensures
            final(self)@ == (ScoreView { tackles: old(self)@.tackles + 1, ..old(self)@ }),
            old(self).wf() ==> final(self).wf(),
    {
        self.tackles = self.tackles + 1;
    }

    /// Counts one more catch.
    pub fn add_catch(&mut self)
        requires
            old(self)@.catches < usize::MAX,
        ensures
            final(self)@ == (ScoreView { catches: old(self)@.catches + 1, ..old(self)@ }),
            old(self).wf() ==> final(self).wf(),
    {
        self.catches = self.catches + 1;
    }

    /// Adds `d` to the distance travelled.
    pub fn add_distance(&mut self, d: u64)
        requires
            old(self)@.dist + d <= u64::MAX,
        ensures
            final(self)@ == old(self)@.travelled(d as nat),
            old(self).wf() ==> final(self).wf(),
    {
        self.dist = self.dist + d;
    }

    /// The score, in score units.
    pub fn pscore(&self) -> (v: i128)
        ensures
            v == self@.pscore,
    {
        self.pscore
    }

    /// The lowest score that a change ever led to; the largest number while
    /// there was no change.
    pub fn hist_cumul_minpscore(&self) -> (v: i128)
        ensures
            v == self@.hist_min,
    {
        self.hist_cumul_minpscore
    }

    /// The highest score that a change ever led to; the smallest number
    /// while there was no change.
    pub fn hist_cumul_maxpscore(&self) -> (v: i128)
        ensures
            v == self@.hist_max,
    {
        self.hist_cumul_maxpscore
    }

    /// The number of kicks.
    pub fn kicks(&self) -> (v: usize)
        ensures
            v == self@.kicks,
    {
        self.kicks
    }

    /// The number of tackles.
    pub fn tackles(&self) -> (v: usize)
        ensures
            v == self@.tackles,
    {
        self.tackles
    }

    /// The number of catches.
    pub fn catches(&self) -> (v: usize)
        ensures
            v == self@.catches,
    {
        self.catches
    }

    /// The distance travelled, in position units.
    pub fn dist(&self) -> (v: u64)
        ensures
            v == self@.dist,
    {
        self.dist
    }

    /// The card shown last.
    pub fn card(&self) -> (c: Card)
        ensures
            c == self@.card,
    {
        self.card
    }

    /// Each change of the score with its time, oldest first.
    pub fn vtimepscore_deltas(&self) -> (v: &Vec<(usize, i64)>)
        ensures
            deltas_view(v@) == self@.deltas,
    {
        &self.vtimepscore_deltas
    }

    /// The score after each change with its time, oldest first.
    pub fn vtimepscore_cumul(&self) -> (v: &Vec<(usize, i128)>)
        ensures
            cumul_view(v@) == self@.cumul,
    {
        &self.vtimepscore_cumul
    }
}

} // verus!
