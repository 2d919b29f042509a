//! A simple rating of passes: each kick is held against the kick before it,
//! and the earlier kicker is rated by where the ball went.

use vstd::prelude::*;
use crate::geometry::Pos;
use crate::score::SCORE_POINT;
use crate::teams::highest;

verus! {

/// What a kicker loses whose ball went to the other side: half a point.
pub const SCORE_BAD_PASS: i64 = -1_164_544_781_400_000;

/// What a kicker gets whose ball went to a team mate: one point.
pub const SCORE_GOOD_PASS: i64 = 2_329_089_562_800_000;

/// What a kicker gets who kicks again: a twentieth of a point.
pub const SCORE_SELF_PASS: i64 = 116_454_478_140_000;

/// The side whose players are kept first.
pub const SIDE_A: char = 'a';

/// The three ratings are half a point off, one point, and a twentieth of a
/// point.
pub proof fn law_pass_scores()
    ensures
        SCORE_BAD_PASS == -(SCORE_POINT / 2),
        SCORE_GOOD_PASS == SCORE_POINT,
        SCORE_SELF_PASS == SCORE_POINT / 20,
{
}

/// The record of one kick.
#[derive(Debug, Clone, Copy)]
pub struct KickData {
    pub time: usize,
    pub side: char,
    /// The kicker's place among the players of the side.
    pub playerid: usize,
    pub pos: Pos,
}

impl KickData {
    pub fn new(time: usize, side: char, playerid: usize, pos: Pos) -> (k: KickData)
        ensures
            k == (KickData { time, side, playerid, pos }),
    {
        KickData { time, side, playerid, pos }
    }
}

/// What the kicker of `prev` is rated for the kick `kick` that followed.
pub open spec fn spec_pass_score(prev: KickData, kick: KickData) -> int {
    if prev.side != kick.side {
        SCORE_BAD_PASS as int
    } else if prev.playerid == kick.playerid {
        SCORE_SELF_PASS as int
    } else {
        SCORE_GOOD_PASS as int
    }
}

/// The ratings and the kicks as plain values.
pub struct PassesView {
    /// The rating of each player of the first side.
    pub ascores: Seq<int>,
    /// The rating of each player of the other side.
    pub bscores: Seq<int>,
    /// The kicks, oldest first.
    pub kicks: Seq<KickData>,
}

impl PassesView {
    /// The number of players of `side`.
    pub open spec fn count(self, side: char) -> nat {
        if side == SIDE_A {
            self.ascores.len()
        } else {
            self.bscores.len()
        }
    }

    /// Whether a kick names a player that there is.
    pub open spec fn knows(self, kick: KickData) -> bool {
        kick.playerid < self.count(kick.side)
    }

    /// Every kick names a player that there is, and no rating is further
    /// from zero than one point for each kick.
    pub open spec fn wf(self) -> bool {
        &&& self.kicks.len() <= usize::MAX
        &&& forall|i: int| 0 <= i < self.kicks.len() ==> self.knows(#[trigger] self.kicks[i])
        &&& forall|i: int|
            0 <= i < self.ascores.len() ==> -(self.kicks.len() * SCORE_POINT)
                <= #[trigger] self.ascores[i] <= self.kicks.len() * SCORE_POINT
        &&& forall|i: int|
            0 <= i < self.bscores.len() ==> -(self.kicks.len() * SCORE_POINT)
                <= #[trigger] self.bscores[i] <= self.kicks.len() * SCORE_POINT
    }

    /// The ratings after the player `playerid` of `side` was rated `score`.
    pub open spec fn rated(self, side: char, playerid: usize, score: int) -> PassesView {
        if side == SIDE_A {
            PassesView {
                ascores: self.ascores.update(
                    playerid as int,
                    self.ascores[playerid as int] + score,
                ),
                ..self
            }
        } else {
            PassesView {
                bscores: self.bscores.update(
                    playerid as int,
                    self.bscores[playerid as int] + score,
                ),
                ..self
            }
        }
    }

    /// The ratings and kicks after one more kick: the kicker before is
    /// rated, and the kick is added.
    pub open spec fn added(self, kick: KickData) -> PassesView {
        let rated = if self.kicks.len() > 0 {
            let prev = self.kicks.last();
            self.rated(prev.side, prev.playerid, spec_pass_score(prev, kick))
        } else {
            self
        };
        PassesView { kicks: self.kicks.push(kick), ..rated }
    }
}

/// The ratings of the players of both sides.
#[derive(Debug)]
struct Players {
    aplayers: Vec<(usize, i128)>,
    bplayers: Vec<(usize, i128)>,
}

/// The ratings of a list of players as plain values.
pub open spec fn scores_view(players: Seq<(usize, i128)>) -> Seq<int> {
    players.map_values(|p: (usize, i128)| p.1 as int)
}

/// A list of `cnt` players, numbered from zero and rated zero.
fn unrated(cnt: usize) -> (players: Vec<(usize, i128)>)
    ensures
        players.len() == cnt,
        forall|i: int| 0 <= i < cnt ==> #[trigger] players[i] == (i as usize, 0i128),
{
    let mut players: Vec<(usize, i128)> = Vec::new();
    let mut i: usize = 0;
    while i < cnt
        invariant
            i <= cnt,
            players.len() == i,
            forall|j: int| 0 <= j < i ==> #[trigger] players[j] == (j as usize, 0i128),
        decreases cnt - i,
    {
        players.push((i, 0));
        i += 1;
    }
    players
}

/// The highest rating among `players`.
fn score_max_of(players: &Vec<(usize, i128)>) -> (max: i128)
    ensures
        max == highest(scores_view(players@), i128::MIN as int),
{
    let ghost values = scores_view(players@);
    let mut max = i128::MIN;
    let mut i: usize = 0;
    while i < players.len()
        invariant
            i <= players.len(),
            values == scores_view(players@),
            max == highest(values.take(i as int), i128::MIN as int),
        decreases players.len() - i,
    {
        let player = players[i];
        if max < player.1 {
            max = player.1;
        }
        proof {
            assert(values.take(i + 1).drop_last() =~= values.take(i as int));
        }
        i += 1;
    }
    assert(values.take(i as int) =~= values);
    max
}

impl Players {
    fn new(acnt: usize, bcnt: usize) -> (players: Players)
        ensures
            players.aplayers.len() == acnt,
            players.bplayers.len() == bcnt,
            forall|i: int| 0 <= i < acnt ==> (#[trigger] players.aplayers[i]).1 == 0,
            forall|i: int| 0 <= i < bcnt ==> (#[trigger] players.bplayers[i]).1 == 0,
    {
        Players { aplayers: unrated(acnt), bplayers: unrated(bcnt) }
    }

    /// Adds `score` to the rating of the player `playerid` of `side`.
    fn score(&mut self, side: char, playerid: usize, score: i64)
        requires
            playerid < (if side == SIDE_A {
                old(self).aplayers.len()
            } else {
                old(self).bplayers.len()
            }),
            i128::MIN <= (if side == SIDE_A {
                old(self).aplayers[playerid as int].1
            } else {
                old(self).bplayers[playerid as int].1
            }) + score <= i128::MAX,
        ensures
            side == SIDE_A ==> scores_view(final(self).aplayers@) == scores_view(
                old(self).aplayers@,
            ).update(playerid as int, scores_view(old(self).aplayers@)[playerid as int] + score)
                && final(self).bplayers == old(self).bplayers,
            side != SIDE_A ==> scores_view(final(self).bplayers@) == scores_view(
                old(self).bplayers@,
            ).update(playerid as int, scores_view(old(self).bplayers@)[playerid as int] + score)
                && final(self).aplayers == old(self).aplayers,
    {
        if side == SIDE_A {
            let player = self.aplayers[playerid];
            self.aplayers[playerid] = (player.0, player.1 + score as i128);
            assert(scores_view(self.aplayers@) =~= scores_view(old(self).aplayers@).update(
                playerid as int,
                scores_view(old(self).aplayers@)[playerid as int] + score,
            ));
        } else {
            let player = self.bplayers[playerid];
            self.bplayers[playerid] = (player.0, player.1 + score as i128);
            assert(scores_view(self.bplayers@) =~= scores_view(old(self).bplayers@).update(
                playerid as int,
                scores_view(old(self).bplayers@)[playerid as int] + score,
            ));
        }
    }

    /// The highest rating among the players of each side.
    fn score_max(&self) -> (r: (i128, i128))
        ensures
            r.0 == highest(scores_view(self.aplayers@), i128::MIN as int),
            r.1 == highest(scores_view(self.bplayers@), i128::MIN as int),
    {
        (score_max_of(&self.aplayers), score_max_of(&self.bplayers))
    }
}

/// The kicks of a game and the rating of each player's passes.
#[derive(Debug)]
pub struct Passes {
    players: Players,
    kicks: Vec<KickData>,
}

impl View for Passes {
    type V = PassesView;

    closed spec fn view(&self) -> PassesView {
        PassesView {
            ascores: scores_view(self.players.aplayers@),
            bscores: scores_view(self.players.bplayers@),
            kicks: self.kicks@,
        }
    }
}

impl Passes {
    /// Whether the ratings and kicks are well formed.
    pub open spec fn wf(&self) -> bool {
        self@.wf()
    }

    /// The ratings of `acnt` players of the first side and `bcnt` of the
    /// other, all zero, and no kick.
    pub fn new(acnt: usize, bcnt: usize) -> (passes: Passes)
        ensures
            passes.wf(),
            passes@.kicks == Seq::<KickData>::empty(),
            passes@.ascores == Seq::new(acnt as nat, |i: int| 0int),
            passes@.bscores == Seq::new(bcnt as nat, |i: int| 0int),
    {
        let passes = Passes { players: Players::new(acnt, bcnt), kicks: Vec::new() };
        assert(passes@.ascores =~= Seq::new(acnt as nat, |i: int| 0int));
        assert(passes@.bscores =~= Seq::new(bcnt as nat, |i: int| 0int));
        passes
    }

    /// Whether `kick` names a player that there is.
    pub fn knows(&self, kick: &KickData) -> (b: bool)
        ensures
            b == self@.knows(*kick),
    {
        if kick.side == SIDE_A {
            kick.playerid < self.players.aplayers.len()
        } else {
            kick.playerid < self.players.bplayers.len()
        }
    }

    /// Adds a kick, and rates the kicker before it: a pass to a team mate,
    /// a second kick of their own, or a ball lost to the other side.
    pub fn add_kick(&mut self, kick: KickData)
        requires
            old(self).wf(),
            old(self)@.knows(kick),
        ensures
            final(self).wf(),
            final(self)@ == old(self)@.added(kick),
    {
        let ik = self.kicks.len();
        let ghost before = self@;
        self.kicks.push(kick);
        let n = self.kicks.len();
        proof {
            assert(before.kicks.len() * SCORE_POINT + SCORE_POINT == (before.kicks.len() + 1)
                * SCORE_POINT) by (nonlinear_arith);
            assert((before.kicks.len() + 1) * SCORE_POINT <= 0x1_0000_0000_0000_0000
                * SCORE_POINT) by (nonlinear_arith)
                requires
                    before.kicks.len() + 1 <= 0x1_0000_0000_0000_0000,
            ;
        }
        if ik > 0 {
            let prev = self.kicks[ik - 1];
            assert(before.knows(before.kicks[ik - 1]));
            let score = if prev.side != kick.side {
                SCORE_BAD_PASS
            } else if prev.playerid == kick.playerid {
                SCORE_SELF_PASS
            } else {
                SCORE_GOOD_PASS
            };
            proof {
                if prev.side == SIDE_A {
                    assert(-(before.kicks.len() * SCORE_POINT) <= before.ascores[prev.playerid as int]
                        <= before.kicks.len() * SCORE_POINT);
                } else {
                    assert(-(before.kicks.len() * SCORE_POINT) <= before.bscores[prev.playerid as int]
                        <= before.kicks.len() * SCORE_POINT);
                }
            }
            self.players.score(prev.side, prev.playerid, score);
        }
        proof {
            let after = self@;
            assert(after.kicks =~= before.kicks.push(kick));
            assert forall|i: int| 0 <= i < after.kicks.len() implies after.knows(
                #[trigger] after.kicks[i],
            ) by {
                if i < before.kicks.len() {
                    assert(before.knows(before.kicks[i]));
                }
            }
            assert forall|i: int| 0 <= i < after.ascores.len() implies -(after.kicks.len()
                * SCORE_POINT) <= #[trigger] after.ascores[i] <= after.kicks.len()
                * SCORE_POINT by {
                assert(-(before.kicks.len() * SCORE_POINT) <= before.ascores[i]
                    <= before.kicks.len() * SCORE_POINT);
            }
            assert forall|i: int| 0 <= i < after.bscores.len() implies -(after.kicks.len()
                * SCORE_POINT) <= #[trigger] after.bscores[i] <= after.kicks.len()
                * SCORE_POINT by {
                assert(-(before.kicks.len() * SCORE_POINT) <= before.bscores[i]
                    <= before.kicks.len() * SCORE_POINT);
            }
        }
    }

    /// The highest rating among the players of each side; the smallest
    /// number for a side without players.
    pub fn score_max(&self) -> (r: (i128, i128))
        ensures
            r.0 == highest(self@.ascores, i128::MIN as int),
            r.1 == highest(self@.bscores, i128::MIN as int),
    {
        self.players.score_max()
    }

    /// The rating of each player of the first side and of the other.
    pub fn scores(&self) -> (r: (Vec<i128>, Vec<i128>))
        ensures
            r.0@.map_values(|v: i128| v as int) == self@.ascores,
            r.1@.map_values(|v: i128| v as int) == self@.bscores,
    {
        (ratings(&self.players.aplayers), ratings(&self.players.bplayers))
    }
}

/// The ratings of a list of players.
fn ratings(players: &Vec<(usize, i128)>) -> (r: Vec<i128>)
    ensures
        r@.map_values(|v: i128| v as int) == scores_view(players@),
{
    let mut r: Vec<i128> = Vec::new();
    let mut i: usize = 0;
    while i < players.len()
        invariant
            i <= players.len(),
            r.len() == i,
            forall|j: int| 0 <= j < i ==> #[trigger] r[j] == players[j].1,
        decreases players.len() - i,
    {
        r.push(players[i].1);
        i += 1;
    }
    assert(r@.map_values(|v: i128| v as int) =~= scores_view(players@));
    r
}

} // verus!
