//! Game actions: their kinds, the weights by which they are scored, and the
//! record of one action.

use vstd::prelude::*;
use crate::geometry::Pos;
use crate::playdata::Action;
use crate::score::SCORE_POINT;

verus! {

/// Two tackles of one player closer together than this count once.
pub const REPEAT_TACKLE_MINTIME: usize = 10;

/// Two kicks of one player closer together than this count once.
pub const SELF_PASS_MINTIME: usize = 10;

/// A goal's chain of actions ends behind an action that lies further back
/// in time than this.
pub const GOAL_CHAIN_TIME: usize = 30;

/// The largest number of earlier actions that a new action is held against.
pub const HA_LOOKBACK_MAX: usize = 30;

/// What a player gets for a pass to oneself, in hundredths of what a pass
/// to a team mate gives.
pub const SCORE_SELF_PASS_RATIO: i64 = 5;

/// What a goalkeeper loses for a catch that did not stop the goal, in
/// hundredths of what an own goal costs.
pub const SCORE_GOALIE_MISSED_CATCH_PENALTY_RATIO: i64 = 50;

/// What the first player of the other side in a goal's chain loses, in
/// hundredths of the chain's share at that step.
pub const SCORE_GOALCHAIN_OTHERSIDE_BEYOND_IMMEDIATE_RATIO: i64 = 30;

/// The kinds of game action.
#[derive(Debug, Clone, Copy, PartialEq, Eq, Structural)]
pub enum AIAction {
    /// No action on the ball: the player merely moved.
    NoAction,
    Kick,
    Tackle,
    Catch,
    Goal,
}

impl AIAction {
    /// The weights of a kind, in tenths: what the action is worth overall,
    /// then the parts of it that go to the earlier and to the new player
    /// where both are of one side, then the parts where they are not.
    pub open spec fn spec_scoring(self) -> (int, int, int, int, int) {
        match self {
            AIAction::NoAction => (0, 0, 0, 0, 0),
            AIAction::Kick => (6, 5, 5, -8, 8),
            AIAction::Tackle => (4, 5, 5, -4, 6),
            AIAction::Catch => (10, 4, 4, 2, 8),
            AIAction::Goal => (10, 10, 0, -10, 0),
        }
    }

    /// What the earlier player gets where both players are of one side, in
    /// score units.
    pub open spec fn own_prev(self) -> int {
        self.spec_scoring().0 * self.spec_scoring().1 * (SCORE_POINT / 100)
    }

    /// What the new player gets where both players are of one side.
    pub open spec fn own_cur(self) -> int {
        self.spec_scoring().0 * self.spec_scoring().2 * (SCORE_POINT / 100)
    }

    /// What the earlier player gets where the players are of different sides.
    pub open spec fn other_prev(self) -> int {
        self.spec_scoring().0 * self.spec_scoring().3 * (SCORE_POINT / 100)
    }

    /// What the new player gets where the players are of different sides.
    pub open spec fn other_cur(self) -> int {
        self.spec_scoring().0 * self.spec_scoring().4 * (SCORE_POINT / 100)
    }

    /// The weights of a kind, in tenths: see [`AIAction::spec_scoring`].
    pub fn scoring(&self) -> (w: (i64, i64, i64, i64, i64))
        ensures
            w.0 == self.spec_scoring().0,
            w.1 == self.spec_scoring().1,
            w.2 == self.spec_scoring().2,
            w.3 == self.spec_scoring().3,
            w.4 == self.spec_scoring().4,
    {
        match self {
            AIAction::NoAction => (0, 0, 0, 0, 0),
            AIAction::Kick => (6, 5, 5, -8, 8),
            AIAction::Tackle => (4, 5, 5, -4, 6),
            AIAction::Catch => (10, 4, 4, 2, 8),
            AIAction::Goal => (10, 10, 0, -10, 0),
        }
    }

    /// The four shares of a kind in score units: for the earlier and the new
    /// player of one side, then for the earlier and the new player of
    /// different sides.
    pub fn shares(&self) -> (s: (i64, i64, i64, i64))
        ensures
            s.0 == self.own_prev(),
            s.1 == self.own_cur(),
            s.2 == self.other_prev(),
            s.3 == self.other_cur(),
            is_share(s.0 as int),
            is_share(s.1 as int),
            is_share(s.2 as int),
            is_share(s.3 as int),
    {
        let w = self.scoring();
        let unit: i64 = SCORE_POINT / 100;
        assert(-100 <= w.0 * w.1 <= 100 && -100 <= w.0 * w.2 <= 100 && -100 <= w.0 * w.3 <= 100
            && -100 <= w.0 * w.4 <= 100) by (nonlinear_arith)
            requires
                0 <= w.0 <= 10,
                -10 <= w.1 <= 10,
                -10 <= w.2 <= 10,
                -10 <= w.3 <= 10,
                -10 <= w.4 <= 10,
        ;
        let a: i64 = w.0 * w.1;
        let b: i64 = w.0 * w.2;
        let c: i64 = w.0 * w.3;
        let d: i64 = w.0 * w.4;
        assert(-100 * unit <= a * unit <= 100 * unit && -100 * unit <= b * unit <= 100 * unit
            && -100 * unit <= c * unit <= 100 * unit && -100 * unit <= d * unit <= 100 * unit)
            by (nonlinear_arith)
            requires
                unit >= 0,
                -100 <= a <= 100,
                -100 <= b <= 100,
                -100 <= c <= 100,
                -100 <= d <= 100,
        ;
        proof {
            lemma_is_share(a as int);
            lemma_is_share(b as int);
            lemma_is_share(c as int);
            lemma_is_share(d as int);
        }
        (a * unit, b * unit, c * unit, d * unit)
    }

    /// The kind of action on the ball that a player's action in a record
    /// stands for: a clean kick, catch or tackle is one, anything else is
    /// none.
    pub open spec fn spec_from_play(action: Action) -> AIAction {
        match action {
            Action::Kick(true) => AIAction::Kick,
            Action::Catch(true) => AIAction::Catch,
            Action::Tackle(true) => AIAction::Tackle,
            _ => AIAction::NoAction,
        }
    }

    /// The kind of action on the ball that a player's action in a record
    /// stands for.
    pub fn from_play(action: Action) -> (kind: AIAction)
        ensures
            kind == AIAction::spec_from_play(action),
    {
        match action {
            Action::Kick(true) => AIAction::Kick,
            Action::Catch(true) => AIAction::Catch,
            Action::Tackle(true) => AIAction::Tackle,
            _ => AIAction::NoAction,
        }
    }

    /// The kind's name.
    pub fn name(&self) -> (s: &'static str)
        ensures
            s@ == (match *self {
                AIAction::NoAction => "None"@,
                AIAction::Kick => "Kick"@,
                AIAction::Tackle => "Tackle"@,
                AIAction::Catch => "Catch"@,
                AIAction::Goal => "Goal"@,
            }),
    {
        match self {
            AIAction::NoAction => "None",
            AIAction::Kick => "Kick",
            AIAction::Tackle => "Tackle",
            AIAction::Catch => "Catch",
            AIAction::Goal => "Goal",
        }
    }
}

/// `part` hundredths of `amount`.
pub open spec fn spec_percent(amount: int, part: int) -> int {
    amount * part / 100
}

/// `amount` is a whole number of hundredths of a point, and at most one
/// point either way.
pub open spec fn is_share(amount: int) -> bool {
    &&& -SCORE_POINT <= amount <= SCORE_POINT
    &&& amount % (SCORE_POINT as int / 100) == 0
}

/// A whole number of hundredths of a point, at most a hundred of them
/// either way, is a share.
pub proof fn lemma_is_share(n: int)
    requires
        -100 <= n <= 100,
    ensures
        is_share(n * (SCORE_POINT / 100)),
{
    let unit: int = SCORE_POINT as int / 100;
    assert(-100 * unit <= n * unit <= 100 * unit) by (nonlinear_arith)
        requires
            -100 <= n <= 100,
            unit > 0,
    ;
    vstd::arithmetic::div_mod::lemma_mod_multiples_basic(n, unit);
}

/// A hundredth of a share is a whole number of score units, so no part of
/// a share in hundredths is rounded.
pub proof fn lemma_percent_of_share(amount: int, part: int)
    requires
        is_share(amount),
    ensures
        amount % 100 == 0,
        spec_percent(amount, part) == amount / 100 * part,
        0 <= part <= 100 ==> -SCORE_POINT <= spec_percent(amount, part) <= SCORE_POINT,
{
    let unit: int = SCORE_POINT as int / 100;
    let n = amount / unit;
    assert(amount == n * unit) by (nonlinear_arith)
        requires
            amount % unit == 0,
            n == amount / unit,
            unit > 0,
    ;
    let h: int = unit / 100;
    assert(unit == 100 * h);
    assert(amount == 100 * (n * h)) by (nonlinear_arith)
        requires
            amount == n * unit,
            unit == 100 * h,
    ;
    let a = n * h;
    assert(amount * part == 100 * (a * part)) by (nonlinear_arith)
        requires
            amount == 100 * a,
    ;
    assert(amount % 100 == 0 && amount / 100 == a);
    assert((100 * (a * part)) / 100 == a * part);
    if 0 <= part <= 100 {
        assert(-SCORE_POINT <= a * part <= SCORE_POINT) by (nonlinear_arith)
            requires
                -SCORE_POINT <= 100 * a <= SCORE_POINT,
                0 <= part <= 100,
        ;
    }
}

/// `part` hundredths of a share.
pub fn percent(amount: i64, part: i64) -> (r: i64)
    requires
        is_share(amount as int),
        0 <= part <= 100,
    ensures
        r == spec_percent(amount as int, part as int),
        -SCORE_POINT <= r <= SCORE_POINT,
{
    proof {
        lemma_percent_of_share(amount as int, part as int);
    }
    amount / 100 * part
}

/// The share of a goal that goes to the player of its side `k` steps back
/// in the chain: one point divided by `k`.
pub open spec fn spec_goal_chain_share(k: int) -> int {
    AIAction::Goal.own_prev() / k
}

/// What the first player of the other side loses who is found `k` steps back
/// in a goal's chain, for `k` of two or more.
pub open spec fn spec_goal_chain_otherside_share(k: int) -> int {
    spec_percent(
        AIAction::Goal.other_prev() / k,
        SCORE_GOALCHAIN_OTHERSIDE_BEYOND_IMMEDIATE_RATIO as int,
    )
}

/// What the player of the other side loses whose action led straight to
/// the goal: all of an own goal, or part of it for a keeper's catch.
pub open spec fn spec_self_goal_share(prev: AIAction) -> int {
    if prev == AIAction::Catch {
        spec_percent(
            AIAction::Goal.other_prev(),
            SCORE_GOALIE_MISSED_CATCH_PENALTY_RATIO as int,
        )
    } else {
        AIAction::Goal.other_prev()
    }
}

/// One point is a whole multiple of 1000 times each number from 1 to 30, so
/// no share of a goal's chain is rounded.
pub proof fn lemma_score_point_divides(k: int)
    requires
        1 <= k <= HA_LOOKBACK_MAX,
    ensures
        (SCORE_POINT as int) % (1000 * k) == 0,
        (SCORE_POINT as int / 1000) % k == 0,
        (SCORE_POINT as int / 1000) / k * k * 1000 == SCORE_POINT,
{
    let l: int = SCORE_POINT as int / 1000;
    assert(l == 2_329_089_562_800);
    assert(l % 1 == 0 && l % 2 == 0 && l % 3 == 0 && l % 4 == 0 && l % 5 == 0 && l % 6 == 0);
    assert(l % 7 == 0 && l % 8 == 0 && l % 9 == 0 && l % 10 == 0 && l % 11 == 0 && l % 12 == 0);
    assert(l % 13 == 0 && l % 14 == 0 && l % 15 == 0 && l % 16 == 0 && l % 17 == 0 && l % 18
        == 0);
    assert(l % 19 == 0 && l % 20 == 0 && l % 21 == 0 && l % 22 == 0 && l % 23 == 0 && l % 24
        == 0);
    assert(l % 25 == 0 && l % 26 == 0 && l % 27 == 0 && l % 28 == 0 && l % 29 == 0 && l % 30
        == 0);
    assert(l % k == 0);
    assert(l / k * k == l) by (nonlinear_arith)
        requires
            l % k == 0,
            k > 0,
    ;
    let q = l / k;
    assert(1000 * l == q * (1000 * k)) by (nonlinear_arith)
        requires
            q * k == l,
    ;
    vstd::arithmetic::div_mod::lemma_mod_multiples_basic(q, 1000 * k);
}

/// The shares of a goal's chain `k` steps back are whole thousands of score
/// units: a thousand times the `k`-th part of a thousandth of a point for
/// the goal's side, three hundred times that part off the other side.
pub proof fn lemma_goal_chain_shares(k: int)
    requires
        1 <= k <= HA_LOOKBACK_MAX,
    ensures
        spec_goal_chain_share(k) == SCORE_POINT as int / 1000 / k * 1000,
        spec_goal_chain_share(k) * k == SCORE_POINT,
        spec_goal_chain_otherside_share(k) == -(SCORE_POINT as int / 1000 / k * 300),
        0 < spec_goal_chain_share(k) <= SCORE_POINT,
        -SCORE_POINT <= spec_goal_chain_otherside_share(k) < 0,
{
    lemma_score_point_divides(k);
    let q: int = SCORE_POINT as int / 1000 / k;
    let w = AIAction::Goal.spec_scoring();
    assert(w.0 == 10 && w.1 == 10 && w.3 == -10);
    assert(w.0 * w.1 == 100 && w.0 * w.3 == -100) by (nonlinear_arith)
        requires
            w.0 == 10 && w.1 == 10 && w.3 == -10,
    ;
    assert(AIAction::Goal.own_prev() == SCORE_POINT);
    assert(AIAction::Goal.other_prev() == -SCORE_POINT);
    assert(SCORE_POINT == (1000 * q) * k) by (nonlinear_arith)
        requires
            q * k * 1000 == SCORE_POINT,
    ;
    vstd::arithmetic::div_mod::lemma_fundamental_div_mod_converse(
        SCORE_POINT as int,
        k,
        1000 * q,
        0,
    );
    assert(-SCORE_POINT == (-1000 * q) * k) by (nonlinear_arith)
        requires
            q * k * 1000 == SCORE_POINT,
    ;
    vstd::arithmetic::div_mod::lemma_fundamental_div_mod_converse(
        -(SCORE_POINT as int),
        k,
        -1000 * q,
        0,
    );
    assert(q > 0 && q <= SCORE_POINT as int / 1000) by (nonlinear_arith)
        requires
            q * k * 1000 == SCORE_POINT,
            k >= 1,
            SCORE_POINT > 0,
    ;
    assert((-1000 * q) * 30 == 100 * (-300 * q));
    assert((100 * (-300 * q)) / 100 == -300 * q);
}

/// The share of a goal that goes to the player of its side `k` steps back
/// in the chain.
pub fn goal_chain_share(k: usize) -> (r: i64)
    requires
        1 <= k <= HA_LOOKBACK_MAX,
    ensures
        r == spec_goal_chain_share(k as int),
{
    proof {
        lemma_goal_chain_shares(k as int);
    }
    SCORE_POINT / 1000 / (k as i64) * 1000
}

/// What the first player of the other side loses who is found `k` steps back
/// in a goal's chain.
pub fn goal_chain_otherside_share(k: usize) -> (r: i64)
    requires
        1 <= k <= HA_LOOKBACK_MAX,
    ensures
        r == spec_goal_chain_otherside_share(k as int),
{
    proof {
        lemma_goal_chain_shares(k as int);
    }
    -(SCORE_POINT / 1000 / (k as i64) * 300)
}

/// What the player of the other side loses whose action of kind `prev` led
/// straight to the goal.
pub fn self_goal_share(prev: AIAction) -> (r: i64)
    ensures
        r == spec_self_goal_share(prev),
        -SCORE_POINT <= r < 0,
{
    let s = AIAction::Goal.shares();
    if prev == AIAction::Catch {
        percent(s.2, SCORE_GOALIE_MISSED_CATCH_PENALTY_RATIO)
    } else {
        s.2
    }
}

/// The record of one game action.
#[derive(Debug)]
pub struct ActionData {
    pub time: usize,
    /// The side that acted: [`crate::entities::SIDE_L`] or
    /// [`crate::entities::SIDE_R`].
    pub side: char,
    pub playerid: String,
    pub pos: Pos,
    pub action: AIAction,
}

/// The record of one game action as plain values.
pub struct ActionView {
    pub time: usize,
    pub side: char,
    pub playerid: Seq<char>,
    pub pos: Pos,
    pub action: AIAction,
}

impl View for ActionData {
    type V = ActionView;

    open spec fn view(&self) -> ActionView {
        ActionView {
            time: self.time,
            side: self.side,
            playerid: self.playerid@,
            pos: self.pos,
            action: self.action,
        }
    }
}

impl Clone for ActionData {
    fn clone(&self) -> (r: Self)
        ensures
            r == *self,
    {
        ActionData {
            time: self.time,
            side: self.side,
            playerid: self.playerid.clone(),
            pos: self.pos,
            action: self.action,
        }
    }
}

impl ActionData {
    pub fn new(time: usize, side: char, playerid: String, pos: Pos, action: AIAction) -> (a:
        ActionData)
        ensures
            a.time == time,
            a.side == side,
            a.playerid == playerid,
            a.pos == pos,
            a.action == action,
    {
        ActionData { time, side, playerid, pos, action }
    }
}

/// What to do after a new action was held against an earlier one.
#[derive(Debug, Clone, Copy, PartialEq, Eq, Structural)]
pub enum HAReturn {
    /// Go on to the action before the earlier one.
    ContinueSearch,
    /// Stop here; the flag tells whether the new action is kept as a
    /// significant one.
    Done(bool),
}

} // verus!
