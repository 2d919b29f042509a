//! The rules by which a new action is held against an earlier one: who is
//! credited with how much, whether the new action is kept as a significant
//! one, and which sequences of actions cannot be.

use vstd::prelude::*;
use crate::action::{
    spec_goal_chain_otherside_share,
    spec_goal_chain_share,
    spec_percent,
    spec_self_goal_share,
    AIAction,
    ActionView,
    HAReturn,
    GOAL_CHAIN_TIME,
    HA_LOOKBACK_MAX,
    REPEAT_TACKLE_MINTIME,
    SCORE_SELF_PASS_RATIO,
    SELF_PASS_MINTIME,
};
use crate::entities::{spec_is_xplayerid, spec_oops_otherside_id};
use crate::teams::TeamsView;

verus! {

/// Whether an action of this kind touches the ball without ending play: a
/// kick, a tackle or a catch.
pub open spec fn is_touch(kind: AIAction) -> bool {
    kind == AIAction::Kick || kind == AIAction::Tackle || kind == AIAction::Catch
}

/// The teams after the player of `prev` got `pp` and the player of `cur`
/// got `cp`, both at the time of `cur`.
pub open spec fn both_scored(
    teams: TeamsView,
    prev: ActionView,
    cur: ActionView,
    pp: int,
    cp: int,
) -> TeamsView {
    teams.scored(cur.time, prev.side, prev.playerid, pp).scored(
        cur.time,
        cur.side,
        cur.playerid,
        cp,
    )
}

/// The teams after both players got the shares of the new action's kind:
/// those for one side where both are of one side, the others otherwise.
pub open spec fn pair_scored(teams: TeamsView, prev: ActionView, cur: ActionView) -> TeamsView {
    if prev.side == cur.side {
        both_scored(teams, prev, cur, cur.action.own_prev(), cur.action.own_cur())
    } else {
        both_scored(teams, prev, cur, cur.action.other_prev(), cur.action.other_cur())
    }
}

/// A kick cannot follow what is no action, nor a goal of its own side.
pub open spec fn kick_fatal(prev: ActionView, cur: ActionView) -> bool {
    prev.action == AIAction::NoAction || (prev.action == AIAction::Goal && prev.side == cur.side)
}

/// The new action follows a kick of the same player.
pub open spec fn is_self_pass(prev: ActionView, cur: ActionView) -> bool {
    prev.side == cur.side && prev.playerid == cur.playerid && prev.action == AIAction::Kick
}

/// The new action follows a kick of the same player too soon to count.
pub open spec fn is_repeat_kick(prev: ActionView, cur: ActionView) -> bool {
    is_self_pass(prev, cur) && cur.time - prev.time < SELF_PASS_MINTIME
}

/// Whether a kick that follows `prev` is kept: not if it repeats a kick too
/// soon.
pub open spec fn kick_result(prev: ActionView, cur: ActionView) -> HAReturn {
    HAReturn::Done(!is_repeat_kick(prev, cur))
}

/// The teams after a kick that follows `prev` was scored. After a goal of
/// the other side the kicker alone gets a small part of the share; a kick
/// repeated too soon gives nothing; a pass to oneself gives both shares in
/// small part; any other kick gives both players their share.
pub open spec fn kick_teams(teams: TeamsView, prev: ActionView, cur: ActionView) -> TeamsView {
    if prev.action == AIAction::Goal {
        teams.scored(
            cur.time,
            cur.side,
            cur.playerid,
            spec_percent(cur.action.own_cur(), SCORE_SELF_PASS_RATIO as int),
        )
    } else if is_repeat_kick(prev, cur) {
        teams
    } else if is_self_pass(prev, cur) {
        both_scored(
            teams,
            prev,
            cur,
            spec_percent(cur.action.own_prev(), SCORE_SELF_PASS_RATIO as int),
            spec_percent(cur.action.own_cur(), SCORE_SELF_PASS_RATIO as int),
        )
    } else {
        pair_scored(teams, prev, cur)
    }
}

/// The new action follows a tackle of the same player too soon to count.
pub open spec fn is_repeat_tackle(prev: ActionView, cur: ActionView) -> bool {
    prev.action == AIAction::Tackle && prev.side == cur.side && prev.playerid == cur.playerid
        && cur.time - prev.time < REPEAT_TACKLE_MINTIME
}

/// Whether a tackle that follows `prev` is kept: after a kick, and after a
/// tackle that it does not repeat too soon.
pub open spec fn tackle_result(prev: ActionView, cur: ActionView) -> HAReturn {
    HAReturn::Done(
        prev.action == AIAction::Kick || (prev.action == AIAction::Tackle && !is_repeat_tackle(
            prev,
            cur,
        )),
    )
}

/// The teams after a tackle that follows `prev` was scored: both players
/// get their share if the tackle is kept, nobody gets anything if not.
pub open spec fn tackle_teams(teams: TeamsView, prev: ActionView, cur: ActionView) -> TeamsView {
    if tackle_result(prev, cur) == HAReturn::Done(true) {
        pair_scored(teams, prev, cur)
    } else {
        teams
    }
}

/// Whether a catch that follows `prev` is kept: after a kick or a tackle.
pub open spec fn catch_result(prev: ActionView, cur: ActionView) -> HAReturn {
    HAReturn::Done(prev.action == AIAction::Kick || prev.action == AIAction::Tackle)
}

/// The teams after a catch that follows `prev` was scored: both players
/// get their share if the catch is kept, nobody gets anything if not.
pub open spec fn catch_teams(teams: TeamsView, prev: ActionView, cur: ActionView) -> TeamsView {
    if catch_result(prev, cur) == HAReturn::Done(true) {
        pair_scored(teams, prev, cur)
    } else {
        teams
    }
}

/// A goal cannot be held against what is no action, nor against another
/// goal, unless that one is the very last action and of the same time: then
/// the goal was reported twice.
pub open spec fn goal_fatal(prev: ActionView, cur: ActionView, lookbackcnt: int) -> bool {
    prev.action == AIAction::NoAction || (prev.action == AIAction::Goal && !(lookbackcnt <= 1
        && cur.time == prev.time))
}

/// The player of a goal once it was held against the last action `prev`: a
/// goal of an unknown player is the player's of `prev`, and a goal that the
/// other side brought about gets a reserved identifier made from that.
pub open spec fn goal_player(prev: ActionView, cur: ActionView) -> Seq<char> {
    let id = if spec_is_xplayerid(cur.playerid) {
        prev.playerid
    } else {
        cur.playerid
    };
    if prev.side == cur.side {
        id
    } else {
        spec_oops_otherside_id(id)
    }
}

/// The goal `cur` once it was held against `prev`, the action `lookbackcnt`
/// steps back: the last action, if it is no goal, says whose goal it is.
pub open spec fn goal_entered(prev: ActionView, cur: ActionView, lookbackcnt: int) -> ActionView {
    if lookbackcnt <= 1 && is_touch(prev.action) {
        ActionView { playerid: goal_player(prev, cur), ..cur }
    } else {
        cur
    }
}

/// Whether the search for a goal's chain goes on behind `prev`, the action
/// `lookbackcnt` steps back. It stops at a goal reported twice, which is
/// not kept. Behind an action of the goal's side it goes on unless that
/// action lies too far back in time. Behind an action of the other side it
/// goes on only from the last action.
pub open spec fn goal_result(prev: ActionView, cur: ActionView, lookbackcnt: int) -> HAReturn {
    if prev.action == AIAction::Goal {
        HAReturn::Done(false)
    } else if prev.side == cur.side {
        if cur.time - prev.time > GOAL_CHAIN_TIME {
            HAReturn::Done(true)
        } else {
            HAReturn::ContinueSearch
        }
    } else if lookbackcnt <= 1 {
        HAReturn::ContinueSearch
    } else {
        HAReturn::Done(true)
    }
}

/// The teams after the goal `cur`, as entered, was held against `prev`, the
/// action `lookbackcnt` steps back. An action of the goal's side earns the
/// chain's share of that step: at the first step for the goal's player, at
/// later ones for the player of `prev`. An action of the other side costs
/// the player of `prev`: at the first step what an own goal costs, at later
/// ones a part of the chain's share.
pub open spec fn goal_teams(
    teams: TeamsView,
    prev: ActionView,
    cur: ActionView,
    lookbackcnt: int,
) -> TeamsView {
    if prev.action == AIAction::Goal {
        teams
    } else if prev.side == cur.side {
        teams.scored(
            cur.time,
            cur.side,
            if lookbackcnt <= 1 {
                cur.playerid
            } else {
                prev.playerid
            },
            spec_goal_chain_share(lookbackcnt),
        )
    } else if lookbackcnt <= 1 {
        teams.scored(
            cur.time,
            prev.side,
            prev.playerid,
            spec_self_goal_share(prev.action),
        )
    } else {
        teams.scored(
            cur.time,
            prev.side,
            prev.playerid,
            spec_goal_chain_otherside_share(lookbackcnt),
        )
    }
}

/// The action `lookbackcnt` steps back from the end of `actions`.
pub open spec fn spec_lookback(actions: Seq<ActionView>, lookbackcnt: int) -> ActionView {
    actions[actions.len() - lookbackcnt]
}

/// Whether the search for a goal's chain, at step `lookbackcnt`, still has
/// an action to look at.
pub open spec fn in_lookback(actions: Seq<ActionView>, lookbackcnt: int) -> bool {
    1 <= lookbackcnt <= actions.len() && lookbackcnt <= HA_LOOKBACK_MAX
}

/// The teams after the search for the chain of the goal `cur`, as entered,
/// went on from step `lookbackcnt` to its end.
pub open spec fn goal_chain_teams(
    teams: TeamsView,
    actions: Seq<ActionView>,
    cur: ActionView,
    lookbackcnt: int,
) -> TeamsView
    decreases HA_LOOKBACK_MAX + 1 - lookbackcnt,
{
    if !in_lookback(actions, lookbackcnt) {
        teams
    } else {
        let prev = spec_lookback(actions, lookbackcnt);
        let next = goal_teams(teams, prev, cur, lookbackcnt);
        if goal_result(prev, cur, lookbackcnt) == HAReturn::ContinueSearch {
            goal_chain_teams(next, actions, cur, lookbackcnt + 1)
        } else {
            next
        }
    }
}

/// Whether the search for the chain of the goal `cur`, going on from step
/// `lookbackcnt`, comes upon an action that a goal cannot be held against.
pub open spec fn goal_chain_fatal(
    actions: Seq<ActionView>,
    cur: ActionView,
    lookbackcnt: int,
) -> bool
    decreases HA_LOOKBACK_MAX + 1 - lookbackcnt,
{
    if !in_lookback(actions, lookbackcnt) {
        false
    } else {
        let prev = spec_lookback(actions, lookbackcnt);
        if goal_fatal(prev, cur, lookbackcnt) {
            true
        } else if goal_result(prev, cur, lookbackcnt) == HAReturn::ContinueSearch {
            goal_chain_fatal(actions, cur, lookbackcnt + 1)
        } else {
            false
        }
    }
}

/// Whether a goal that follows the actions `actions` is kept: if the first
/// step of the search decides, as it says; else if the search got beyond
/// the first step.
pub open spec fn goal_recorded(actions: Seq<ActionView>, cur: ActionView) -> bool {
    if actions.len() == 0 {
        false
    } else {
        match goal_result(actions.last(), cur, 1) {
            HAReturn::Done(save) => save,
            HAReturn::ContinueSearch => actions.len() >= 2,
        }
    }
}

/// Whether the new action `cur` cannot follow the actions `actions`.
pub open spec fn fatal(actions: Seq<ActionView>, cur: ActionView) -> bool {
    if actions.len() == 0 {
        false
    } else {
        match cur.action {
            AIAction::NoAction => false,
            AIAction::Kick => kick_fatal(actions.last(), cur),
            AIAction::Tackle => actions.last().action == AIAction::NoAction,
            AIAction::Catch => actions.last().action == AIAction::NoAction,
            AIAction::Goal => goal_chain_fatal(actions, cur, 1),
        }
    }
}

/// The new action as it is entered in the histories: a goal with the
/// player that the last action gives it, any other action as it came.
pub open spec fn entered(actions: Seq<ActionView>, cur: ActionView) -> ActionView {
    if cur.action == AIAction::Goal && actions.len() > 0 {
        goal_entered(actions.last(), cur, 1)
    } else {
        cur
    }
}

/// Whether the new action is kept as a significant one. The first action
/// is kept if it is a kick.
pub open spec fn recorded(actions: Seq<ActionView>, cur: ActionView) -> bool {
    if actions.len() == 0 {
        cur.action == AIAction::Kick
    } else {
        match cur.action {
            AIAction::NoAction => false,
            AIAction::Kick => kick_result(actions.last(), cur) == HAReturn::Done(true),
            AIAction::Tackle => tackle_result(actions.last(), cur) == HAReturn::Done(true),
            AIAction::Catch => catch_result(actions.last(), cur) == HAReturn::Done(true),
            AIAction::Goal => goal_recorded(actions, cur),
        }
    }
}

/// The teams after the new action was held against the actions before it:
/// the side that had the ball since the last action gets the time, and the
/// players get what the rules of the new action's kind give them.
pub open spec fn attributed(
    teams: TeamsView,
    actions: Seq<ActionView>,
    cur: ActionView,
) -> TeamsView {
    if actions.len() == 0 || cur.action == AIAction::NoAction {
        teams
    } else {
        let prev = actions.last();
        let timed = teams.ball_timed(prev, cur);
        match cur.action {
            AIAction::NoAction => teams,
            AIAction::Kick => kick_teams(timed, prev, cur),
            AIAction::Tackle => tackle_teams(timed, prev, cur),
            AIAction::Catch => catch_teams(timed, prev, cur),
            AIAction::Goal => goal_chain_teams(timed, actions, entered(actions, cur), 1),
        }
    }
}

} // verus!
