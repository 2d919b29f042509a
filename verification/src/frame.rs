//! What crediting leaves alone: the rules change scores, and neither who
//! plays, nor where a player is, nor what a player's statistics count.

use vstd::prelude::*;
use crate::action::{
    spec_percent,
    AIAction,
    ActionView,
    HAReturn,
    HA_LOOKBACK_MAX,
    SCORE_SELF_PASS_RATIO,
};
use crate::engine::{all_recordable, lemma_recordable_same_rosters, recordable};
use crate::entities::{spec_is_xplayerid, SIDE_L, SIDE_R};
use crate::geometry::Pos;
use crate::rules::{
    attributed,
    both_scored,
    catch_teams,
    entered,
    goal_chain_teams,
    goal_result,
    goal_teams,
    in_lookback,
    kick_teams,
    spec_lookback,
    tackle_teams,
};
use crate::teams::{
    index_of,
    lemma_index_of,
    lemma_replaced_ids,
    lemma_roster_has,
    PlayerView,
    TeamsView,
};

verus! {

/// The player `a` is the player `b` at the same position and with the
/// same statistics; the scores may differ.
pub open spec fn same_stats(a: PlayerView, b: PlayerView) -> bool {
    &&& a.id == b.id
    &&& a.pos == b.pos
    &&& a.score.dist == b.score.dist
    &&& a.score.kicks == b.score.kicks
    &&& a.score.tackles == b.score.tackles
    &&& a.score.catches == b.score.catches
}

/// The players `a` are the players `b`, each at the same position and with
/// the same statistics.
pub open spec fn all_same_stats(a: Seq<PlayerView>, b: Seq<PlayerView>) -> bool {
    &&& a.len() == b.len()
    &&& forall|j: int| 0 <= j < a.len() ==> same_stats(#[trigger] a[j], b[j])
}

/// The teams `a` have the rosters and the players of the teams `b`, each
/// player at the same position and with the same statistics.
pub open spec fn stats_kept(a: TeamsView, b: TeamsView) -> bool {
    &&& a.lpids == b.lpids
    &&& a.rpids == b.rpids
    &&& all_same_stats(a.lplayers, b.lplayers)
    &&& all_same_stats(a.rplayers, b.rplayers)
}

/// Teams with the rosters and players of well-ordered teams are well
/// ordered, have each player in the same place, and have room for a count
/// or a way where the others have.
pub proof fn lemma_stats_kept(a: TeamsView, b: TeamsView)
    requires
        stats_kept(a, b),
        b.ids_wf(),
    ensures
        a.ids_wf(),
        forall|side: char, id: Seq<char>| #[trigger] a.has(side, id) == b.has(side, id),
        forall|side: char, id: Seq<char>|
            b.has(side, id) ==> same_stats(#[trigger] a.player(side, id), b.player(side, id)),
        forall|side: char, id: Seq<char>, atype: AIAction|
            b.admits(side, id) ==> #[trigger] a.can_count(side, id, atype) == b.can_count(
                side,
                id,
                atype,
            ),
        forall|side: char, id: Seq<char>, npos: Pos|
            b.admits(side, id) ==> #[trigger] a.can_move(side, id, npos) == b.can_move(
                side,
                id,
                npos,
            ),
{
    lemma_same_ids(a.lplayers, b.lplayers, a.lpids);
    lemma_same_ids(a.rplayers, b.rplayers, a.rpids);
    assert forall|side: char, id: Seq<char>| #[trigger] a.has(side, id) == b.has(side, id) by {
        lemma_same_ids(a.players(side), b.players(side), a.pids(side));
    }
    assert forall|side: char, id: Seq<char>| b.has(side, id) implies same_stats(
        #[trigger] a.player(side, id),
        b.player(side, id),
    ) by {
        lemma_same_ids(a.players(side), b.players(side), a.pids(side));
        let i = index_of(b.players(side), id);
        assert(same_stats(a.players(side)[i], b.players(side)[i]));
        lemma_index_of(a.players(side), i);
    }
    assert forall|side: char, id: Seq<char>, atype: AIAction| b.admits(side, id) implies (
    #[trigger] a.can_count(side, id, atype)) == b.can_count(side, id, atype) by {
        if !spec_is_xplayerid(id) {
            lemma_roster_has(b, side, id);
            assert(same_stats(a.player(side, id), b.player(side, id)));
        }
    }
    assert forall|side: char, id: Seq<char>, npos: Pos| b.admits(side, id) implies (
    #[trigger] a.can_move(side, id, npos)) == b.can_move(side, id, npos) by {
        if !spec_is_xplayerid(id) {
            lemma_roster_has(b, side, id);
            assert(same_stats(a.player(side, id), b.player(side, id)));
        }
    }
}

/// Players with the identifiers of players that are those of a roster and
/// distinct are so too, and hold the same identifiers.
pub proof fn lemma_same_ids(a: Seq<PlayerView>, b: Seq<PlayerView>, pids: Seq<Seq<char>>)
    requires
        all_same_stats(a, b),
        crate::teams::distinct_ids(b),
        crate::teams::same_ids(pids, b),
    ensures
        crate::teams::distinct_ids(a),
        crate::teams::same_ids(pids, a),
        forall|id: Seq<char>|
            crate::teams::has_player(b, id) == #[trigger] crate::teams::has_player(a, id),
{
    assert forall|i: int, j: int| 0 <= i < j < a.len() implies (#[trigger] a[i]).id != (
    #[trigger] a[j]).id by {
        assert(same_stats(a[i], b[i]) && same_stats(a[j], b[j]));
    }
    assert forall|id: Seq<char>| crate::teams::has_player(b, id) == #[trigger]
        crate::teams::has_player(a, id) by {
        if crate::teams::has_player(b, id) {
            let k = index_of(b, id);
            assert(same_stats(a[k], b[k]));
        }
        if crate::teams::has_player(a, id) {
            let k = index_of(a, id);
            assert(same_stats(a[k], b[k]));
        }
    }
    assert forall|i: int| 0 <= i < pids.len() implies crate::teams::has_player(
        a,
        #[trigger] pids[i],
    ) by {
        assert(crate::teams::has_player(b, pids[i]));
    }
    assert forall|j: int| 0 <= j < a.len() implies pids.contains((#[trigger] a[j]).id) by {
        assert(same_stats(a[j], b[j]));
        assert(pids.contains(b[j].id));
    }
}

/// Where `a` keeps the statistics of `b`, and `b` those of `c`, `a` keeps
/// those of `c`.
pub proof fn lemma_stats_chain(a: TeamsView, b: TeamsView, c: TeamsView)
    requires
        stats_kept(a, b),
        stats_kept(b, c),
    ensures
        stats_kept(a, c),
{
    assert forall|j: int| 0 <= j < a.lplayers.len() implies same_stats(
        #[trigger] a.lplayers[j],
        c.lplayers[j],
    ) by {
        assert(same_stats(a.lplayers[j], b.lplayers[j]));
        assert(same_stats(b.lplayers[j], c.lplayers[j]));
    }
    assert forall|j: int| 0 <= j < a.rplayers.len() implies same_stats(
        #[trigger] a.rplayers[j],
        c.rplayers[j],
    ) by {
        assert(same_stats(a.rplayers[j], b.rplayers[j]));
        assert(same_stats(b.rplayers[j], c.rplayers[j]));
    }
}

/// A change of a player's score keeps every player's statistics.
pub proof fn lemma_scored_keeps_stats(t: TeamsView, side: char, id: Seq<char>)
    requires
        t.ids_wf(),
        t.admits(side, id),
    ensures
        forall|time: usize, delta: int| #[trigger] stats_kept(t.scored(time, side, id, delta), t),
{
    assert forall|time: usize, delta: int| #[trigger]
        stats_kept(t.scored(time, side, id, delta), t) by {
        if !spec_is_xplayerid(id) {
            lemma_roster_has(t, side, id);
            let p = t.player(side, id).scored(time, delta);
            lemma_replaced_ids(t, side, id, p);
            let r = t.replaced(side, id, p);
            let i = index_of(t.players(side), id);
            assert(r.players(side) == t.players(side).update(i, p));
            let other = if side == SIDE_L {
                SIDE_R
            } else {
                SIDE_L
            };
            assert(r.players(other) == t.players(other));
        }
    }
}

/// Crediting the players of two actions keeps every player's statistics.
pub proof fn lemma_both_scored_keeps_stats(
    t: TeamsView,
    prev: ActionView,
    cur: ActionView,
    pp: int,
    cp: int,
)
    requires
        t.ids_wf(),
        t.admits(prev.side, prev.playerid),
        t.admits(cur.side, cur.playerid),
    ensures
        stats_kept(both_scored(t, prev, cur, pp, cp), t),
{
    lemma_scored_keeps_stats(t, prev.side, prev.playerid);
    let first = t.scored(cur.time, prev.side, prev.playerid, pp);
    assert(stats_kept(first, t));
    lemma_stats_kept(first, t);
    lemma_scored_keeps_stats(first, cur.side, cur.playerid);
    lemma_stats_chain(first.scored(cur.time, cur.side, cur.playerid, cp), first, t);
}

/// Scoring a kick, a tackle or a catch against the action before it keeps
/// every player's statistics.
pub proof fn lemma_touch_keeps_stats(t: TeamsView, prev: ActionView, cur: ActionView)
    requires
        t.ids_wf(),
        t.admits(prev.side, prev.playerid),
        t.admits(cur.side, cur.playerid),
    ensures
        stats_kept(kick_teams(t, prev, cur), t),
        stats_kept(tackle_teams(t, prev, cur), t),
        stats_kept(catch_teams(t, prev, cur), t),
{
    lemma_scored_keeps_stats(t, cur.side, cur.playerid);
    lemma_both_scored_keeps_stats(t, prev, cur, cur.action.own_prev(), cur.action.own_cur());
    lemma_both_scored_keeps_stats(t, prev, cur, cur.action.other_prev(), cur.action.other_cur());
    lemma_both_scored_keeps_stats(
        t,
        prev,
        cur,
        spec_percent(cur.action.own_prev(), SCORE_SELF_PASS_RATIO as int),
        spec_percent(cur.action.own_cur(), SCORE_SELF_PASS_RATIO as int),
    );
    assert(stats_kept(
        t.scored(
            cur.time,
            cur.side,
            cur.playerid,
            spec_percent(cur.action.own_cur(), SCORE_SELF_PASS_RATIO as int),
        ),
        t,
    ));
    assert(stats_kept(t, t));
}

/// The search for a goal's chain keeps every player's statistics.
pub proof fn lemma_goal_chain_keeps_stats(
    teams: TeamsView,
    actions: Seq<ActionView>,
    cur: ActionView,
    lookbackcnt: int,
)
    requires
        teams.ids_wf(),
        all_recordable(teams, actions),
        teams.admits(cur.side, cur.playerid),
    ensures
        stats_kept(goal_chain_teams(teams, actions, cur, lookbackcnt), teams),
    decreases HA_LOOKBACK_MAX + 1 - lookbackcnt,
{
    assert(stats_kept(teams, teams));
    if in_lookback(actions, lookbackcnt) {
        let prev = spec_lookback(actions, lookbackcnt);
        assert(recordable(teams, actions[actions.len() - lookbackcnt]));
        lemma_scored_keeps_stats(teams, cur.side, cur.playerid);
        lemma_scored_keeps_stats(teams, prev.side, prev.playerid);
        let next = goal_teams(teams, prev, cur, lookbackcnt);
        assert(stats_kept(next, teams));
        if goal_result(prev, cur, lookbackcnt) == HAReturn::ContinueSearch {
            lemma_stats_kept(next, teams);
            lemma_recordable_same_rosters(teams, next, actions);
            lemma_goal_chain_keeps_stats(next, actions, cur, lookbackcnt + 1);
            lemma_stats_chain(
                goal_chain_teams(next, actions, cur, lookbackcnt + 1),
                next,
                teams,
            );
        }
    }
}

/// A sighting of a player keeps the player's counts of actions.
pub proof fn lemma_moved_keeps_counts(
    t: TeamsView,
    side: char,
    id: Seq<char>,
    npos: Pos,
    atype: AIAction,
)
    requires
        t.ids_wf(),
        t.admits(side, id),
    ensures
        t.moved(side, id, npos).can_count(side, id, atype) == t.can_count(side, id, atype),
        t.moved(side, id, npos).lpids == t.lpids,
        t.moved(side, id, npos).rpids == t.rpids,
{
    if !spec_is_xplayerid(id) {
        lemma_roster_has(t, side, id);
        lemma_replaced_ids(t, side, id, t.player(side, id).moved(npos));
    }
}

/// Holding a new action against the actions before it keeps every
/// player's statistics.
pub proof fn lemma_attributed_keeps_stats(
    teams: TeamsView,
    actions: Seq<ActionView>,
    cur: ActionView,
)
    requires
        teams.ids_wf(),
        all_recordable(teams, actions),
        teams.admits(cur.side, cur.playerid),
        teams.admits(entered(actions, cur).side, entered(actions, cur).playerid),
    ensures
        stats_kept(attributed(teams, actions, cur), teams),
{
    assert(stats_kept(teams, teams));
    if actions.len() > 0 && cur.action != AIAction::NoAction {
        let prev = actions.last();
        assert(recordable(teams, actions[actions.len() - 1]));
        let timed = teams.ball_timed(prev, cur);
        assert(stats_kept(timed, teams));
        lemma_stats_kept(timed, teams);
        lemma_touch_keeps_stats(timed, prev, cur);
        lemma_recordable_same_rosters(teams, timed, actions);
        if cur.action == AIAction::Goal {
            lemma_goal_chain_keeps_stats(timed, actions, entered(actions, cur), 1);
        }
        lemma_stats_chain(attributed(teams, actions, cur), timed, teams);
    }
}

} // verus!
