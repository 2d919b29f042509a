//! What holds of the engine whatever the game: laws that follow from the
//! rules, each proved from the definitions that the contracts use.

use vstd::prelude::*;
use crate::action::{
    lemma_goal_chain_shares,
    spec_goal_chain_otherside_share,
    spec_goal_chain_share,
    spec_percent,
    spec_self_goal_share,
    AIAction,
    ActionView,
    HAReturn,
    HA_LOOKBACK_MAX,
    REPEAT_TACKLE_MINTIME,
    SCORE_SELF_PASS_RATIO,
    SELF_PASS_MINTIME,
};
use crate::engine::{
    all_recordable,
    lemma_recordable_same_rosters,
    lemma_skipped,
    recordable,
    ActionsInfoView,
};
use crate::entities::{
    lemma_reserved_ids,
    spec_is_side,
    spec_is_xplayerid,
    spec_oops_otherside_id,
    SIDE_L,
};
use crate::frame::{
    lemma_attributed_keeps_stats,
    lemma_stats_kept,
    same_stats,
    stats_kept,
};
use crate::geometry::{spec_distance, spec_is_unseen, Pos};
use crate::history::{all_before, lemma_sorted_push, lemma_subseq_last, lemma_subseq_push};
use crate::rules::{
    attributed,
    both_scored,
    catch_teams,
    entered,
    goal_chain_teams,
    goal_result,
    goal_teams,
    in_lookback,
    is_repeat_kick,
    is_repeat_tackle,
    is_touch,
    kick_teams,
    recorded,
    spec_lookback,
    tackle_teams,
};
use crate::score::{law_pscore_is_sum, sum_deltas, SCORE_POINT};
use crate::teams::{
    index_of,
    lemma_index_of,
    lemma_ops_sound,
    lemma_replaced_ids,
    lemma_roster_has,
    PlayerView,
    TeamsView,
};

verus! {

/// The scores of `players`, in their order.
pub open spec fn pscores_of(players: Seq<PlayerView>) -> Seq<int> {
    players.map_values(|p: PlayerView| p.score.pscore)
}

/// Every player has the same score in `a` as in `b`.
pub open spec fn same_pscores(a: TeamsView, b: TeamsView) -> bool {
    &&& pscores_of(a.lplayers) == pscores_of(b.lplayers)
    &&& pscores_of(a.rplayers) == pscores_of(b.rplayers)
}

/// The players of `after` are those of `before`, and none has a higher
/// score than before.
pub open spec fn no_score_above(after: Seq<PlayerView>, before: Seq<PlayerView>) -> bool {
    &&& after.len() == before.len()
    &&& forall|j: int|
        0 <= j < after.len() ==> (#[trigger] after[j]).id == before[j].id && after[j].score.pscore
            <= before[j].score.pscore
}

/// The length of the way through `ps`, each leg rounded down.
pub open spec fn path_length(ps: Seq<Pos>) -> nat
    decreases ps.len(),
{
    if ps.len() < 2 {
        0
    } else {
        path_length(ps.drop_last()) + spec_distance(ps[ps.len() - 2], ps.last())
    }
}

/// The player after being seen at each of `ps` in turn.
pub open spec fn walked(p: PlayerView, ps: Seq<Pos>) -> PlayerView
    decreases ps.len(),
{
    if ps.len() == 0 {
        p
    } else {
        walked(p, ps.drop_last()).moved(ps.last())
    }
}

/// The score of every player of sound teams is the sum of the
/// changes in the player's history, and every score that the history
/// holds lies between the lowest and the highest that the player ever had.
pub proof fn law_score_is_sum_of_changes(t: TeamsView, side: char, id: Seq<char>)
    requires
        t.sound(),
        t.has(side, id),
    ensures
        t.player(side, id).score.pscore == sum_deltas(t.player(side, id).score.deltas),
        t.player(side, id).score.deltas.len() == t.player(side, id).score.cumul.len(),
        forall|i: int|
            0 <= i < t.player(side, id).score.cumul.len() ==> t.player(side, id).score.hist_min
                <= (#[trigger] t.player(side, id).score.cumul[i]).1 <= t.player(
                side,
                id,
            ).score.hist_max,
{
    let i = index_of(t.players(side), id);
    assert(t.players(side)[i].sound());
    law_pscore_is_sum(t.player(side, id).score);
}

/// A sighting never takes from the distance that a player travelled.
pub proof fn law_distance_never_falls(p: PlayerView, npos: Pos)
    ensures
        p.moved(npos).score.dist >= p.score.dist,
{
}

/// The distance that a player travelled is the length of the way through
/// the positions at which the player was seen. The first sighting adds
/// nothing. This holds as long as the player is not seen at the position
/// that means "not observed yet".
pub proof fn law_distance_is_path_length(id: Seq<char>, ps: Seq<Pos>)
    requires
        forall|i: int| 0 <= i < ps.len() ==> !spec_is_unseen(#[trigger] ps[i]),
    ensures
        walked(PlayerView::fresh(id), ps).score.dist == path_length(ps),
        ps.len() > 0 ==> walked(PlayerView::fresh(id), ps).pos == ps.last(),
        ps.len() == 0 ==> walked(PlayerView::fresh(id), ps) == PlayerView::fresh(id),
    decreases ps.len(),
{
    if ps.len() > 0 {
        let head = ps.drop_last();
        assert forall|i: int| 0 <= i < head.len() implies !spec_is_unseen(#[trigger] head[i]) by {
            assert(head[i] == ps[i]);
        }
        law_distance_is_path_length(id, head);
        if head.len() > 0 {
            assert(head.last() == ps[ps.len() - 2]);
            assert(!spec_is_unseen(head[head.len() - 1]));
        }
    }
}

/// Seeing a player somewhere keeps the rosters and every score.
pub proof fn lemma_moved_keeps_pscores(t: TeamsView, side: char, id: Seq<char>, npos: Pos)
    requires
        t.ids_wf(),
        t.admits(side, id),
    ensures
        t.moved(side, id, npos).ids_wf(),
        t.moved(side, id, npos).lpids == t.lpids,
        t.moved(side, id, npos).rpids == t.rpids,
        same_pscores(t.moved(side, id, npos), t),
{
    if !spec_is_xplayerid(id) {
        lemma_roster_has(t, side, id);
        let p = t.player(side, id).moved(npos);
        lemma_replaced_ids(t, side, id, p);
        let r = t.replaced(side, id, p);
        assert(pscores_of(r.players(side)) =~= pscores_of(t.players(side)));
        assert(r.players(if side == SIDE_L {
            'r'
        } else {
            SIDE_L
        }) == t.players(
            if side == SIDE_L {
                'r'
            } else {
                SIDE_L
            },
        ));
    }
}

/// Counting an action keeps the rosters and every score.
pub proof fn lemma_counted_keeps_pscores(t: TeamsView, side: char, id: Seq<char>, atype: AIAction)
    requires
        t.ids_wf(),
        t.admits(side, id),
    ensures
        t.counted(side, id, atype).ids_wf(),
        t.counted(side, id, atype).lpids == t.lpids,
        t.counted(side, id, atype).rpids == t.rpids,
        same_pscores(t.counted(side, id, atype), t),
{
    if !spec_is_xplayerid(id) {
        lemma_roster_has(t, side, id);
        let p = t.player(side, id).counted(atype);
        lemma_replaced_ids(t, side, id, p);
        let r = t.replaced(side, id, p);
        assert(pscores_of(r.players(side)) =~= pscores_of(t.players(side)));
        assert(r.players(if side == SIDE_L {
            'r'
        } else {
            SIDE_L
        }) == t.players(
            if side == SIDE_L {
                'r'
            } else {
                SIDE_L
            },
        ));
    }
}

/// Crediting the players of two actions keeps sound teams sound, with the
/// same rosters.
pub proof fn lemma_both_scored_sound(
    t: TeamsView,
    prev: ActionView,
    cur: ActionView,
    pp: int,
    cp: int,
)
    requires
        t.sound(),
        t.admits(prev.side, prev.playerid),
        t.admits(cur.side, cur.playerid),
    ensures
        both_scored(t, prev, cur, pp, cp).sound(),
        both_scored(t, prev, cur, pp, cp).lpids == t.lpids,
        both_scored(t, prev, cur, pp, cp).rpids == t.rpids,
{
    lemma_ops_sound(t, prev.side, prev.playerid);
    let first = t.scored(cur.time, prev.side, prev.playerid, pp);
    lemma_ops_sound(first, cur.side, cur.playerid);
    assert(first.scored(cur.time, cur.side, cur.playerid, cp).sound());
}

/// Scoring a kick, a tackle or a catch against the action before it keeps
/// sound teams sound, with the same rosters.
pub proof fn lemma_touch_sound(t: TeamsView, prev: ActionView, cur: ActionView)
    requires
        t.sound(),
        t.admits(prev.side, prev.playerid),
        t.admits(cur.side, cur.playerid),
    ensures
        kick_teams(t, prev, cur).sound(),
        kick_teams(t, prev, cur).lpids == t.lpids,
        kick_teams(t, prev, cur).rpids == t.rpids,
        tackle_teams(t, prev, cur).sound(),
        tackle_teams(t, prev, cur).lpids == t.lpids,
        tackle_teams(t, prev, cur).rpids == t.rpids,
        catch_teams(t, prev, cur).sound(),
        catch_teams(t, prev, cur).lpids == t.lpids,
        catch_teams(t, prev, cur).rpids == t.rpids,
{
    lemma_ops_sound(t, cur.side, cur.playerid);
    lemma_both_scored_sound(t, prev, cur, cur.action.own_prev(), cur.action.own_cur());
    lemma_both_scored_sound(t, prev, cur, cur.action.other_prev(), cur.action.other_cur());
    lemma_both_scored_sound(
        t,
        prev,
        cur,
        spec_percent(cur.action.own_prev(), SCORE_SELF_PASS_RATIO as int),
        spec_percent(cur.action.own_cur(), SCORE_SELF_PASS_RATIO as int),
    );
    assert(t.scored(
        cur.time,
        cur.side,
        cur.playerid,
        spec_percent(cur.action.own_cur(), SCORE_SELF_PASS_RATIO as int),
    ).sound());
}

/// The search for a goal's chain keeps sound teams sound, with the same
/// rosters.
pub proof fn lemma_goal_chain_sound(
    teams: TeamsView,
    actions: Seq<ActionView>,
    cur: ActionView,
    lookbackcnt: int,
)
    requires
        teams.sound(),
        all_recordable(teams, actions),
        teams.admits(cur.side, cur.playerid),
    ensures
        goal_chain_teams(teams, actions, cur, lookbackcnt).sound(),
        goal_chain_teams(teams, actions, cur, lookbackcnt).lpids == teams.lpids,
        goal_chain_teams(teams, actions, cur, lookbackcnt).rpids == teams.rpids,
    decreases HA_LOOKBACK_MAX + 1 - lookbackcnt,
{
    if in_lookback(actions, lookbackcnt) {
        let prev = spec_lookback(actions, lookbackcnt);
        assert(recordable(teams, actions[actions.len() - lookbackcnt]));
        lemma_ops_sound(teams, cur.side, cur.playerid);
        lemma_ops_sound(teams, prev.side, prev.playerid);
        let next = goal_teams(teams, prev, cur, lookbackcnt);
        assert(next.sound() && next.lpids == teams.lpids && next.rpids == teams.rpids);
        if goal_result(prev, cur, lookbackcnt) == HAReturn::ContinueSearch {
            lemma_recordable_same_rosters(teams, next, actions);
            lemma_goal_chain_sound(next, actions, cur, lookbackcnt + 1);
        }
    }
}

/// A goal is entered in the histories with a player that the teams can
/// credit.
pub proof fn lemma_entered_recordable(s: ActionsInfoView, cur: ActionView)
    requires
        s.histories_wf(),
        cur.action != AIAction::NoAction,
        spec_is_side(cur.side),
        s.teams.admits(cur.side, cur.playerid),
    ensures
        recordable(s.teams, entered(s.actions, cur)),
        entered(s.actions, cur).time == cur.time,
        entered(s.actions, cur).side == cur.side,
        entered(s.actions, cur).pos == cur.pos,
        entered(s.actions, cur).action == cur.action,
{
    if cur.action == AIAction::Goal && s.actions.len() > 0 {
        let prev = s.actions.last();
        assert(recordable(s.teams, s.actions[s.actions.len() - 1]));
        lemma_reserved_ids(prev.playerid);
        lemma_reserved_ids(cur.playerid);
    }
}

/// Handling an action that a sound state accepts leaves a sound state:
/// the teams stay sound, with the same rosters, both histories stay in
/// order of time, the significant actions stay drawn from all actions, and
/// nothing but actions on the ball by players that can be credited is in
/// either history.
pub proof fn law_handled_keeps_sound(s: ActionsInfoView, cur: ActionView)
    requires
        s.sound(),
        s.accepts(cur),
    ensures
        s.handled(cur).sound(),
        s.handled(cur).teams.lpids == s.teams.lpids,
        s.handled(cur).teams.rpids == s.teams.rpids,
        !s.handled(cur).seek_pending,
{
    let h = s.settled(cur);
    if s.seek_pending {
        lemma_skipped(s, cur.time);
    }
    assert(h.sound());
    lemma_ops_sound(h.teams, cur.side, cur.playerid);
    if cur.action != AIAction::NoAction {
        lemma_entered_recordable(h, cur);
        let rec = entered(h.actions, cur);
        let credited = attributed(h.teams, h.actions, cur);
        assert(credited.sound() && credited.lpids == h.teams.lpids && credited.rpids
            == h.teams.rpids) by {
            if h.actions.len() > 0 {
                let prev = h.actions.last();
                assert(recordable(h.teams, h.actions[h.actions.len() - 1]));
                let timed = h.teams.ball_timed(prev, cur);
                assert(timed.sound());
                lemma_touch_sound(timed, prev, cur);
                lemma_recordable_same_rosters(h.teams, timed, h.actions);
                if cur.action == AIAction::Goal {
                    lemma_goal_chain_sound(timed, h.actions, rec, 1);
                }
            }
        }
        lemma_ops_sound(credited, rec.side, rec.playerid);
        let moved = if cur.action == AIAction::Goal && h.actions.len() > 0 {
            credited
        } else {
            credited.moved(rec.side, rec.playerid, rec.pos)
        };
        lemma_ops_sound(moved, rec.side, rec.playerid);
        let after = s.handled(cur);
        if h.actions.len() > 0 {
            lemma_subseq_last(h.actions, h.rawactions);
        }
        lemma_sorted_push(h.actions, rec);
        lemma_sorted_push(h.rawactions, rec);
        lemma_subseq_push(h.actions, h.rawactions, rec);
        lemma_recordable_same_rosters(h.teams, after.teams, h.actions);
        lemma_recordable_same_rosters(h.teams, after.teams, h.rawactions);
        assert forall|i: int| 0 <= i < after.actions.len() implies recordable(
            after.teams,
            #[trigger] after.actions[i],
        ) by {
            if i < h.actions.len() {
                assert(after.actions[i] == h.actions[i]);
            }
        }
        assert forall|i: int| 0 <= i < after.rawactions.len() implies recordable(
            after.teams,
            #[trigger] after.rawactions[i],
        ) by {
            if i < h.rawactions.len() {
                assert(after.rawactions[i] == h.rawactions[i]);
            }
        }
    } else {
        let after = s.handled(cur);
        lemma_recordable_same_rosters(h.teams, after.teams, h.actions);
        lemma_recordable_same_rosters(h.teams, after.teams, h.rawactions);
    }
}

/// A well-formed state is sound.
pub proof fn lemma_wf_is_sound(s: ActionsInfoView)
    requires
        s.wf(),
    ensures
        s.sound(),
{
    crate::teams::lemma_wf_is_sound(s.teams);
}

/// The state after the actions `events` were handled one after the other.
pub open spec fn handled_all(s: ActionsInfoView, events: Seq<ActionView>) -> ActionsInfoView
    decreases events.len(),
{
    if events.len() == 0 {
        s
    } else {
        handled_all(s, events.drop_last()).handled(events.last())
    }
}

/// Whether each of the actions `events` can be handled when its turn comes.
pub open spec fn accepts_all(s: ActionsInfoView, events: Seq<ActionView>) -> bool
    decreases events.len(),
{
    if events.len() == 0 {
        true
    } else {
        accepts_all(s, events.drop_last()) && handled_all(s, events.drop_last()).accepts(
            events.last(),
        )
    }
}

/// Whatever actions a sound state handles, each accepted when its turn
/// comes, the state stays sound. So in every state that an engine reaches
/// the significant actions are drawn from all actions on the ball, both in
/// order of time; no mere movement is in either history; and every
/// player's score is the sum of the changes in the player's history, each
/// score in it between the lowest and the highest that the player ever had.
pub proof fn law_every_state_is_sound(s: ActionsInfoView, events: Seq<ActionView>)
    requires
        s.sound(),
        accepts_all(s, events),
    ensures
        handled_all(s, events).sound(),
        handled_all(s, events).teams.lpids == s.teams.lpids,
        handled_all(s, events).teams.rpids == s.teams.rpids,
    decreases events.len(),
{
    if events.len() > 0 {
        law_every_state_is_sound(s, events.drop_last());
        law_handled_keeps_sound(handled_all(s, events.drop_last()), events.last());
    }
}

/// The state of an engine before any action is sound.
pub proof fn law_fresh_is_sound(lpids: Seq<Seq<char>>, rpids: Seq<Seq<char>>)
    ensures
        ActionsInfoView::fresh(lpids, rpids).sound(),
{
    crate::teams::lemma_fresh_players(lpids);
    crate::teams::lemma_fresh_players(rpids);
    let t = TeamsView::fresh(lpids, rpids);
    assert(t.wf());
    crate::teams::lemma_wf_is_sound(t);
}

/// A kick that follows a kept kick of the same player of the same side by
/// less than [`SELF_PASS_MINTIME`] changes no player's score, and is not
/// kept as a significant action.
pub proof fn law_repeated_kick_changes_no_score(s: ActionsInfoView, cur: ActionView)
    requires
        s.sound(),
        s.accepts(cur),
        !s.seek_pending,
        s.actions.len() > 0,
        cur.action == AIAction::Kick,
        is_repeat_kick(s.actions.last(), cur),
    ensures
        same_pscores(s.handled(cur).teams, s.teams),
        s.handled(cur).actions == s.actions,
        s.handled(cur).rawactions == s.rawactions.push(cur),
{
    let prev = s.actions.last();
    let timed = s.teams.ball_timed(prev, cur);
    lemma_moved_keeps_pscores(timed, cur.side, cur.playerid, cur.pos);
    lemma_counted_keeps_pscores(
        timed.moved(cur.side, cur.playerid, cur.pos),
        cur.side,
        cur.playerid,
        cur.action,
    );
}

/// Of two kicks of the same player of the same side less than
/// [`SELF_PASS_MINTIME`] apart, the first of which was kept as a
/// significant action, the second changes no player's score; it is
/// accepted if only the statistics have room for it.
pub proof fn law_second_kick_changes_no_score(
    s: ActionsInfoView,
    first: ActionView,
    second: ActionView,
)
    requires
        s.sound(),
        s.accepts(first),
        first.action == AIAction::Kick,
        second.action == AIAction::Kick,
        second.side == first.side,
        second.playerid == first.playerid,
        first.time <= second.time < first.time + SELF_PASS_MINTIME,
        recorded(s.settled(first).actions, first),
        s.handled(first).has_room(second),
    ensures
        s.handled(first).accepts(second),
        same_pscores(s.handled(first).handled(second).teams, s.handled(first).teams),
        s.handled(first).handled(second).actions == s.handled(first).actions,
{
    let s1 = s.handled(first);
    law_handled_keeps_sound(s, first);
    assert(s1.actions.last() == first);
    assert(s1.rawactions.last() == first);
    assert(recordable(s1.teams, s1.rawactions[s1.rawactions.len() - 1]));
    law_repeated_kick_changes_no_score(s1, second);
}

/// A tackle that follows a kept tackle of the same player of the same side
/// by less than [`REPEAT_TACKLE_MINTIME`] changes no player's score, and is
/// not kept as a significant action.
pub proof fn law_repeated_tackle_changes_no_score(s: ActionsInfoView, cur: ActionView)
    requires
        s.sound(),
        s.accepts(cur),
        !s.seek_pending,
        s.actions.len() > 0,
        cur.action == AIAction::Tackle,
        is_repeat_tackle(s.actions.last(), cur),
    ensures
        same_pscores(s.handled(cur).teams, s.teams),
        s.handled(cur).actions == s.actions,
        s.handled(cur).rawactions == s.rawactions.push(cur),
{
    let prev = s.actions.last();
    let timed = s.teams.ball_timed(prev, cur);
    lemma_moved_keeps_pscores(timed, cur.side, cur.playerid, cur.pos);
    lemma_counted_keeps_pscores(
        timed.moved(cur.side, cur.playerid, cur.pos),
        cur.side,
        cur.playerid,
        cur.action,
    );
}

/// Of two tackles of the same player of the same side less than
/// [`REPEAT_TACKLE_MINTIME`] apart, the first of which was kept as a
/// significant action, the second changes no player's score; it is
/// accepted if only the statistics have room for it.
pub proof fn law_second_tackle_changes_no_score(
    s: ActionsInfoView,
    first: ActionView,
    second: ActionView,
)
    requires
        s.sound(),
        s.accepts(first),
        first.action == AIAction::Tackle,
        second.action == AIAction::Tackle,
        second.side == first.side,
        second.playerid == first.playerid,
        first.time <= second.time < first.time + REPEAT_TACKLE_MINTIME,
        recorded(s.settled(first).actions, first),
        s.handled(first).has_room(second),
    ensures
        s.handled(first).accepts(second),
        same_pscores(s.handled(first).handled(second).teams, s.handled(first).teams),
        s.handled(first).handled(second).actions == s.handled(first).actions,
{
    let s1 = s.handled(first);
    law_handled_keeps_sound(s, first);
    assert(s1.actions.last() == first);
    assert(s1.rawactions.last() == first);
    assert(recordable(s1.teams, s1.rawactions[s1.rawactions.len() - 1]));
    law_repeated_tackle_changes_no_score(s1, second);
}

/// The players of `after` are those of `before`, and none has travelled
/// less than before.
pub open spec fn no_distance_below(after: Seq<PlayerView>, before: Seq<PlayerView>) -> bool {
    &&& after.len() == before.len()
    &&& forall|j: int|
        0 <= j < after.len() ==> (#[trigger] after[j]).id == before[j].id && after[j].score.dist
            >= before[j].score.dist
}

/// No player has travelled less in `a` than in `b`.
pub open spec fn no_distance_lost(a: TeamsView, b: TeamsView) -> bool {
    &&& no_distance_below(a.lplayers, b.lplayers)
    &&& no_distance_below(a.rplayers, b.rplayers)
}

/// Putting a state of the same player that has travelled no less in a
/// player's place takes from no player's distance.
pub proof fn lemma_replaced_distance(t: TeamsView, side: char, id: Seq<char>, p: PlayerView)
    requires
        t.ids_wf(),
        t.has(side, id),
        p.id == id,
        p.score.dist >= t.player(side, id).score.dist,
    ensures
        no_distance_lost(t.replaced(side, id, p), t),
{
    lemma_replaced_ids(t, side, id, p);
    let r = t.replaced(side, id, p);
    let i = index_of(t.players(side), id);
    assert(r.players(side) == t.players(side).update(i, p));
    let other = if side == SIDE_L {
        'r'
    } else {
        SIDE_L
    };
    assert(r.players(other) == t.players(other));
}

/// Counting an action for a player, or seeing the player somewhere, takes
/// from no player's distance.
pub proof fn lemma_ops_keep_distance(t: TeamsView, side: char, id: Seq<char>)
    requires
        t.ids_wf(),
        t.admits(side, id),
    ensures
        forall|atype: AIAction| #[trigger] no_distance_lost(t.counted(side, id, atype), t),
        forall|npos: Pos| #[trigger] no_distance_lost(t.moved(side, id, npos), t),
{
    if !spec_is_xplayerid(id) {
        lemma_roster_has(t, side, id);
        let p = t.player(side, id);
        assert forall|atype: AIAction| #[trigger]
            no_distance_lost(t.counted(side, id, atype), t) by {
            lemma_replaced_distance(t, side, id, p.counted(atype));
        }
        assert forall|npos: Pos| #[trigger] no_distance_lost(t.moved(side, id, npos), t) by {
            lemma_replaced_distance(t, side, id, p.moved(npos));
        }
    }
}

/// Where no player has travelled less in `a` than in `b`, nor in `b` than
/// in `c`, none has travelled less in `a` than in `c`.
pub proof fn lemma_distance_chain(a: TeamsView, b: TeamsView, c: TeamsView)
    requires
        no_distance_lost(a, b),
        no_distance_lost(b, c),
    ensures
        no_distance_lost(a, c),
{
    assert forall|j: int| 0 <= j < a.lplayers.len() implies (#[trigger] a.lplayers[j]).id
        == c.lplayers[j].id && a.lplayers[j].score.dist >= c.lplayers[j].score.dist by {
        assert(b.lplayers[j].id == c.lplayers[j].id);
    }
    assert forall|j: int| 0 <= j < a.rplayers.len() implies (#[trigger] a.rplayers[j]).id
        == c.rplayers[j].id && a.rplayers[j].score.dist >= c.rplayers[j].score.dist by {
        assert(b.rplayers[j].id == c.rplayers[j].id);
    }
}

/// Handling an action takes from no player's distance: crediting leaves
/// every distance as it is, and a sighting adds the way to it.
pub proof fn law_handled_never_lowers_distance(s: ActionsInfoView, cur: ActionView)
    requires
        s.sound(),
        s.accepts(cur),
    ensures
        no_distance_lost(s.handled(cur).teams, s.teams),
        cur.action != AIAction::NoAction ==> stats_kept(
            attributed(s.teams, s.settled(cur).actions, cur),
            s.teams,
        ),
{
    let h = s.settled(cur);
    if s.seek_pending {
        lemma_skipped(s, cur.time);
    }
    assert(h.sound());
    lemma_ops_keep_distance(h.teams, cur.side, cur.playerid);
    if cur.action != AIAction::NoAction {
        lemma_entered_recordable(h, cur);
        let rec = entered(h.actions, cur);
        let credited = attributed(h.teams, h.actions, cur);
        lemma_attributed_keeps_stats(h.teams, h.actions, cur);
        lemma_stats_kept(credited, h.teams);
        assert(no_distance_lost(credited, h.teams)) by {
            assert forall|j: int| 0 <= j < credited.lplayers.len() implies (
            #[trigger] credited.lplayers[j]).id == h.teams.lplayers[j].id
                && credited.lplayers[j].score.dist >= h.teams.lplayers[j].score.dist by {
                assert(same_stats(credited.lplayers[j], h.teams.lplayers[j]));
            }
            assert forall|j: int| 0 <= j < credited.rplayers.len() implies (
            #[trigger] credited.rplayers[j]).id == h.teams.rplayers[j].id
                && credited.rplayers[j].score.dist >= h.teams.rplayers[j].score.dist by {
                assert(same_stats(credited.rplayers[j], h.teams.rplayers[j]));
            }
        }
        lemma_ops_keep_distance(credited, rec.side, rec.playerid);
        let moved = if cur.action == AIAction::Goal && h.actions.len() > 0 {
            credited
        } else {
            credited.moved(rec.side, rec.playerid, rec.pos)
        };
        lemma_distance_chain(moved, credited, h.teams);
        lemma_moved_keeps_pscores(credited, rec.side, rec.playerid, rec.pos);
        lemma_ops_keep_distance(moved, rec.side, rec.playerid);
        lemma_distance_chain(s.handled(cur).teams, moved, h.teams);
    }
}

/// Nothing is ever credited to, counted for or noted of a reserved
/// identifier.
pub proof fn law_reserved_player_changes_nothing(t: TeamsView, side: char, id: Seq<char>)
    requires
        spec_is_xplayerid(id),
    ensures
        forall|time: usize, delta: int| #[trigger] t.scored(time, side, id, delta) == t,
        forall|time: usize, card: crate::playdata::Card| #[trigger]
            t.carded(time, side, id, card) == t,
        forall|atype: AIAction| #[trigger] t.counted(side, id, atype) == t,
        forall|npos: Pos| #[trigger] t.moved(side, id, npos) == t,
{
}

/// A player's mere movement is entered in no history, changes no score and
/// gives no side the ball: it moves the player, and that is all.
pub proof fn law_movement_only_moves(s: ActionsInfoView, cur: ActionView)
    requires
        s.sound(),
        s.accepts(cur),
        cur.action == AIAction::NoAction,
    ensures
        s.handled(cur).actions == s.settled(cur).actions,
        s.handled(cur).rawactions == s.settled(cur).rawactions,
        s.handled(cur).teams == s.teams.moved(cur.side, cur.playerid, cur.pos),
        same_pscores(s.handled(cur).teams, s.teams),
        s.handled(cur).teams.lballtime == s.teams.lballtime,
        s.handled(cur).teams.rballtime == s.teams.rballtime,
{
    lemma_moved_keeps_pscores(s.teams, cur.side, cur.playerid, cur.pos);
    if !spec_is_xplayerid(cur.playerid) {
        lemma_roster_has(s.teams, cur.side, cur.playerid);
        lemma_replaced_ids(
            s.teams,
            cur.side,
            cur.playerid,
            s.teams.player(cur.side, cur.playerid).moved(cur.pos),
        );
    }
}

/// A goal of an unknown player that follows a kick, a tackle or a catch of
/// its own side is entered in the histories as a goal of that action's
/// player.
pub proof fn law_goal_takes_player_of_last_action(s: ActionsInfoView, goal: ActionView)
    requires
        s.sound(),
        s.accepts(goal),
        goal.action == AIAction::Goal,
        s.settled(goal).actions.len() > 0,
        is_touch(s.settled(goal).actions.last().action),
        s.settled(goal).actions.last().side == goal.side,
        spec_is_xplayerid(goal.playerid),
    ensures
        s.handled(goal).rawactions.last().playerid == s.settled(goal).actions.last().playerid,
        s.handled(goal).rawactions.last() == (ActionView {
            playerid: s.settled(goal).actions.last().playerid,
            ..goal
        }),
        recorded(s.settled(goal).actions, goal) ==> s.handled(goal).actions.last()
            == s.handled(goal).rawactions.last(),
{
}

/// After any number of requests to move the game's time, the next action
/// is handled with histories that hold no action at or after its time.
pub proof fn law_seek_cuts_histories(s: ActionsInfoView, cur: ActionView)
    requires
        s.sound(),
    ensures
        s.sought().sought() == s.sought(),
        s.sought().settled(cur).sound(),
        all_before(s.sought().settled(cur).actions, cur.time),
        all_before(s.sought().settled(cur).rawactions, cur.time),
        cur.action == AIAction::NoAction ==> s.sought().handled(cur).actions
            == s.sought().settled(cur).actions && s.sought().handled(cur).rawactions
            == s.sought().settled(cur).rawactions,
        cur.action != AIAction::NoAction ==> s.sought().handled(cur).rawactions.drop_last()
            == s.sought().settled(cur).rawactions,
        cur.action != AIAction::NoAction ==> s.sought().handled(cur).actions
            == s.sought().settled(cur).actions || s.sought().handled(cur).actions.drop_last()
            == s.sought().settled(cur).actions,
{
    let q = s.sought();
    lemma_skipped(q, cur.time);
    let h = q.settled(cur);
    if cur.action != AIAction::NoAction {
        let rec = entered(h.actions, cur);
        assert(h.rawactions.push(rec).drop_last() =~= h.rawactions);
        assert(h.actions.push(rec).drop_last() =~= h.actions);
    }
}

/// A change of a player's score keeps the rosters, leaves the other side's
/// players as they were, and changes among the players of the side that one
/// score alone, by the amount of the change. A reserved identifier changes
/// nothing.
pub proof fn lemma_scored_effect(t: TeamsView, time: usize, side: char, id: Seq<char>, delta: int)
    requires
        t.ids_wf(),
        t.admits(side, id),
    ensures
        t.scored(time, side, id, delta).ids_wf(),
        t.scored(time, side, id, delta).lpids == t.lpids,
        t.scored(time, side, id, delta).rpids == t.rpids,
        forall|s: char|
            (s == SIDE_L) != (side == SIDE_L) ==> #[trigger] t.scored(time, side, id, delta).players(
                s,
            ) == t.players(s),
        spec_is_xplayerid(id) ==> t.scored(time, side, id, delta) == t,
        !spec_is_xplayerid(id) ==> {
            &&& t.has(side, id)
            &&& t.scored(time, side, id, delta).players(side) == t.players(side).update(
                index_of(t.players(side), id),
                t.player(side, id).scored(time, delta),
            )
            &&& t.scored(time, side, id, delta).player(side, id).score.pscore == t.player(
                side,
                id,
            ).score.pscore + delta
        },
{
    if !spec_is_xplayerid(id) {
        lemma_roster_has(t, side, id);
        lemma_replaced_ids(t, side, id, t.player(side, id).scored(time, delta));
    }
}

/// A change of a player's score that takes from it raises no score of the
/// player's side.
pub proof fn lemma_scored_down(t: TeamsView, time: usize, side: char, id: Seq<char>, delta: int)
    requires
        t.ids_wf(),
        t.admits(side, id),
        delta <= 0,
    ensures
        no_score_above(t.scored(time, side, id, delta).players(side), t.players(side)),
{
    lemma_scored_effect(t, time, side, id, delta);
    if !spec_is_xplayerid(id) {
        let i = index_of(t.players(side), id);
        let after = t.scored(time, side, id, delta).players(side);
        assert forall|j: int| 0 <= j < after.len() implies (#[trigger] after[j]).id == t.players(
            side,
        )[j].id && after[j].score.pscore <= t.players(side)[j].score.pscore by {
            if j != i {
                assert(after[j] == t.players(side)[j]);
            }
        }
    }
}

/// Behind the last action, the search for a goal's chain raises no score
/// of the side that did not score.
pub proof fn lemma_goal_chain_costs_other_side(
    teams: TeamsView,
    actions: Seq<ActionView>,
    cur: ActionView,
    lookbackcnt: int,
    other: char,
)
    requires
        teams.ids_wf(),
        all_recordable(teams, actions),
        spec_is_side(cur.side),
        spec_is_side(other),
        other != cur.side,
        2 <= lookbackcnt,
    ensures
        goal_chain_teams(teams, actions, cur, lookbackcnt).ids_wf(),
        goal_chain_teams(teams, actions, cur, lookbackcnt).lpids == teams.lpids,
        goal_chain_teams(teams, actions, cur, lookbackcnt).rpids == teams.rpids,
        no_score_above(
            goal_chain_teams(teams, actions, cur, lookbackcnt).players(other),
            teams.players(other),
        ),
    decreases HA_LOOKBACK_MAX + 1 - lookbackcnt,
{
    if in_lookback(actions, lookbackcnt) {
        let prev = spec_lookback(actions, lookbackcnt);
        assert(recordable(teams, actions[actions.len() - lookbackcnt]));
        let next = goal_teams(teams, prev, cur, lookbackcnt);
        if prev.action == AIAction::Goal {
        } else if prev.side == cur.side {
            lemma_goal_chain_shares(lookbackcnt);
            lemma_scored_effect(
                teams,
                cur.time,
                cur.side,
                prev.playerid,
                spec_goal_chain_share(lookbackcnt),
            );
            assert(next.players(other) == teams.players(other));
        } else {
            lemma_goal_chain_shares(lookbackcnt);
            assert(prev.side == other);
            lemma_scored_down(
                teams,
                cur.time,
                prev.side,
                prev.playerid,
                spec_goal_chain_otherside_share(lookbackcnt),
            );
            lemma_scored_effect(
                teams,
                cur.time,
                prev.side,
                prev.playerid,
                spec_goal_chain_otherside_share(lookbackcnt),
            );
        }
        if goal_result(prev, cur, lookbackcnt) == HAReturn::ContinueSearch {
            lemma_recordable_same_rosters(teams, next, actions);
            lemma_goal_chain_costs_other_side(next, actions, cur, lookbackcnt + 1, other);
            let last = goal_chain_teams(next, actions, cur, lookbackcnt + 1);
            assert forall|j: int| 0 <= j < last.players(other).len() implies (
            #[trigger] last.players(other)[j]).id == teams.players(other)[j].id && last.players(
                other,
            )[j].score.pscore <= teams.players(other)[j].score.pscore by {
                assert(next.players(other)[j].id == teams.players(other)[j].id);
            }
        }
    }
}

/// A goal that follows a kick, a tackle or a catch of the other side is
/// entered in the histories under a reserved identifier made from the
/// player it would else have had, and it takes from the score of the player
/// of that last action: at least what an own goal costs, or a part of it
/// for a keeper's catch.
pub proof fn law_goal_by_other_side(s: ActionsInfoView, goal: ActionView)
    requires
        s.sound(),
        s.accepts(goal),
        goal.action == AIAction::Goal,
        s.settled(goal).actions.len() > 0,
        is_touch(s.settled(goal).actions.last().action),
        s.settled(goal).actions.last().side != goal.side,
    ensures
        s.handled(goal).rawactions.last().playerid == spec_oops_otherside_id(
            if spec_is_xplayerid(goal.playerid) {
                s.settled(goal).actions.last().playerid
            } else {
                goal.playerid
            },
        ),
        spec_is_xplayerid(s.handled(goal).rawactions.last().playerid),
        -SCORE_POINT <= spec_self_goal_share(s.settled(goal).actions.last().action) < 0,
        !spec_is_xplayerid(s.settled(goal).actions.last().playerid) ==> s.handled(
            goal,
        ).teams.player(
            s.settled(goal).actions.last().side,
            s.settled(goal).actions.last().playerid,
        ).score.pscore <= s.teams.player(
            s.settled(goal).actions.last().side,
            s.settled(goal).actions.last().playerid,
        ).score.pscore + spec_self_goal_share(s.settled(goal).actions.last().action),
{
    let h = s.settled(goal);
    if s.seek_pending {
        lemma_skipped(s, goal.time);
    }
    assert(h.sound());
    let prev = h.actions.last();
    let rec = entered(h.actions, goal);
    let id = if spec_is_xplayerid(goal.playerid) {
        prev.playerid
    } else {
        goal.playerid
    };
    lemma_reserved_ids(id);
    lemma_self_goal_share(prev.action);
    assert(recordable(h.teams, h.actions[h.actions.len() - 1]));
    assert(prev == spec_lookback(h.actions, 1));
    let timed = h.teams.ball_timed(prev, goal);
    let share = spec_self_goal_share(prev.action);
    let first = timed.scored(goal.time, prev.side, prev.playerid, share);
    assert(goal_teams(timed, prev, rec, 1) == first);
    assert(goal_result(prev, rec, 1) == HAReturn::ContinueSearch);
    let chained = goal_chain_teams(first, h.actions, rec, 2);
    assert(goal_chain_teams(timed, h.actions, rec, 1) == chained);
    lemma_scored_effect(timed, goal.time, prev.side, prev.playerid, share);
    lemma_recordable_same_rosters(h.teams, first, h.actions);
    lemma_goal_chain_costs_other_side(first, h.actions, rec, 2, prev.side);
    let counted = chained.counted(rec.side, rec.playerid, rec.action);
    assert(counted == chained);
    assert(s.handled(goal).teams == counted);
    if !spec_is_xplayerid(prev.playerid) {
        let i = index_of(timed.players(prev.side), prev.playerid);
        lemma_roster_has(chained, prev.side, prev.playerid);
        assert(first.players(prev.side)[i].id == prev.playerid);
        assert(chained.players(prev.side)[i].id == prev.playerid);
        lemma_index_of(chained.players(prev.side), i);
    }
}

/// What the player of the other side loses whose action led straight to a
/// goal is more than nothing and at most a point.
pub proof fn lemma_self_goal_share(prev: AIAction)
    ensures
        -SCORE_POINT <= spec_self_goal_share(prev) < 0,
{
    let w = AIAction::Goal.spec_scoring();
    assert(w.0 * w.3 == -100) by (nonlinear_arith)
        requires
            w.0 == 10 && w.3 == -10,
    ;
    assert(AIAction::Goal.other_prev() == -SCORE_POINT);
}

} // verus!
