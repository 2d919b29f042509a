//! The scoring engine: it takes the game's actions one by one, holds each
//! against the significant actions before it, credits the players, and
//! keeps the histories.

use vstd::prelude::*;
use vstd::pervasive::unreached;
use crate::action::{
    goal_chain_otherside_share,
    goal_chain_share,
    percent,
    self_goal_share,
    AIAction,
    ActionData,
    ActionView,
    HAReturn,
    GOAL_CHAIN_TIME,
    HA_LOOKBACK_MAX,
    REPEAT_TACKLE_MINTIME,
    SCORE_SELF_PASS_RATIO,
    SELF_PASS_MINTIME,
};
use crate::entities::{
    is_side,
    is_xplayerid,
    lemma_reserved_ids,
    oops_otherside_id,
    spec_is_side,
};
use crate::frame::{lemma_attributed_keeps_stats, lemma_moved_keeps_counts, lemma_stats_kept};
use crate::history::{
    all_before,
    is_subseq,
    kept_before,
    lemma_kept_is_prefix,
    lemma_kept_of_sorted,
    lemma_sorted_push,
    lemma_subseq_kept,
    lemma_subseq_last,
    lemma_subseq_push,
    times_sorted,
};
use crate::playdata::Card;
use crate::rules::{
    attributed,
    both_scored,
    catch_result,
    catch_teams,
    entered,
    fatal,
    goal_chain_fatal,
    goal_chain_teams,
    goal_entered,
    goal_fatal,
    goal_result,
    goal_teams,
    in_lookback,
    kick_fatal,
    kick_result,
    kick_teams,
    pair_scored,
    recorded,
    spec_lookback,
    tackle_result,
    tackle_teams,
};
use crate::teams::{ids_of, Teams, TeamsView};

verus! {

/// Whether `a` can stand in a history: it is an action on the ball, of one
/// of the two sides, by a player that the teams can credit.
pub open spec fn recordable(teams: TeamsView, a: ActionView) -> bool {
    &&& a.action != AIAction::NoAction
    &&& spec_is_side(a.side)
    &&& teams.admits(a.side, a.playerid)
}

/// Whether every action of `s` can stand in a history.
pub open spec fn all_recordable(teams: TeamsView, s: Seq<ActionView>) -> bool {
    forall|i: int| 0 <= i < s.len() ==> recordable(teams, #[trigger] s[i])
}

/// The engine's state as plain values.
pub struct ActionsInfoView {
    pub teams: TeamsView,
    /// The significant actions, oldest first.
    pub actions: Seq<ActionView>,
    /// All actions on the ball, oldest first.
    pub rawactions: Seq<ActionView>,
    /// Whether the histories are to be cut back when the next action comes.
    pub seek_pending: bool,
}

impl ActionsInfoView {
    /// The teams are well formed, both histories are in order of time and
    /// hold only what can stand in a history, and the significant actions
    /// are drawn from all actions.
    pub open spec fn wf(self) -> bool {
        &&& self.teams.wf()
        &&& self.histories_wf()
    }

    /// Both histories are in order of time and hold only what can stand in
    /// a history, and the significant actions are drawn from all actions.
    pub open spec fn histories_wf(self) -> bool {
        &&& times_sorted(self.actions)
        &&& times_sorted(self.rawactions)
        &&& is_subseq(self.actions, self.rawactions)
        &&& all_recordable(self.teams, self.actions)
        &&& all_recordable(self.teams, self.rawactions)
    }

    /// The teams are sound and the histories well formed. This is what is
    /// left of being well formed where numbers are not limited by the
    /// machine.
    pub open spec fn sound(self) -> bool {
        &&& self.teams.sound()
        &&& self.histories_wf()
    }

    /// The state of an engine for two rosters before any action.
    pub open spec fn fresh(lpids: Seq<Seq<char>>, rpids: Seq<Seq<char>>) -> ActionsInfoView {
        ActionsInfoView {
            teams: TeamsView::fresh(lpids, rpids),
            actions: Seq::empty(),
            rawactions: Seq::empty(),
            seek_pending: false,
        }
    }

    /// The state after the game's time was moved: the histories are to be
    /// cut back when the next action comes.
    pub open spec fn sought(self) -> ActionsInfoView {
        ActionsInfoView { seek_pending: true, ..self }
    }

    /// The state with both histories cut back to before `timecounter`.
    pub open spec fn skipped(self, timecounter: usize) -> ActionsInfoView {
        ActionsInfoView {
            actions: kept_before(self.actions, timecounter),
            rawactions: kept_before(self.rawactions, timecounter),
            ..self
        }
    }

    /// The state from which the new action is handled: with the histories
    /// cut back to before the action's time if that was asked for.
    pub open spec fn settled(self, cur: ActionView) -> ActionsInfoView {
        if self.seek_pending {
            ActionsInfoView { seek_pending: false, ..self.skipped(cur.time) }
        } else {
            self
        }
    }

    /// Whether the statistics that the new action adds to have room for
    /// it in their machine types: the ball time of its side, the distance
    /// that its player travelled, and the player's count of such actions.
    pub open spec fn has_room(self, cur: ActionView) -> bool {
        let rec = entered(self.actions, cur);
        &&& (cur.action != AIAction::NoAction && self.actions.len() > 0) ==> self.teams.can_time(
            self.actions.last(),
            cur,
        )
        &&& (cur.action == AIAction::Goal && self.actions.len() > 0) || self.teams.can_move(
            rec.side,
            rec.playerid,
            rec.pos,
        )
        &&& self.teams.can_count(rec.side, rec.playerid, rec.action)
    }

    /// Whether the new action can be handled: it is of one of the two
    /// sides, by a player that the teams can credit; if it is an action on
    /// the ball, it is not earlier than the last one and no action that
    /// cannot follow those before it; and the statistics have room for it.
    pub open spec fn accepts(self, cur: ActionView) -> bool {
        let s = self.settled(cur);
        &&& spec_is_side(cur.side)
        &&& s.teams.admits(cur.side, cur.playerid)
        &&& cur.action != AIAction::NoAction ==> {
            &&& s.rawactions.len() > 0 ==> s.rawactions.last().time <= cur.time
            &&& !fatal(s.actions, cur)
        }
        &&& s.has_room(cur)
    }

    /// The state after the new action was handled.
    ///
    /// A player's mere movement only moves the player. An action on the
    /// ball is held against the significant actions before it, which gives
    /// ball time and credits; it moves its player, unless it is a goal that
    /// had actions before it; it is counted for its player; it is added to
    /// the significant actions if the rules keep it, and to all actions in
    /// any case.
    pub open spec fn handled(self, cur: ActionView) -> ActionsInfoView {
        let s = self.settled(cur);
        if cur.action == AIAction::NoAction {
            ActionsInfoView { teams: s.teams.moved(cur.side, cur.playerid, cur.pos), ..s }
        } else {
            let rec = entered(s.actions, cur);
            let credited = attributed(s.teams, s.actions, cur);
            let moved = if cur.action == AIAction::Goal && s.actions.len() > 0 {
                credited
            } else {
                credited.moved(rec.side, rec.playerid, rec.pos)
            };
            ActionsInfoView {
                teams: moved.counted(rec.side, rec.playerid, rec.action),
                actions: if recorded(s.actions, cur) {
                    s.actions.push(rec)
                } else {
                    s.actions
                },
                rawactions: s.rawactions.push(rec),
                seek_pending: false,
            }
        }
    }
}

/// What can stand in a history with some teams can stand in it with any
/// teams of the same rosters.
pub proof fn lemma_recordable_same_rosters(t1: TeamsView, t2: TeamsView, s: Seq<ActionView>)
    requires
        all_recordable(t1, s),
        t1.lpids == t2.lpids,
        t1.rpids == t2.rpids,
    ensures
        all_recordable(t2, s),
{
    assert forall|i: int| 0 <= i < s.len() implies recordable(t2, #[trigger] s[i]) by {
        assert(recordable(t1, s[i]));
    }
}

/// Cutting well-formed histories back to before a point in time leaves
/// them well formed, with no action at or after that point.
pub proof fn lemma_skipped(s: ActionsInfoView, timecounter: usize)
    requires
        s.histories_wf(),
    ensures
        s.skipped(timecounter).histories_wf(),
        all_before(s.skipped(timecounter).actions, timecounter),
        all_before(s.skipped(timecounter).rawactions, timecounter),
{
    let k = s.skipped(timecounter);
    lemma_subseq_kept(s.actions, s.rawactions, timecounter);
    lemma_kept_of_sorted(s.actions, timecounter);
    lemma_kept_of_sorted(s.rawactions, timecounter);
    lemma_kept_is_prefix(s.actions, timecounter);
    lemma_kept_is_prefix(s.rawactions, timecounter);
    assert forall|i: int| 0 <= i < k.actions.len() implies recordable(
        k.teams,
        #[trigger] k.actions[i],
    ) by {
        assert(k.actions[i] == s.actions[i]);
    }
    assert forall|i: int| 0 <= i < k.rawactions.len() implies recordable(
        k.teams,
        #[trigger] k.rawactions[i],
    ) by {
        assert(k.rawactions[i] == s.rawactions[i]);
    }
}

/// The place of the first of the last `checkmax` among `len` actions, or
/// of the first of all if `checkmax` is zero.
pub open spec fn spec_check_from(len: nat, checkmax: usize) -> int {
    if checkmax == 0 || checkmax >= len {
        0
    } else {
        len - checkmax
    }
}

/// The scoring engine.
#[derive(Debug)]
pub struct ActionsInfo {
    teams: Teams,
    actions: Vec<ActionData>,
    rawactions: Vec<ActionData>,
    seek_pending: bool,
}

/// The actions of a list as plain values.
pub open spec fn views_of_actions(actions: Seq<ActionData>) -> Seq<ActionView> {
    actions.map_values(|a: ActionData| a@)
}

impl View for ActionsInfo {
    type V = ActionsInfoView;

    closed spec fn view(&self) -> ActionsInfoView {
        ActionsInfoView {
            teams: self.teams@,
            actions: views_of_actions(self.actions@),
            rawactions: views_of_actions(self.rawactions@),
            seek_pending: self.seek_pending,
        }
    }
}

/// Takes actions off the end of `actions` for as long as the last one is
/// at `timecounter` or later.
fn skip_tail(actions: &mut Vec<ActionData>, timecounter: usize)
    ensures
        views_of_actions(final(actions)@) == kept_before(
            views_of_actions(old(actions)@),
            timecounter,
        ),
{
    let ghost all = views_of_actions(actions@);
    while actions.len() > 0 && actions[actions.len() - 1].time >= timecounter
        invariant
            kept_before(views_of_actions(actions@), timecounter) == kept_before(all, timecounter),
        decreases actions.len(),
    {
        let ghost before = views_of_actions(actions@);
        actions.pop();
        assert(views_of_actions(actions@) =~= before.drop_last());
    }
}

/// How many actions stay when `actions` is cut back to before
/// `timecounter`.
fn kept_len(actions: &Vec<ActionData>, timecounter: usize) -> (m: usize)
    ensures
        m <= actions.len(),
        views_of_actions(actions@).take(m as int) == kept_before(
            views_of_actions(actions@),
            timecounter,
        ),
{
    let ghost all = views_of_actions(actions@);
    let mut m = actions.len();
    assert(all.take(m as int) =~= all);
    while m > 0 && actions[m - 1].time >= timecounter
        invariant
            m <= actions.len(),
            all == views_of_actions(actions@),
            kept_before(all.take(m as int), timecounter) == kept_before(all, timecounter),
        decreases m,
    {
        assert(all.take(m as int).drop_last() =~= all.take(m - 1));
        m -= 1;
    }
    m
}

/// Whether the search for the chain of the goal `curactd` goes on behind
/// `prevactd`, the action `lookbackcnt` steps back, and if not, whether
/// the goal is kept.
fn goal_outcome(prevactd: &ActionData, curactd: &ActionData, lookbackcnt: usize) -> (r: HAReturn)
    requires
        prevactd.time <= curactd.time,
    ensures
        r == goal_result(prevactd@, curactd@, lookbackcnt as int),
{
    if prevactd.action == AIAction::Goal {
        HAReturn::Done(false)
    } else if prevactd.side == curactd.side {
        if curactd.time - prevactd.time > GOAL_CHAIN_TIME {
            HAReturn::Done(true)
        } else {
            HAReturn::ContinueSearch
        }
    } else if lookbackcnt <= 1 {
        HAReturn::ContinueSearch
    } else {
        HAReturn::Done(true)
    }
}

/// Whether the action `curactd` cannot follow the first `m` of `actions`.
fn is_fatal(actions: &Vec<ActionData>, m: usize, curactd: &ActionData) -> (r: bool)
    requires
        m <= actions.len(),
        forall|i: int| 0 <= i < m ==> (#[trigger] actions[i]).time <= curactd.time,
    ensures
        r == fatal(views_of_actions(actions@).take(m as int), curactd@),
{
    let ghost a = views_of_actions(actions@).take(m as int);
    if m == 0 {
        return false;
    }
    let last = &actions[m - 1];
    assert(last@ == a.last());
    match curactd.action {
        AIAction::NoAction => false,
        AIAction::Kick => last.action == AIAction::NoAction || (last.action == AIAction::Goal
            && last.side == curactd.side),
        AIAction::Tackle | AIAction::Catch => last.action == AIAction::NoAction,
        AIAction::Goal => {
            let mut lookbackcnt: usize = 1;
            while lookbackcnt <= m && lookbackcnt <= HA_LOOKBACK_MAX
                invariant
                    1 <= lookbackcnt,
                    0 < m <= actions.len(),
                    curactd.action == AIAction::Goal,
                    a == views_of_actions(actions@).take(m as int),
                    forall|i: int| 0 <= i < m ==> (#[trigger] actions[i]).time <= curactd.time,
                    goal_chain_fatal(a, curactd@, lookbackcnt as int)
                        == goal_chain_fatal(a, curactd@, 1),
                decreases HA_LOOKBACK_MAX + 1 - lookbackcnt,
            {
                let prevactd = &actions[m - lookbackcnt];
                assert(prevactd@ == spec_lookback(a, lookbackcnt as int));
                if prevactd.action == AIAction::NoAction || (prevactd.action == AIAction::Goal
                    && !(lookbackcnt <= 1 && curactd.time == prevactd.time)) {
                    return true;
                }
                match goal_outcome(prevactd, curactd, lookbackcnt) {
                    HAReturn::Done(_) => {
                        return false;
                    },
                    HAReturn::ContinueSearch => {},
                }
                lookbackcnt += 1;
            }
            false
        },
    }
}

impl ActionsInfo {
    /// Whether the engine's state is well formed.
    pub open spec fn wf(&self) -> bool {
        self@.wf()
    }

    /// An engine for the players of two rosters.
    pub fn new(lplayers: &Vec<&str>, rplayers: &Vec<&str>) -> (info: ActionsInfo)
        ensures
            info.wf(),
            info@ == ActionsInfoView::fresh(ids_of(lplayers@), ids_of(rplayers@)),
    {
        let info = ActionsInfo {
            teams: Teams::new(lplayers, rplayers),
            actions: Vec::new(),
            rawactions: Vec::new(),
            seek_pending: false,
        };
        assert(info@.actions =~= Seq::empty());
        assert(info@.rawactions =~= Seq::empty());
        info
    }

    /// The players of both sides.
    pub fn teams(&self) -> (teams: &Teams)
        ensures
            teams@ == self@.teams,
    {
        &self.teams
    }

    /// The significant actions, oldest first.
    pub fn actions(&self) -> (actions: &Vec<ActionData>)
        ensures
            views_of_actions(actions@) == self@.actions,
    {
        &self.actions
    }

    /// All actions on the ball, oldest first.
    pub fn rawactions(&self) -> (actions: &Vec<ActionData>)
        ensures
            views_of_actions(actions@) == self@.rawactions,
    {
        &self.rawactions
    }

    /// Whether the histories are to be cut back when the next action comes.
    pub fn seek_pending(&self) -> (b: bool)
        ensures
            b == self@.seek_pending,
    {
        self.seek_pending
    }

    /// Whether the action `curactd` can be handled: see
    /// [`ActionsInfoView::accepts`].
    pub fn accepts(&self, curactd: &ActionData) -> (ok: bool)
        requires
            self.wf(),
        ensures
            ok == self@.accepts(curactd@),
    {
        let ghost s = self@.settled(curactd@);
        if !is_side(curactd.side) {
            return false;
        }
        if !self.teams.admits(curactd.side, curactd.playerid.as_str()) {
            return false;
        }
        if curactd.action == AIAction::NoAction {
            return self.teams.can_move(curactd.side, curactd.playerid.as_str(), curactd.pos);
        }
        let (na, nr) = if self.seek_pending {
            (kept_len(&self.actions, curactd.time), kept_len(&self.rawactions, curactd.time))
        } else {
            (self.actions.len(), self.rawactions.len())
        };
        proof {
            assert(self@.actions.take(self@.actions.len() as int) =~= self@.actions);
            assert(self@.rawactions.take(self@.rawactions.len() as int) =~= self@.rawactions);
            assert(s.actions == self@.actions.take(na as int));
            assert(s.rawactions == self@.rawactions.take(nr as int));
            if self@.seek_pending {
                lemma_skipped(self@, curactd.time);
            }
            assert(s.wf());
        }
        if nr > 0 && self.rawactions[nr - 1].time > curactd.time {
            assert(s.rawactions.last() == self@.rawactions[nr - 1]);
            return false;
        }
        proof {
            if nr > 0 {
                assert(s.rawactions.last() == self@.rawactions[nr - 1]);
            }
            if na > 0 {
                lemma_subseq_last(s.actions, s.rawactions);
                assert forall|i: int| 0 <= i < na implies (#[trigger] self.actions[i]).time
                    <= curactd.time by {
                    assert(s.actions[i] == self.actions[i]@);
                    assert(s.actions[i].time <= s.actions[na - 1].time);
                }
            }
        }
        if na > 0 {
            assert(s.actions.last() == self.actions[na - 1]@);
            if !self.teams.can_time(&self.actions[na - 1], curactd) {
                return false;
            }
        }
        if !(curactd.action == AIAction::Goal && na > 0) {
            if !self.teams.can_move(curactd.side, curactd.playerid.as_str(), curactd.pos) {
                return false;
            }
            if !self.teams.can_count(curactd.side, curactd.playerid.as_str(), curactd.action) {
                return false;
            }
        }
        !is_fatal(&self.actions, na, curactd)
    }

    /// Looks through the significant actions, the last one first, for an
    /// action of kind `act`, and hands out the first it finds. It looks at
    /// no more than `checkmax` actions, or at all of them if `checkmax` is
    /// zero.
    pub fn find_actiondata_rev(&mut self, act: AIAction, checkmax: usize) -> (r: Option<
        ActionData,
    >)
        ensures
            final(self)@ == old(self)@,
            match r {
                Some(found) => exists|i: int|
                    {
                        &&& spec_check_from(old(self)@.actions.len(), checkmax) <= i < old(
                            self,
                        )@.actions.len()
                        &&& #[trigger] old(self)@.actions[i] == found@
                        &&& found.action == act
                        &&& forall|j: int|
                            i < j < old(self)@.actions.len() ==> (#[trigger] old(
                                self,
                            )@.actions[j]).action != act
                    },
                None => forall|j: int|
                    spec_check_from(old(self)@.actions.len(), checkmax) <= j < old(
                        self,
                    )@.actions.len() ==> (#[trigger] old(self)@.actions[j]).action != act,
            },
    {
        let n = self.actions.len();
        let mut checkcnt: usize = 0;
        let mut i = n;
        while i > 0 && (checkmax == 0 || checkcnt < checkmax)
            invariant
                i <= n,
                n == self.actions.len(),
                self@ == old(self)@,
                checkcnt == n - i,
                checkmax == 0 || checkcnt <= checkmax,
                forall|j: int| i <= j < n ==> (#[trigger] self@.actions[j]).action != act,
            decreases i,
        {
            checkcnt += 1;
            i -= 1;
            let checkact = &self.actions[i];
            if checkact.action == act {
                assert(self@.actions[i as int] == checkact@);
                return Some(checkact.clone());
            }
        }
        None
    }

    /// Notes that the game's time was moved: the histories are cut back
    /// when the next action comes, to before that action's time.
    pub fn seek(&mut self, _seekdelta: isize)
        ensures
            final(self)@ == old(self)@.sought(),
            old(self).wf() ==> final(self).wf(),
    {
        self.seek_pending = true;
    }

    /// Takes every action at `timecounter` or later off the end of both
    /// histories.
    pub fn skip_after_including(&mut self, timecounter: usize)
        requires
            old(self).wf(),
        ensures
            final(self).wf(),
            final(self)@ == old(self)@.skipped(timecounter),
            all_before(final(self)@.actions, timecounter),
            all_before(final(self)@.rawactions, timecounter),
    {
        skip_tail(&mut self.actions, timecounter);
        skip_tail(&mut self.rawactions, timecounter);
        proof {
            lemma_skipped(old(self)@, timecounter);
        }
    }

    /// Notes that `card` was shown to the player `playerid` of `side` at
    /// `time`, and takes its cost off the player's score.
    pub fn handle_card(&mut self, time: usize, side: char, playerid: &str, card: Card)
        requires
            old(self).wf(),
            old(self)@.teams.admits(side, playerid@),
        ensures
            final(self).wf(),
            final(self)@ == (ActionsInfoView {
                teams: old(self)@.teams.carded(time, side, playerid@, card),
                ..old(self)@
            }),
    {
        self.teams.card_issued(time, side, playerid, card);
        proof {
            lemma_recordable_same_rosters(old(self)@.teams, self@.teams, self@.actions);
            lemma_recordable_same_rosters(old(self)@.teams, self@.teams, self@.rawactions);
        }
    }

    /// Changes the score of the player `playerid` of `side` by
    /// `pscoredelta` at `time`.
    fn pscore_update(&mut self, time: usize, side: char, playerid: &str, pscoredelta: i64)
        requires
            old(self).wf(),
            old(self)@.teams.admits(side, playerid@),
        ensures
            final(self).wf(),
            final(self)@ == (ActionsInfoView {
                teams: old(self)@.teams.scored(time, side, playerid@, pscoredelta as int),
                ..old(self)@
            }),
            final(self)@.teams.lpids == old(self)@.teams.lpids,
            final(self)@.teams.rpids == old(self)@.teams.rpids,
    {
        self.teams.pscore_update(time, side, playerid, pscoredelta);
        proof {
            lemma_recordable_same_rosters(old(self)@.teams, self@.teams, self@.actions);
            lemma_recordable_same_rosters(old(self)@.teams, self@.teams, self@.rawactions);
        }
    }

    /// Credits the players of two actions: `ppscore` for the earlier one's,
    /// `cpscore` for the new one's, both at the new action's time.
    fn pscore_update_both(
        &mut self,
        curactd: &ActionData,
        prevactd: &ActionData,
        ppscore: i64,
        cpscore: i64,
    )
        requires
            old(self).wf(),
            old(self)@.teams.admits(prevactd.side, prevactd.playerid@),
            old(self)@.teams.admits(curactd.side, curactd.playerid@),
        ensures
            final(self).wf(),
            final(self)@ == (ActionsInfoView {
                teams: both_scored(
                    old(self)@.teams,
                    prevactd@,
                    curactd@,
                    ppscore as int,
                    cpscore as int,
                ),
                ..old(self)@
            }),
            final(self)@.teams.lpids == old(self)@.teams.lpids,
            final(self)@.teams.rpids == old(self)@.teams.rpids,
    {
        self.pscore_update(curactd.time, prevactd.side, prevactd.playerid.as_str(), ppscore);
        self.pscore_update(curactd.time, curactd.side, curactd.playerid.as_str(), cpscore);
    }

    /// Credits the players of two actions with the shares of the new
    /// action's kind: those for one side where both are of one side, the
    /// others otherwise.
    fn pscore_update_pair(&mut self, curactd: &ActionData, prevactd: &ActionData)
        requires
            old(self).wf(),
            old(self)@.teams.admits(prevactd.side, prevactd.playerid@),
            old(self)@.teams.admits(curactd.side, curactd.playerid@),
        ensures
            final(self).wf(),
            final(self)@ == (ActionsInfoView {
                teams: pair_scored(old(self)@.teams, prevactd@, curactd@),
                ..old(self)@
            }),
            final(self)@.teams.lpids == old(self)@.teams.lpids,
            final(self)@.teams.rpids == old(self)@.teams.rpids,
    {
        let score = curactd.action.shares();
        if prevactd.side == curactd.side {
            self.pscore_update_both(curactd, prevactd, score.0, score.1);
        } else {
            self.pscore_update_both(curactd, prevactd, score.2, score.3);
        }
    }

    /// Scores the kick `curactd` that follows `prevactd`: a pass among team
    /// mates, a pass to oneself, a ball lost to the other side, or the kick
    /// after a goal. Tells whether the kick is kept.
    pub fn handle_kick(&mut self, curactd: &mut ActionData, prevactd: &ActionData) -> (r: HAReturn)
        requires
            old(self).wf(),
            !kick_fatal(prevactd@, old(curactd)@),
            prevactd.time <= old(curactd).time,
            old(self)@.teams.admits(prevactd.side, prevactd.playerid@),
            old(self)@.teams.admits(old(curactd).side, old(curactd).playerid@),
        ensures
            final(self).wf(),
            r == kick_result(prevactd@, old(curactd)@),
            final(self)@ == (ActionsInfoView {
                teams: kick_teams(old(self)@.teams, prevactd@, old(curactd)@),
                ..old(self)@
            }),
            *final(curactd) == *old(curactd),
            final(self)@.teams.lpids == old(self)@.teams.lpids,
            final(self)@.teams.rpids == old(self)@.teams.rpids,
    {
        let score = curactd.action.shares();
        match prevactd.action {
            AIAction::NoAction => unreached(),
            AIAction::Kick | AIAction::Catch | AIAction::Tackle => {
                if prevactd.side == curactd.side && prevactd.playerid == curactd.playerid
                    && prevactd.action == AIAction::Kick {
                    let dtime = curactd.time - prevactd.time;
                    if dtime < SELF_PASS_MINTIME {
                        return HAReturn::Done(false);
                    }
                    let ppscore = percent(score.0, SCORE_SELF_PASS_RATIO);
                    let cpscore = percent(score.1, SCORE_SELF_PASS_RATIO);
                    self.pscore_update_both(curactd, prevactd, ppscore, cpscore);
                } else {
                    self.pscore_update_pair(curactd, prevactd);
                }
                HAReturn::Done(true)
            },
            AIAction::Goal => {
                if prevactd.side == curactd.side {
                    unreached()
                } else {
                    let pscore = percent(score.1, SCORE_SELF_PASS_RATIO);
                    self.pscore_update(
                        curactd.time,
                        curactd.side,
                        curactd.playerid.as_str(),
                        pscore,
                    );
                    HAReturn::Done(true)
                }
            },
        }
    }

    /// Scores the goal `curactd` against `prevactd`, the action
    /// `lookbackcnt` steps back. The last action says whose goal it is.
    /// Actions of the goal's side earn a share that gets smaller with each
    /// step; an action of the other side costs its player. Tells whether
    /// the search for the goal's chain goes on, and if not, whether the
    /// goal is kept.
    pub fn handle_goal(
        &mut self,
        curactd: &mut ActionData,
        prevactd: &ActionData,
        lookbackcnt: usize,
    ) -> (r: HAReturn)
        requires
            old(self).wf(),
            1 <= lookbackcnt <= HA_LOOKBACK_MAX,
            !goal_fatal(prevactd@, old(curactd)@, lookbackcnt as int),
            prevactd.time <= old(curactd).time,
            old(self)@.teams.admits(prevactd.side, prevactd.playerid@),
            old(self)@.teams.admits(old(curactd).side, old(curactd).playerid@),
        ensures
            final(self).wf(),
            r == goal_result(prevactd@, old(curactd)@, lookbackcnt as int),
            final(curactd)@ == goal_entered(prevactd@, old(curactd)@, lookbackcnt as int),
            final(self)@ == (ActionsInfoView {
                teams: goal_teams(
                    old(self)@.teams,
                    prevactd@,
                    final(curactd)@,
                    lookbackcnt as int,
                ),
                ..old(self)@
            }),
            final(self)@.teams.admits(final(curactd).side, final(curactd).playerid@),
            final(self)@.teams.lpids == old(self)@.teams.lpids,
            final(self)@.teams.rpids == old(self)@.teams.rpids,
    {
        match prevactd.action {
            AIAction::NoAction => unreached(),
            AIAction::Goal => HAReturn::Done(false),
            AIAction::Kick | AIAction::Tackle | AIAction::Catch => {
                if lookbackcnt <= 1 {
                    if is_xplayerid(curactd.playerid.as_str()) {
                        curactd.playerid = prevactd.playerid.clone();
                    }
                }
                if prevactd.side == curactd.side {
                    let pscore = goal_chain_share(lookbackcnt);
                    if lookbackcnt <= 1 {
                        self.pscore_update(
                            curactd.time,
                            curactd.side,
                            curactd.playerid.as_str(),
                            pscore,
                        );
                    } else {
                        self.pscore_update(
                            curactd.time,
                            curactd.side,
                            prevactd.playerid.as_str(),
                            pscore,
                        );
                    }
                    if curactd.time - prevactd.time > GOAL_CHAIN_TIME {
                        return HAReturn::Done(true);
                    }
                    HAReturn::ContinueSearch
                } else {
                    if lookbackcnt <= 1 {
                        proof {
                            lemma_reserved_ids(curactd.playerid@);
                        }
                        curactd.playerid = oops_otherside_id(curactd.playerid.as_str());
                        let pscore = self_goal_share(prevactd.action);
                        self.pscore_update(
                            curactd.time,
                            prevactd.side,
                            prevactd.playerid.as_str(),
                            pscore,
                        );
                        return HAReturn::ContinueSearch;
                    }
                    let pscore = goal_chain_otherside_share(lookbackcnt);
                    self.pscore_update(
                        curactd.time,
                        prevactd.side,
                        prevactd.playerid.as_str(),
                        pscore,
                    );
                    HAReturn::Done(true)
                }
            },
        }
    }

    /// Scores the tackle `curactd` that follows `prevactd`, unless it
    /// repeats a tackle of the same player too soon or follows a catch or
    /// a goal. Tells whether the tackle is kept.
    pub fn handle_tackle(&mut self, curactd: &mut ActionData, prevactd: &ActionData) -> (r:
        HAReturn)
        requires
            old(self).wf(),
            prevactd.action != AIAction::NoAction,
            prevactd.time <= old(curactd).time,
            old(self)@.teams.admits(prevactd.side, prevactd.playerid@),
            old(self)@.teams.admits(old(curactd).side, old(curactd).playerid@),
        ensures
            final(self).wf(),
            r == tackle_result(prevactd@, old(curactd)@),
            final(self)@ == (ActionsInfoView {
                teams: tackle_teams(old(self)@.teams, prevactd@, old(curactd)@),
                ..old(self)@
            }),
            *final(curactd) == *old(curactd),
            final(self)@.teams.lpids == old(self)@.teams.lpids,
            final(self)@.teams.rpids == old(self)@.teams.rpids,
    {
        match prevactd.action {
            AIAction::NoAction => unreached(),
            AIAction::Kick => {
                self.pscore_update_pair(curactd, prevactd);
                HAReturn::Done(true)
            },
            AIAction::Tackle => {
                if prevactd.side == curactd.side && prevactd.playerid == curactd.playerid {
                    let dtime = curactd.time - prevactd.time;
                    if dtime < REPEAT_TACKLE_MINTIME {
                        return HAReturn::Done(false);
                    }
                }
                self.pscore_update_pair(curactd, prevactd);
                HAReturn::Done(true)
            },
            AIAction::Catch | AIAction::Goal => HAReturn::Done(false),
        }
    }

    /// Scores the catch `curactd` that follows `prevactd`, unless it
    /// follows a catch or a goal. Tells whether the catch is kept.
    pub fn handle_catch(&mut self, curactd: &mut ActionData, prevactd: &ActionData) -> (r:
        HAReturn)
        requires
            old(self).wf(),
            prevactd.action != AIAction::NoAction,
            prevactd.time <= old(curactd).time,
            old(self)@.teams.admits(prevactd.side, prevactd.playerid@),
            old(self)@.teams.admits(old(curactd).side, old(curactd).playerid@),
        ensures
            final(self).wf(),
            r == catch_result(prevactd@, old(curactd)@),
            final(self)@ == (ActionsInfoView {
                teams: catch_teams(old(self)@.teams, prevactd@, old(curactd)@),
                ..old(self)@
            }),
            *final(curactd) == *old(curactd),
            final(self)@.teams.lpids == old(self)@.teams.lpids,
            final(self)@.teams.rpids == old(self)@.teams.rpids,
    {
        match prevactd.action {
            AIAction::NoAction => unreached(),
            AIAction::Kick | AIAction::Tackle => {
                self.pscore_update_pair(curactd, prevactd);
                HAReturn::Done(true)
            },
            AIAction::Catch | AIAction::Goal => HAReturn::Done(false),
        }
    }

    /// Gives the side of both actions the ball for the time between them,
    /// if `prevactd` is the last action before `curactd` and of its side.
    fn balltime_update(&mut self, prevactd: &ActionData, curactd: &ActionData, lookbackcnt: usize)
        requires
            prevactd.time <= curactd.time,
            lookbackcnt == 1 ==> old(self)@.teams.can_time(prevactd@, curactd@),
        ensures
            final(self)@ == (ActionsInfoView {
                teams: if lookbackcnt == 1 {
                    old(self)@.teams.ball_timed(prevactd@, curactd@)
                } else {
                    old(self)@.teams
                },
                ..old(self)@
            }),
    {
        if lookbackcnt != 1 {
            return ;
        }
        self.teams.balltime_update(prevactd, curactd);
    }

    /// Handles the action `curactd`.
    ///
    /// If the game's time was moved since the last action, both histories
    /// are first cut back to before the action's time. A player's mere
    /// movement then only moves the player. An action on the ball is held
    /// against the last significant action, a goal against up to
    /// [`HA_LOOKBACK_MAX`] of them, and the players are credited as the
    /// rules say; the action moves its player, is counted, and is entered
    /// in the histories.
    pub fn handle_action(&mut self, curactd: ActionData)
        requires
            old(self).wf(),
            old(self)@.accepts(curactd@),
        ensures
            final(self).wf(),
            final(self)@ == old(self)@.handled(curactd@),
    {
        let mut curactd = curactd;
        let ghost cur0 = curactd@;
        if self.seek_pending {
            self.skip_after_including(curactd.time);
            self.seek_pending = false;
        }
        let ghost s = self@;
        assert(s == old(self)@.settled(cur0));
        if curactd.action == AIAction::NoAction {
            self.teams.dist_update_from_pos(
                curactd.side,
                curactd.playerid.as_str(),
                curactd.pos,
            );
            proof {
                lemma_recordable_same_rosters(s.teams, self@.teams, s.actions);
                lemma_recordable_same_rosters(s.teams, self@.teams, s.rawactions);
            }
            return ;
        }
        let bupdate_dist = !(curactd.action == AIAction::Goal && self.actions.len() > 0);
        proof {
            if s.actions.len() > 0 {
                lemma_subseq_last(s.actions, s.rawactions);
            }
        }
        let bupdate_actions = self.attribute(&mut curactd);
        let ghost rec = curactd@;
        proof {
            lemma_attributed_keeps_stats(s.teams, s.actions, cur0);
            lemma_stats_kept(self@.teams, s.teams);
            lemma_moved_keeps_counts(self@.teams, rec.side, rec.playerid, rec.pos, rec.action);
        }
        if bupdate_dist {
            self.teams.dist_update_from_pos(
                curactd.side,
                curactd.playerid.as_str(),
                curactd.pos,
            );
        }
        if bupdate_actions {
            self.actions.push(curactd.clone());
            proof {
                assert(self@.actions =~= s.actions.push(rec));
                lemma_sorted_push(s.actions, rec);
            }
        }
        self.teams.count_increment(curactd.side, curactd.playerid.as_str(), curactd.action);
        self.rawactions.push(curactd);
        proof {
            assert(self@.rawactions =~= s.rawactions.push(rec));
            lemma_sorted_push(s.rawactions, rec);
            lemma_subseq_push(s.actions, s.rawactions, rec);
            assert(self@.teams.lpids == s.teams.lpids);
            assert(self@.teams.rpids == s.teams.rpids);
            lemma_recordable_same_rosters(s.teams, self@.teams, s.actions);
            lemma_recordable_same_rosters(s.teams, self@.teams, s.rawactions);
            assert(recordable(self@.teams, rec));
            assert(all_recordable(self@.teams, self@.actions)) by {
                assert forall|i: int| 0 <= i < self@.actions.len() implies recordable(
                    self@.teams,
                    #[trigger] self@.actions[i],
                ) by {
                    if i < s.actions.len() {
                        assert(self@.actions[i] == s.actions[i]);
                    }
                }
            }
            assert(all_recordable(self@.teams, self@.rawactions)) by {
                assert forall|i: int| 0 <= i < self@.rawactions.len() implies recordable(
                    self@.teams,
                    #[trigger] self@.rawactions[i],
                ) by {
                    if i < s.rawactions.len() {
                        assert(self@.rawactions[i] == s.rawactions[i]);
                    }
                }
            }
        }
    }

    /// Holds the action on the ball `curactd` against the significant
    /// actions before it and credits the players as the rules say. Tells
    /// whether the action is kept as a significant one.
    fn attribute(&mut self, curactd: &mut ActionData) -> (save: bool)
        requires
            old(self).wf(),
            old(curactd).action != AIAction::NoAction,
            spec_is_side(old(curactd).side),
            old(self)@.teams.admits(old(curactd).side, old(curactd).playerid@),
            old(self)@.actions.len() > 0 ==> old(self)@.actions.last().time <= old(curactd).time,
            old(self)@.actions.len() > 0 ==> old(self)@.teams.can_time(
                old(self)@.actions.last(),
                old(curactd)@,
            ),
            !fatal(old(self)@.actions, old(curactd)@),
        ensures
            final(self).wf(),
            save == recorded(old(self)@.actions, old(curactd)@),
            final(curactd)@ == entered(old(self)@.actions, old(curactd)@),
            final(self)@ == (ActionsInfoView {
                teams: attributed(old(self)@.teams, old(self)@.actions, old(curactd)@),
                ..old(self)@
            }),
            final(self)@.teams.admits(final(curactd).side, final(curactd).playerid@),
            final(self)@.teams.lpids == old(self)@.teams.lpids,
            final(self)@.teams.rpids == old(self)@.teams.rpids,
    {
        let ghost s = self@;
        let n = self.actions.len();
        if n == 0 {
            return curactd.action == AIAction::Kick;
        }
        if curactd.action == AIAction::Goal {
            return self.goal_lookback(curactd);
        }
        let prevactd = self.actions[n - 1].clone();
        proof {
            assert(recordable(s.teams, s.actions[n - 1]));
        }
        self.balltime_update(&prevactd, curactd, 1);
        proof {
            lemma_recordable_same_rosters(s.teams, self@.teams, s.actions);
            lemma_recordable_same_rosters(s.teams, self@.teams, s.rawactions);
        }
        let r = match curactd.action {
            AIAction::Kick => self.handle_kick(curactd, &prevactd),
            AIAction::Tackle => self.handle_tackle(curactd, &prevactd),
            _ => self.handle_catch(curactd, &prevactd),
        };
        match r {
            HAReturn::Done(keep) => keep,
            HAReturn::ContinueSearch => false,
        }
    }

    /// Holds the goal `curactd` against the significant actions, the last
    /// one first, until the rules end the search or it has gone
    /// [`HA_LOOKBACK_MAX`] steps back. Tells whether the goal is kept.
    fn goal_lookback(&mut self, curactd: &mut ActionData) -> (save: bool)
        requires
            old(self).wf(),
            old(self)@.actions.len() > 0,
            old(self)@.actions.last().time <= old(curactd).time,
            old(curactd).action == AIAction::Goal,
            spec_is_side(old(curactd).side),
            old(self)@.teams.admits(old(curactd).side, old(curactd).playerid@),
            old(self)@.teams.can_time(old(self)@.actions.last(), old(curactd)@),
            !fatal(old(self)@.actions, old(curactd)@),
        ensures
            final(self).wf(),
            save == recorded(old(self)@.actions, old(curactd)@),
            final(curactd)@ == entered(old(self)@.actions, old(curactd)@),
            final(self)@ == (ActionsInfoView {
                teams: attributed(old(self)@.teams, old(self)@.actions, old(curactd)@),
                ..old(self)@
            }),
            final(self)@.teams.admits(final(curactd).side, final(curactd).playerid@),
            final(self)@.teams.lpids == old(self)@.teams.lpids,
            final(self)@.teams.rpids == old(self)@.teams.rpids,
    {
        let ghost s = self@;
        let ghost cur0 = curactd@;
        let ghost rec = entered(s.actions, cur0);
        let ghost total = attributed(s.teams, s.actions, cur0);
        let n = self.actions.len();
        let mut save = false;
        let mut searching = true;
        let mut lookbackcnt: usize = 0;
        proof {
            lemma_goal_chain_fatal_same(s.actions, cur0, rec, 1);
        }
        while searching && lookbackcnt < n && lookbackcnt < HA_LOOKBACK_MAX
            invariant
                self.wf(),
                n == s.actions.len(),
                n > 0,
                s.wf(),
                lookbackcnt <= n,
                lookbackcnt <= HA_LOOKBACK_MAX,
                self@.actions == s.actions,
                self@.rawactions == s.rawactions,
                self@.seek_pending == s.seek_pending,
                self@.teams.lpids == s.teams.lpids,
                self@.teams.rpids == s.teams.rpids,
                cur0.action == AIAction::Goal,
                s.actions.last().time <= cur0.time,
                s.teams.can_time(s.actions.last(), cur0),
                rec == entered(s.actions, cur0),
                total == attributed(s.teams, s.actions, cur0),
                self@.teams.admits(curactd.side, curactd.playerid@),
                lookbackcnt == 0 ==> searching && !save && curactd@ == cur0 && self@.teams
                    == s.teams,
                lookbackcnt >= 1 ==> curactd@ == rec,
                searching ==> !goal_chain_fatal(s.actions, rec, lookbackcnt + 1),
                lookbackcnt >= 1 && searching ==> save == (lookbackcnt >= 2) && goal_result(
                    s.actions.last(),
                    cur0,
                    1,
                ) == HAReturn::ContinueSearch && goal_chain_teams(
                    self@.teams,
                    s.actions,
                    rec,
                    lookbackcnt + 1,
                ) == total,
                !searching ==> save == recorded(s.actions, cur0) && self@.teams == total,
            decreases
                    if searching {
                        HA_LOOKBACK_MAX + 1 - lookbackcnt
                    } else {
                        0
                    },
        {
            lookbackcnt += 1;
            let prevactd = self.actions[n - lookbackcnt].clone();
            proof {
                assert(prevactd@ == spec_lookback(s.actions, lookbackcnt as int));
                assert(recordable(s.teams, s.actions[n - lookbackcnt]));
                assert(s.actions[n - lookbackcnt].time <= s.actions[n - 1].time);
            }
            self.balltime_update(&prevactd, curactd, lookbackcnt);
            proof {
                lemma_recordable_same_rosters(s.teams, self@.teams, s.actions);
                lemma_recordable_same_rosters(s.teams, self@.teams, s.rawactions);
            }
            if lookbackcnt > 1 {
                save = true;
            }
            if let HAReturn::Done(keep) = self.handle_goal(curactd, &prevactd, lookbackcnt) {
                if lookbackcnt <= 1 {
                    save = keep;
                }
                searching = false;
            }
        }
        save
    }
}

/// Whether the search for a goal's chain comes upon an action that a goal
/// cannot be held against depends on the goal's side and time alone.
pub proof fn lemma_goal_chain_fatal_same(
    actions: Seq<ActionView>,
    c1: ActionView,
    c2: ActionView,
    lookbackcnt: int,
)
    requires
        c1.side == c2.side,
        c1.time == c2.time,
    ensures
        goal_chain_fatal(actions, c1, lookbackcnt) == goal_chain_fatal(
            actions,
            c2,
            lookbackcnt,
        ),
    decreases HA_LOOKBACK_MAX + 1 - lookbackcnt,
{
    if in_lookback(actions, lookbackcnt) {
        lemma_goal_chain_fatal_same(actions, c1, c2, lookbackcnt + 1);
    }
}

} // verus!
