//! The players of both sides, with their scores, statistics and positions.

use vstd::prelude::*;
use crate::action::{AIAction, ActionData, ActionView};
use crate::entities::{is_xplayerid, spec_is_xplayerid, str_eq, SIDE_L};
use crate::geometry::{
    distance,
    is_unseen,
    spec_distance,
    spec_is_unseen,
    spec_unseen,
    Pos,
    POS_UNSEEN,
};
use crate::playdata::Card;
use crate::score::{Score, ScoreView};

verus! {

/// A player as plain values.
pub struct PlayerView {
    pub id: Seq<char>,
    pub score: ScoreView,
    /// The position last seen, or the position that means "not observed yet".
    pub pos: Pos,
}

impl PlayerView {
    /// The score is well formed, and it started at zero.
    pub open spec fn wf(self) -> bool {
        &&& self.score.wf()
        &&& self.score.opening() == 0
    }

    /// The histories of the score are consistent, and the score started at
    /// zero. This is what is left of being well formed where numbers are
    /// not limited by the machine.
    pub open spec fn sound(self) -> bool {
        &&& self.score.consistent()
        &&& self.score.opening() == 0
    }

    /// A player of whom nothing is known yet.
    pub open spec fn fresh(id: Seq<char>) -> PlayerView {
        PlayerView {
            id,
            score: ScoreView {
                pscore: 0,
                deltas: Seq::empty(),
                cumul: Seq::empty(),
                hist_min: i128::MAX as int,
                hist_max: i128::MIN as int,
                kicks: 0,
                tackles: 0,
                catches: 0,
                dist: 0,
                card: Card::NoCard,
            },
            pos: spec_unseen(),
        }
    }

    /// The player after a change of `delta` to the score at `time`.
    pub open spec fn scored(self, time: usize, delta: int) -> PlayerView {
        PlayerView { score: self.score.updated(time, delta), ..self }
    }

    /// The player after `card` was shown at `time`.
    pub open spec fn carded(self, time: usize, card: Card) -> PlayerView {
        PlayerView { score: self.score.carded(time, card), ..self }
    }

    /// The player after one more action of kind `atype` was counted. Only
    /// kicks, tackles and catches are counted.
    pub open spec fn counted(self, atype: AIAction) -> PlayerView {
        match atype {
            AIAction::Kick => PlayerView {
                score: ScoreView { kicks: self.score.kicks + 1, ..self.score },
                ..self
            },
            AIAction::Tackle => PlayerView {
                score: ScoreView { tackles: self.score.tackles + 1, ..self.score },
                ..self
            },
            AIAction::Catch => PlayerView {
                score: ScoreView { catches: self.score.catches + 1, ..self.score },
                ..self
            },
            _ => self,
        }
    }

    /// Whether the count of actions of kind `atype` has room for one more.
    pub open spec fn can_count(self, atype: AIAction) -> bool {
        match atype {
            AIAction::Kick => self.score.kicks < usize::MAX,
            AIAction::Tackle => self.score.tackles < usize::MAX,
            AIAction::Catch => self.score.catches < usize::MAX,
            _ => true,
        }
    }

    /// Whether the distance travelled has room for the way to `npos`.
    pub open spec fn can_move(self, npos: Pos) -> bool {
        spec_is_unseen(self.pos) || self.score.dist + spec_distance(self.pos, npos) <= u64::MAX
    }

    /// The player after being seen at `npos`: the first sighting only gives
    /// the position, each later one adds the way from the position before.
    pub open spec fn moved(self, npos: Pos) -> PlayerView {
        if spec_is_unseen(self.pos) {
            PlayerView { pos: npos, ..self }
        } else {
            PlayerView {
                pos: npos,
                score: self.score.travelled(spec_distance(self.pos, npos)),
                ..self
            }
        }
    }
}

/// Whether one of `players` has the identifier `id`.
pub open spec fn has_player(players: Seq<PlayerView>, id: Seq<char>) -> bool {
    exists|i: int| 0 <= i < players.len() && (#[trigger] players[i]).id == id
}

/// The place in `players` of a player with the identifier `id`.
pub open spec fn index_of(players: Seq<PlayerView>, id: Seq<char>) -> int {
    choose|i: int| 0 <= i < players.len() && (#[trigger] players[i]).id == id
}

/// No two of `players` have the same identifier.
pub open spec fn distinct_ids(players: Seq<PlayerView>) -> bool {
    forall|i: int, j: int|
        0 <= i < j < players.len() ==> (#[trigger] players[i]).id != (#[trigger] players[j]).id
}

/// Every one of `players` is well formed.
pub open spec fn all_wf(players: Seq<PlayerView>) -> bool {
    forall|i: int| 0 <= i < players.len() ==> (#[trigger] players[i]).wf()
}

/// Every one of `players` is sound.
pub open spec fn all_sound(players: Seq<PlayerView>) -> bool {
    forall|i: int| 0 <= i < players.len() ==> (#[trigger] players[i]).sound()
}

/// Every identifier of `pids` belongs to one of `players`, and every one of
/// `players` is named in `pids`.
pub open spec fn same_ids(pids: Seq<Seq<char>>, players: Seq<PlayerView>) -> bool {
    &&& forall|i: int| 0 <= i < pids.len() ==> has_player(players, #[trigger] pids[i])
    &&& forall|j: int| 0 <= j < players.len() ==> pids.contains((#[trigger] players[j]).id)
}

/// The players of a roster, each as one of whom nothing is known yet, in
/// the order in which the roster first names them.
pub open spec fn fresh_players(ids: Seq<Seq<char>>) -> Seq<PlayerView>
    decreases ids.len(),
{
    if ids.len() == 0 {
        Seq::empty()
    } else {
        let rest = fresh_players(ids.drop_last());
        if has_player(rest, ids.last()) {
            rest
        } else {
            rest.push(PlayerView::fresh(ids.last()))
        }
    }
}

/// Where identifiers are distinct, a player's place is the only one with
/// the player's identifier.
pub proof fn lemma_index_of(players: Seq<PlayerView>, i: int)
    requires
        distinct_ids(players),
        0 <= i < players.len(),
    ensures
        has_player(players, players[i].id),
        index_of(players, players[i].id) == i,
{
    let j = index_of(players, players[i].id);
    assert(0 <= j < players.len() && players[j].id == players[i].id);
}

/// Putting another state of the same player in a player's place changes
/// neither who is there nor where.
pub proof fn lemma_update_keeps_ids(players: Seq<PlayerView>, i: int, p: PlayerView)
    requires
        distinct_ids(players),
        0 <= i < players.len(),
        p.id == players[i].id,
    ensures
        distinct_ids(players.update(i, p)),
        forall|id: Seq<char>|
            has_player(players, id) == #[trigger] has_player(players.update(i, p), id),
        forall|id: Seq<char>|
            has_player(players, id) ==> index_of(players, id) == #[trigger] index_of(
                players.update(i, p),
                id,
            ),
{
    let u = players.update(i, p);
    assert forall|a: int, b: int| 0 <= a < b < u.len() implies (#[trigger] u[a]).id != (
    #[trigger] u[b]).id by {
        assert(u[a].id == players[a].id);
        assert(u[b].id == players[b].id);
    }
    assert forall|id: Seq<char>| has_player(players, id) == #[trigger] has_player(u, id) by {
        if has_player(players, id) {
            let k = index_of(players, id);
            assert(u[k].id == id);
        }
        if has_player(u, id) {
            let k = index_of(u, id);
            assert(players[k].id == id);
        }
    }
    assert forall|id: Seq<char>| has_player(players, id) implies index_of(players, id)
        == #[trigger] index_of(u, id) by {
        let k = index_of(players, id);
        assert(u[k].id == id);
        lemma_index_of(u, k);
    }
}

/// The players made for a roster have distinct identifiers and well-formed
/// scores, and they are those whom the roster names.
pub proof fn lemma_fresh_players(ids: Seq<Seq<char>>)
    ensures
        distinct_ids(fresh_players(ids)),
        all_wf(fresh_players(ids)),
        same_ids(ids, fresh_players(ids)),
        forall|j: int|
            0 <= j < fresh_players(ids).len() ==> #[trigger] fresh_players(ids)[j]
                == PlayerView::fresh(fresh_players(ids)[j].id),
    decreases ids.len(),
{
    let players = fresh_players(ids);
    if ids.len() > 0 {
        let head = ids.drop_last();
        let rest = fresh_players(head);
        lemma_fresh_players(head);
        assert forall|i: int| 0 <= i < ids.len() implies has_player(players, #[trigger] ids[i]) by {
            if i < head.len() {
                assert(has_player(rest, head[i]));
                let k = index_of(rest, head[i]);
                assert(players[k].id == ids[i]);
            } else if has_player(rest, ids.last()) {
            } else {
                assert(players[rest.len() as int].id == ids[i]);
            }
        }
        assert forall|j: int| 0 <= j < players.len() implies ids.contains(
            (#[trigger] players[j]).id,
        ) by {
            if j < rest.len() {
                assert(head.contains(rest[j].id));
                let k = choose|k: int| 0 <= k < head.len() && head[k] == rest[j].id;
                assert(ids[k] == players[j].id);
            } else {
                assert(ids[ids.len() - 1] == players[j].id);
            }
        }
    }
}

/// `m` is the highest of `values` and of `floor`.
pub open spec fn is_highest(values: Seq<int>, floor: int, m: int) -> bool {
    &&& floor <= m
    &&& forall|i: int| 0 <= i < values.len() ==> #[trigger] values[i] <= m
    &&& (m == floor || values.contains(m))
}

/// `m` is the lowest of `values` and of `ceiling`.
pub open spec fn is_lowest(values: Seq<int>, ceiling: int, m: int) -> bool {
    &&& m <= ceiling
    &&& forall|i: int| 0 <= i < values.len() ==> m <= #[trigger] values[i]
    &&& (m == ceiling || values.contains(m))
}

/// The scores of `players`, each with the last card's cost taken out again
/// unless `inc_cardscore`.
pub open spec fn scores_of(players: Seq<PlayerView>, inc_cardscore: bool) -> Seq<int> {
    players.map_values(|p: PlayerView| p.score.score(inc_cardscore))
}

/// The lowest score that each of `players` ever had after a change.
pub open spec fn hist_mins_of(players: Seq<PlayerView>) -> Seq<int> {
    players.map_values(|p: PlayerView| p.score.hist_min)
}

/// The highest score that each of `players` ever had after a change.
pub open spec fn hist_maxs_of(players: Seq<PlayerView>) -> Seq<int> {
    players.map_values(|p: PlayerView| p.score.hist_max)
}

/// The distance that each of `players` travelled.
pub open spec fn dists_of(players: Seq<PlayerView>) -> Seq<int> {
    players.map_values(|p: PlayerView| p.score.dist as int)
}

/// A player: the identifier, the score and statistics, and the position
/// last seen.
#[derive(Debug)]
pub struct Player {
    id: String,
    score: Score,
    pos: Pos,
}

impl View for Player {
    type V = PlayerView;

    closed spec fn view(&self) -> PlayerView {
        PlayerView { id: self.id@, score: self.score@, pos: self.pos }
    }
}

impl Player {
    pub fn new(playerid: String, score: Score, pos: Pos) -> (p: Player)
        ensures
            p@ == (PlayerView { id: playerid@, score: score@, pos }),
    {
        Player { id: playerid, score, pos }
    }

    /// The player's identifier.
    pub fn id(&self) -> (id: &String)
        ensures
            id@ == self@.id,
    {
        &self.id
    }

    /// The player's score and statistics.
    pub fn score(&self) -> (s: &Score)
        ensures
            s@ == self@.score,
    {
        &self.score
    }

    /// The position at which the player was last seen.
    pub fn pos(&self) -> (pos: Pos)
        ensures
            pos == self@.pos,
    {
        self.pos
    }
}

/// The players of a list as plain values.
pub closed spec fn views_of(players: Seq<Player>) -> Seq<PlayerView> {
    players.map_values(|p: Player| p@)
}

/// The identifiers of a roster as plain values.
pub open spec fn ids_of(roster: Seq<&str>) -> Seq<Seq<char>> {
    roster.map_values(|s: &str| s@)
}

/// The place in `players` of the player with the identifier `playerid`.
fn find_player(players: &Vec<Player>, playerid: &str) -> (r: Option<usize>)
    ensures
        match r {
            Some(i) => i < players.len() && views_of(players@)[i as int].id == playerid@,
            None => !has_player(views_of(players@), playerid@),
        },
{
    let mut i: usize = 0;
    while i < players.len()
        invariant
            i <= players.len(),
            forall|j: int| 0 <= j < i ==> (#[trigger] views_of(players@)[j]).id != playerid@,
        decreases players.len() - i,
    {
        if str_eq(players[i].id.as_str(), playerid) {
            return Some(i);
        }
        i += 1;
    }
    None
}

/// The highest of `values` and of `floor`.
pub open spec fn highest(values: Seq<int>, floor: int) -> int
    decreases values.len(),
{
    if values.len() == 0 {
        floor
    } else {
        let m = highest(values.drop_last(), floor);
        if m < values.last() {
            values.last()
        } else {
            m
        }
    }
}

/// The lowest of `values` and of `ceiling`.
pub open spec fn lowest(values: Seq<int>, ceiling: int) -> int
    decreases values.len(),
{
    if values.len() == 0 {
        ceiling
    } else {
        let m = lowest(values.drop_last(), ceiling);
        if m > values.last() {
            values.last()
        } else {
            m
        }
    }
}

/// The highest of some values is none of them or the floor, no value is
/// above it, and nothing else is so.
pub proof fn law_highest(values: Seq<int>, floor: int)
    ensures
        is_highest(values, floor, highest(values, floor)),
        forall|m: int| is_highest(values, floor, m) ==> m == highest(values, floor),
    decreases values.len(),
{
    let h = highest(values, floor);
    if values.len() > 0 {
        let head = values.drop_last();
        law_highest(head, floor);
        let hh = highest(head, floor);
        assert forall|i: int| 0 <= i < values.len() implies #[trigger] values[i] <= h by {
            if i < head.len() {
                assert(head[i] == values[i]);
            }
        }
        if hh < values.last() {
            assert(values[values.len() - 1] == h);
        } else if hh != floor {
            let k = choose|k: int| 0 <= k < head.len() && head[k] == hh;
            assert(values[k] == hh);
        }
    }
    assert forall|m: int| is_highest(values, floor, m) implies m == h by {
        if m != floor {
            let k = choose|k: int| 0 <= k < values.len() && values[k] == m;
            assert(values[k] <= h);
        }
        if h != floor {
            let k = choose|k: int| 0 <= k < values.len() && values[k] == h;
            assert(values[k] <= m);
        }
    }
}

/// The lowest of some values is one of them or the ceiling, no value is
/// below it, and nothing else is so.
pub proof fn law_lowest(values: Seq<int>, ceiling: int)
    ensures
        is_lowest(values, ceiling, lowest(values, ceiling)),
        forall|m: int| is_lowest(values, ceiling, m) ==> m == lowest(values, ceiling),
    decreases values.len(),
{
    let h = lowest(values, ceiling);
    if values.len() > 0 {
        let head = values.drop_last();
        law_lowest(head, ceiling);
        let hh = lowest(head, ceiling);
        assert forall|i: int| 0 <= i < values.len() implies h <= #[trigger] values[i] by {
            if i < head.len() {
                assert(head[i] == values[i]);
            }
        }
        if hh > values.last() {
            assert(values[values.len() - 1] == h);
        } else if hh != ceiling {
            let k = choose|k: int| 0 <= k < head.len() && head[k] == hh;
            assert(values[k] == hh);
        }
    }
    assert forall|m: int| is_lowest(values, ceiling, m) implies m == h by {
        if m != ceiling {
            let k = choose|k: int| 0 <= k < values.len() && values[k] == m;
            assert(h <= values[k]);
        }
        if h != ceiling {
            let k = choose|k: int| 0 <= k < values.len() && values[k] == h;
            assert(m <= values[k]);
        }
    }
}

/// The players of both sides as plain values.
pub struct TeamsView {
    /// The left roster as it was given.
    pub lpids: Seq<Seq<char>>,
    /// The right roster as it was given.
    pub rpids: Seq<Seq<char>>,
    pub lplayers: Seq<PlayerView>,
    pub rplayers: Seq<PlayerView>,
    /// The time for which the left side had the ball.
    pub lballtime: nat,
    /// The time for which the right side had the ball.
    pub rballtime: nat,
}

impl TeamsView {
    /// Within each side identifiers are distinct, every score is well
    /// formed, and the players are those of the roster.
    pub open spec fn wf(self) -> bool {
        &&& self.ids_wf()
        &&& all_wf(self.lplayers)
        &&& all_wf(self.rplayers)
    }

    /// Within each side identifiers are distinct, the players are those of
    /// the roster, and every player is sound. This is what is left of being
    /// well formed where numbers are not limited by the machine.
    pub open spec fn sound(self) -> bool {
        &&& self.ids_wf()
        &&& all_sound(self.lplayers)
        &&& all_sound(self.rplayers)
    }

    /// Within each side identifiers are distinct, and the players are those
    /// of the roster.
    pub open spec fn ids_wf(self) -> bool {
        &&& distinct_ids(self.lplayers)
        &&& distinct_ids(self.rplayers)
        &&& same_ids(self.lpids, self.lplayers)
        &&& same_ids(self.rpids, self.rplayers)
    }

    /// The players of `side`: the left ones for the left side, the right
    /// ones otherwise.
    pub open spec fn players(self, side: char) -> Seq<PlayerView> {
        if side == SIDE_L {
            self.lplayers
        } else {
            self.rplayers
        }
    }

    /// Whether `side` has a player with the identifier `id`.
    pub open spec fn has(self, side: char, id: Seq<char>) -> bool {
        has_player(self.players(side), id)
    }

    /// The roster of `side`: the left one for the left side, the right one
    /// otherwise.
    pub open spec fn pids(self, side: char) -> Seq<Seq<char>> {
        if side == SIDE_L {
            self.lpids
        } else {
            self.rpids
        }
    }

    /// Whether `id` can be credited on `side`: the roster of that side names
    /// it, or it is reserved, and then nothing is credited.
    pub open spec fn admits(self, side: char, id: Seq<char>) -> bool {
        spec_is_xplayerid(id) || self.pids(side).contains(id)
    }

    /// The player of `side` with the identifier `id`.
    pub open spec fn player(self, side: char, id: Seq<char>) -> PlayerView {
        self.players(side)[index_of(self.players(side), id)]
    }

    /// The teams with `p` in the place of the player `id` of `side`.
    pub open spec fn replaced(self, side: char, id: Seq<char>, p: PlayerView) -> TeamsView {
        let i = index_of(self.players(side), id);
        if side == SIDE_L {
            TeamsView { lplayers: self.lplayers.update(i, p), ..self }
        } else {
            TeamsView { rplayers: self.rplayers.update(i, p), ..self }
        }
    }

    /// The teams after the score of the player `id` of `side` changed by
    /// `delta` at `time`. A reserved identifier changes nothing.
    pub open spec fn scored(self, time: usize, side: char, id: Seq<char>, delta: int) -> TeamsView {
        if spec_is_xplayerid(id) {
            self
        } else {
            self.replaced(side, id, self.player(side, id).scored(time, delta))
        }
    }

    /// The teams after `card` was shown to the player `id` of `side` at
    /// `time`. A reserved identifier changes nothing.
    pub open spec fn carded(self, time: usize, side: char, id: Seq<char>, card: Card) -> TeamsView {
        if spec_is_xplayerid(id) {
            self
        } else {
            self.replaced(side, id, self.player(side, id).carded(time, card))
        }
    }

    /// The teams after one more action of kind `atype` was counted for the
    /// player `id` of `side`. A reserved identifier changes nothing.
    pub open spec fn counted(self, side: char, id: Seq<char>, atype: AIAction) -> TeamsView {
        if spec_is_xplayerid(id) {
            self
        } else {
            self.replaced(side, id, self.player(side, id).counted(atype))
        }
    }

    /// The teams after the player `id` of `side` was seen at `npos`. A
    /// reserved identifier changes nothing.
    pub open spec fn moved(self, side: char, id: Seq<char>, npos: Pos) -> TeamsView {
        if spec_is_xplayerid(id) {
            self
        } else {
            self.replaced(side, id, self.player(side, id).moved(npos))
        }
    }

    /// The teams after the action `cur` followed the action `prev`: where
    /// both are of one side, that side had the ball for the time between
    /// them.
    pub open spec fn ball_timed(self, prev: ActionView, cur: ActionView) -> TeamsView {
        if cur.side != prev.side {
            self
        } else if cur.side == SIDE_L {
            TeamsView { lballtime: self.lballtime + (cur.time - prev.time) as nat, ..self }
        } else {
            TeamsView { rballtime: self.rballtime + (cur.time - prev.time) as nat, ..self }
        }
    }

    /// Whether the count of actions of kind `atype` of the player `id` of
    /// `side` has room for one more. Nothing is counted for a reserved
    /// identifier.
    pub open spec fn can_count(self, side: char, id: Seq<char>, atype: AIAction) -> bool {
        spec_is_xplayerid(id) || self.player(side, id).can_count(atype)
    }

    /// Whether the distance that the player `id` of `side` travelled has
    /// room for the way to `npos`. A reserved identifier travels nowhere.
    pub open spec fn can_move(self, side: char, id: Seq<char>, npos: Pos) -> bool {
        spec_is_xplayerid(id) || self.player(side, id).can_move(npos)
    }

    /// Whether the ball time of the side of `cur` has room for the time
    /// since `prev`, if `prev` is of that side too.
    pub open spec fn can_time(self, prev: ActionView, cur: ActionView) -> bool {
        cur.side != prev.side || (if cur.side == SIDE_L {
            self.lballtime
        } else {
            self.rballtime
        }) + (cur.time - prev.time) <= u64::MAX
    }

    /// The teams of two rosters before anything happened.
    pub open spec fn fresh(lpids: Seq<Seq<char>>, rpids: Seq<Seq<char>>) -> TeamsView {
        TeamsView {
            lpids,
            rpids,
            lplayers: fresh_players(lpids),
            rplayers: fresh_players(rpids),
            lballtime: 0,
            rballtime: 0,
        }
    }
}

/// Putting another state of the same player in a player's place changes
/// neither the rosters, nor who plays, nor where, nor any other player.
pub proof fn lemma_replaced_ids(t: TeamsView, side: char, id: Seq<char>, p: PlayerView)
    requires
        t.ids_wf(),
        t.has(side, id),
        p.id == id,
    ensures
        t.replaced(side, id, p).ids_wf(),
        t.replaced(side, id, p).lpids == t.lpids,
        t.replaced(side, id, p).rpids == t.rpids,
        t.replaced(side, id, p).lballtime == t.lballtime,
        t.replaced(side, id, p).rballtime == t.rballtime,
        t.replaced(side, id, p).player(side, id) == p,
        0 <= index_of(t.players(side), id) < t.players(side).len(),
        t.replaced(side, id, p).players(side) == t.players(side).update(
            index_of(t.players(side), id),
            p,
        ),
        forall|s: char|
            (s == SIDE_L) != (side == SIDE_L) ==> #[trigger] t.replaced(side, id, p).players(s)
                == t.players(s),
        forall|s: char, other: Seq<char>|
            t.has(s, other) == #[trigger] t.replaced(side, id, p).has(s, other),
        forall|s: char, other: Seq<char>|
            t.has(s, other) ==> index_of(t.players(s), other) == #[trigger] index_of(
                t.replaced(side, id, p).players(s),
                other,
            ),
{
    let players = t.players(side);
    let i = index_of(players, id);
    let r = t.replaced(side, id, p);
    lemma_update_keeps_ids(players, i, p);
    let u = players.update(i, p);
    assert(r.players(side) == u);
    lemma_index_of(u, i);
    let pids = if side == SIDE_L {
        t.lpids
    } else {
        t.rpids
    };
    assert(same_ids(pids, players));
    assert forall|j: int| 0 <= j < u.len() implies pids.contains((#[trigger] u[j]).id) by {
        assert(u[j].id == players[j].id);
    }
    assert forall|s: char, other: Seq<char>| t.has(s, other) == #[trigger] r.has(s, other) by {
        if (s == SIDE_L) == (side == SIDE_L) {
            assert(t.players(s) == players);
            assert(r.players(s) == u);
        } else {
            assert(t.players(s) == r.players(s));
        }
    }
    assert forall|s: char, other: Seq<char>| t.has(s, other) implies index_of(
        t.players(s),
        other,
    ) == #[trigger] index_of(r.players(s), other) by {
        if (s == SIDE_L) == (side == SIDE_L) {
            assert(t.players(s) == players);
            assert(r.players(s) == u);
        } else {
            assert(t.players(s) == r.players(s));
        }
    }
}

/// Putting another state of the same player in a player's place keeps the
/// teams well formed, if the new state's score is well formed.
pub proof fn lemma_replaced(t: TeamsView, side: char, id: Seq<char>, p: PlayerView)
    requires
        t.wf(),
        t.has(side, id),
        p.id == id,
        p.wf(),
    ensures
        t.replaced(side, id, p).wf(),
{
    let players = t.players(side);
    let i = index_of(players, id);
    let r = t.replaced(side, id, p);
    lemma_replaced_ids(t, side, id, p);
    let u = players.update(i, p);
    assert forall|j: int| 0 <= j < u.len() implies (#[trigger] u[j]).wf() by {
        if j != i {
            assert(u[j] == players[j]);
        }
    }
    if side == SIDE_L {
        assert(r.lplayers == u);
    } else {
        assert(r.rplayers == u);
    }
}

/// Well-formed teams are sound.
pub proof fn lemma_wf_is_sound(t: TeamsView)
    requires
        t.wf(),
    ensures
        t.sound(),
{
    assert forall|i: int| 0 <= i < t.lplayers.len() implies (#[trigger] t.lplayers[i]).sound() by {
        assert(t.lplayers[i].wf());
    }
    assert forall|i: int| 0 <= i < t.rplayers.len() implies (#[trigger] t.rplayers[i]).sound() by {
        assert(t.rplayers[i].wf());
    }
}

/// Putting another sound state of the same player in a player's place
/// keeps the teams sound.
pub proof fn lemma_replaced_sound(t: TeamsView, side: char, id: Seq<char>, p: PlayerView)
    requires
        t.sound(),
        t.has(side, id),
        p.id == id,
        p.sound(),
    ensures
        t.replaced(side, id, p).sound(),
        t.replaced(side, id, p).lpids == t.lpids,
        t.replaced(side, id, p).rpids == t.rpids,
{
    let players = t.players(side);
    let i = index_of(players, id);
    let r = t.replaced(side, id, p);
    lemma_replaced_ids(t, side, id, p);
    let u = players.update(i, p);
    assert forall|j: int| 0 <= j < u.len() implies (#[trigger] u[j]).sound() by {
        if j != i {
            assert(u[j] == players[j]);
        }
    }
    if side == SIDE_L {
        assert(r.lplayers == u);
    } else {
        assert(r.rplayers == u);
    }
}

/// Whatever happens to a player of sound teams whom the teams can credit,
/// the teams stay sound, with the same rosters: a change of the score, a
/// card, a counted action, a sighting.
pub proof fn lemma_ops_sound(t: TeamsView, side: char, id: Seq<char>)
    requires
        t.sound(),
        t.admits(side, id),
    ensures
        forall|time: usize, delta: int| #[trigger]
            t.scored(time, side, id, delta).sound() && t.scored(time, side, id, delta).lpids
                == t.lpids && t.scored(time, side, id, delta).rpids == t.rpids,
        forall|time: usize, card: Card| #[trigger]
            t.carded(time, side, id, card).sound() && t.carded(time, side, id, card).lpids
                == t.lpids && t.carded(time, side, id, card).rpids == t.rpids,
        forall|atype: AIAction| #[trigger]
            t.counted(side, id, atype).sound() && t.counted(side, id, atype).lpids == t.lpids
                && t.counted(side, id, atype).rpids == t.rpids,
        forall|npos: Pos| #[trigger]
            t.moved(side, id, npos).sound() && t.moved(side, id, npos).lpids == t.lpids
                && t.moved(side, id, npos).rpids == t.rpids,
{
    if !spec_is_xplayerid(id) {
        lemma_roster_has(t, side, id);
        let p = t.player(side, id);
        assert(p.sound());
        assert forall|time: usize, delta: int| #[trigger]
            t.scored(time, side, id, delta).sound() && t.scored(time, side, id, delta).lpids
                == t.lpids && t.scored(time, side, id, delta).rpids == t.rpids by {
            crate::score::lemma_updated_consistent(p.score, time, delta);
            lemma_replaced_sound(t, side, id, p.scored(time, delta));
        }
        assert forall|time: usize, card: Card| #[trigger]
            t.carded(time, side, id, card).sound() && t.carded(time, side, id, card).lpids
                == t.lpids && t.carded(time, side, id, card).rpids == t.rpids by {
            crate::score::lemma_updated_consistent(
                ScoreView { card, ..p.score },
                time,
                crate::score::spec_card_score_value(card),
            );
            lemma_replaced_sound(t, side, id, p.carded(time, card));
        }
        assert forall|atype: AIAction| #[trigger]
            t.counted(side, id, atype).sound() && t.counted(side, id, atype).lpids == t.lpids
                && t.counted(side, id, atype).rpids == t.rpids by {
            lemma_replaced_sound(t, side, id, p.counted(atype));
        }
        assert forall|npos: Pos| #[trigger]
            t.moved(side, id, npos).sound() && t.moved(side, id, npos).lpids == t.lpids
                && t.moved(side, id, npos).rpids == t.rpids by {
            lemma_replaced_sound(t, side, id, p.moved(npos));
        }
    }
}

/// In well-formed teams every identifier of a roster has its player.
pub proof fn lemma_roster_has(t: TeamsView, side: char, id: Seq<char>)
    requires
        t.ids_wf(),
    ensures
        t.pids(side).contains(id) == t.has(side, id),
{
    let pids = t.pids(side);
    let players = t.players(side);
    assert(same_ids(pids, players));
    if pids.contains(id) {
        let k = choose|k: int| 0 <= k < pids.len() && pids[k] == id;
        assert(has_player(players, pids[k]));
    }
    if has_player(players, id) {
        let j = index_of(players, id);
        assert(pids.contains(players[j].id));
    }
}

/// The players of both sides, with their scores, statistics and positions,
/// and the time for which each side had the ball.
#[derive(Debug)]
pub struct Teams {
    lpids: Vec<String>,
    rpids: Vec<String>,
    lplayers: Vec<Player>,
    rplayers: Vec<Player>,
    lballtime: u64,
    rballtime: u64,
}

impl View for Teams {
    type V = TeamsView;

    closed spec fn view(&self) -> TeamsView {
        TeamsView {
            lpids: self.lpids@.map_values(|s: String| s@),
            rpids: self.rpids@.map_values(|s: String| s@),
            lplayers: views_of(self.lplayers@),
            rplayers: views_of(self.rplayers@),
            lballtime: self.lballtime as nat,
            rballtime: self.rballtime as nat,
        }
    }
}

/// Makes the players of one roster.
fn make_side(roster: &Vec<&str>) -> (r: (Vec<String>, Vec<Player>))
    ensures
        r.0@.map_values(|s: String| s@) == ids_of(roster@),
        views_of(r.1@) == fresh_players(ids_of(roster@)),
{
    let mut pids: Vec<String> = Vec::new();
    let mut players: Vec<Player> = Vec::new();
    let mut i: usize = 0;
    assert(ids_of(roster@).take(0) =~= Seq::empty());
    while i < roster.len()
        invariant
            i <= roster.len(),
            pids@.map_values(|s: String| s@) =~= ids_of(roster@).take(i as int),
            views_of(players@) =~= fresh_players(ids_of(roster@).take(i as int)),
        decreases roster.len() - i,
    {
        let pid: &str = roster[i];
        proof {
            let next = ids_of(roster@).take(i + 1);
            assert(next.drop_last() =~= ids_of(roster@).take(i as int));
            assert(next.last() == pid@);
        }
        pids.push(String::from_str(pid));
        if find_player(&players, pid).is_none() {
            players.push(Player::new(String::from_str(pid), Score::default(), (POS_UNSEEN, POS_UNSEEN)));
        }
        i += 1;
    }
    assert(ids_of(roster@).take(roster@.len() as int) =~= ids_of(roster@));
    (pids, players)
}

impl Teams {
    /// Whether the teams are well formed.
    pub open spec fn wf(&self) -> bool {
        self@.wf()
    }

    /// The teams of two rosters: one player for each identifier, with
    /// nothing known of any of them.
    pub fn new(lplayers: &Vec<&str>, rplayers: &Vec<&str>) -> (teams: Teams)
        ensures
            teams.wf(),
            teams@ == TeamsView::fresh(ids_of(lplayers@), ids_of(rplayers@)),
    {
        let (lpids, lp) = make_side(lplayers);
        let (rpids, rp) = make_side(rplayers);
        proof {
            lemma_fresh_players(ids_of(lplayers@));
            lemma_fresh_players(ids_of(rplayers@));
        }
        Teams { lpids, rpids, lplayers: lp, rplayers: rp, lballtime: 0, rballtime: 0 }
    }

    /// The player `playerid` of `side`.
    pub fn get_player<'a>(&'a self, side: char, playerid: &str) -> (player: &'a Player)
        requires
            self@.has(side, playerid@),
            self.wf(),
        ensures
            player@ == self@.player(side, playerid@),
    {
        if side == SIDE_L {
            let i = find_player(&self.lplayers, playerid).unwrap();
            proof {
                lemma_index_of(self@.lplayers, i as int);
            }
            &self.lplayers[i]
        } else {
            let i = find_player(&self.rplayers, playerid).unwrap();
            proof {
                lemma_index_of(self@.rplayers, i as int);
            }
            &self.rplayers[i]
        }
    }

    /// The place of the player `playerid` among the players of `side`.
    fn locate(&self, side: char, playerid: &str) -> (i: usize)
        requires
            self@.has(side, playerid@),
            self.wf(),
        ensures
            i == index_of(self@.players(side), playerid@),
            i < self@.players(side).len(),
            i < (if side == SIDE_L {
                self.lplayers.len()
            } else {
                self.rplayers.len()
            }),
    {
        if side == SIDE_L {
            let i = find_player(&self.lplayers, playerid).unwrap();
            proof {
                lemma_index_of(self@.lplayers, i as int);
            }
            i
        } else {
            let i = find_player(&self.rplayers, playerid).unwrap();
            proof {
                lemma_index_of(self@.rplayers, i as int);
            }
            i
        }
    }

    /// Changes the score of the player `playerid` of `side` by
    /// `pscoredelta` at `time`. Does nothing for a reserved identifier.
    pub fn pscore_update(&mut self, time: usize, side: char, playerid: &str, pscoredelta: i64)
        requires
            old(self).wf(),
            old(self)@.admits(side, playerid@),
        ensures
            final(self).wf(),
            final(self)@ == old(self)@.scored(time, side, playerid@, pscoredelta as int),
            final(self)@.lpids == old(self)@.lpids,
            final(self)@.rpids == old(self)@.rpids,
    {
        if is_xplayerid(playerid) {
            return ;
        }
        proof {
            lemma_roster_has(self@, side, playerid@);
        }
        let i = self.locate(side, playerid);
        if side == SIDE_L {
            score_at(&mut self.lplayers, i, time, pscoredelta);
        } else {
            score_at(&mut self.rplayers, i, time, pscoredelta);
        }
        proof {
            lemma_replaced(
                old(self)@,
                side,
                playerid@,
                old(self)@.player(side, playerid@).scored(time, pscoredelta as int),
            );
        }
    }

    /// Notes that `card` was shown to the player `playerid` of `side` at
    /// `time`, and takes its cost off the player's score. Does nothing for
    /// a reserved identifier.
    pub fn card_issued(&mut self, time: usize, side: char, playerid: &str, card: Card)
        requires
            old(self).wf(),
            old(self)@.admits(side, playerid@),
        ensures
            final(self).wf(),
            final(self)@ == old(self)@.carded(time, side, playerid@, card),
            final(self)@.lpids == old(self)@.lpids,
            final(self)@.rpids == old(self)@.rpids,
    {
        if is_xplayerid(playerid) {
            return ;
        }
        proof {
            lemma_roster_has(self@, side, playerid@);
        }
        let i = self.locate(side, playerid);
        if side == SIDE_L {
            card_at(&mut self.lplayers, i, time, card);
        } else {
            card_at(&mut self.rplayers, i, time, card);
        }
        proof {
            lemma_replaced(
                old(self)@,
                side,
                playerid@,
                old(self)@.player(side, playerid@).carded(time, card),
            );
        }
    }

    /// Counts one more action of kind `atype` for the player `playerid` of
    /// `side`. Does nothing for a reserved identifier.
    pub fn count_increment(&mut self, side: char, playerid: &str, atype: AIAction)
        requires
            old(self).wf(),
            old(self)@.admits(side, playerid@),
            old(self)@.can_count(side, playerid@, atype),
        ensures
            final(self).wf(),
            final(self)@ == old(self)@.counted(side, playerid@, atype),
            final(self)@.lpids == old(self)@.lpids,
            final(self)@.rpids == old(self)@.rpids,
    {
        if is_xplayerid(playerid) {
            return ;
        }
        proof {
            lemma_roster_has(self@, side, playerid@);
        }
        let i = self.locate(side, playerid);
        if side == SIDE_L {
            count_at(&mut self.lplayers, i, atype);
        } else {
            count_at(&mut self.rplayers, i, atype);
        }
        proof {
            lemma_replaced(
                old(self)@,
                side,
                playerid@,
                old(self)@.player(side, playerid@).counted(atype),
            );
        }
    }

    /// Notes that the player `playerid` of `side` was seen at `npos`, and
    /// adds the way from the position before to the distance travelled. Does
    /// nothing for a reserved identifier.
    pub fn dist_update_from_pos(&mut self, side: char, playerid: &str, npos: Pos)
        requires
            old(self).wf(),
            old(self)@.admits(side, playerid@),
            old(self)@.can_move(side, playerid@, npos),
        ensures
            final(self).wf(),
            final(self)@ == old(self)@.moved(side, playerid@, npos),
            final(self)@.lpids == old(self)@.lpids,
            final(self)@.rpids == old(self)@.rpids,
    {
        if is_xplayerid(playerid) {
            return ;
        }
        proof {
            lemma_roster_has(self@, side, playerid@);
        }
        let i = self.locate(side, playerid);
        if side == SIDE_L {
            move_at(&mut self.lplayers, i, npos);
        } else {
            move_at(&mut self.rplayers, i, npos);
        }
        proof {
            lemma_replaced(
                old(self)@,
                side,
                playerid@,
                old(self)@.player(side, playerid@).moved(npos),
            );
        }
    }

    /// Where both actions are of one side, gives that side the ball for the
    /// time between them.
    pub fn balltime_update(&mut self, prevactd: &ActionData, curactd: &ActionData)
        requires
            prevactd.time <= curactd.time,
            old(self)@.can_time(prevactd@, curactd@),
        ensures
            final(self)@ == old(self)@.ball_timed(prevactd@, curactd@),
            final(self)@.lpids == old(self)@.lpids,
            final(self)@.rpids == old(self)@.rpids,
            old(self).wf() ==> final(self).wf(),
    {
        if curactd.side == prevactd.side {
            let dtime: u64 = (curactd.time - prevactd.time) as u64;
            if curactd.side == SIDE_L {
                self.lballtime = self.lballtime + dtime;
            } else {
                self.rballtime = self.rballtime + dtime;
            }
        }
    }

    /// The lowest and the highest of the extreme scores that the players
    /// of each side ever had after a change, cards included: first for the
    /// left side, then for the right. A side without any change has the
    /// largest number for its lowest and the smallest for its highest.
    pub fn score_hist_cumul_minmax(&self) -> (r: ((i128, i128), (i128, i128)))
        ensures
            r.0.0 == lowest(hist_mins_of(self@.lplayers), i128::MAX as int),
            r.0.1 == highest(hist_maxs_of(self@.lplayers), i128::MIN as int),
            r.1.0 == lowest(hist_mins_of(self@.rplayers), i128::MAX as int),
            r.1.1 == highest(hist_maxs_of(self@.rplayers), i128::MIN as int),
    {
        (hist_minmax_of(&self.lplayers), hist_minmax_of(&self.rplayers))
    }

    /// The lowest and the highest score among the players of each side:
    /// first for the left side, then for the right. A side without players
    /// has the largest number for its lowest and the smallest for its
    /// highest.
    pub fn score_minmax(&self, inc_cardscore: bool) -> (r: ((i128, i128), (i128, i128)))
        requires
            self.wf(),
        ensures
            r.0.0 == lowest(scores_of(self@.lplayers, inc_cardscore), i128::MAX as int),
            r.0.1 == highest(scores_of(self@.lplayers, inc_cardscore), i128::MIN as int),
            r.1.0 == lowest(scores_of(self@.rplayers, inc_cardscore), i128::MAX as int),
            r.1.1 == highest(scores_of(self@.rplayers, inc_cardscore), i128::MIN as int),
    {
        (
            score_minmax_of(&self.lplayers, inc_cardscore),
            score_minmax_of(&self.rplayers, inc_cardscore),
        )
    }

    /// The longest distance that a player of the left and of the right side
    /// travelled; zero for a side without players.
    pub fn dist_max(&self) -> (r: (u64, u64))
        ensures
            r.0 == highest(dists_of(self@.lplayers), 0),
            r.1 == highest(dists_of(self@.rplayers), 0),
    {
        (dist_max_of(&self.lplayers), dist_max_of(&self.rplayers))
    }

    /// The shortest and the longest distance that a player of each side
    /// travelled: first for the left side, then for the right. A side
    /// without players has the largest number for its shortest and zero for
    /// its longest.
    pub fn dist_minmax(&self) -> (r: ((u64, u64), (u64, u64)))
        ensures
            r.0.0 == lowest(dists_of(self@.lplayers), u64::MAX as int),
            r.0.1 == highest(dists_of(self@.lplayers), 0),
            r.1.0 == lowest(dists_of(self@.rplayers), u64::MAX as int),
            r.1.1 == highest(dists_of(self@.rplayers), 0),
    {
        (
            (dist_min_of(&self.lplayers), dist_max_of(&self.lplayers)),
            (dist_min_of(&self.rplayers), dist_max_of(&self.rplayers)),
        )
    }

    /// The roster of `side` as it was given.
    pub fn pids(&self, side: char) -> (pids: &Vec<String>)
        ensures
            pids@.map_values(|s: String| s@) == (if side == SIDE_L {
                self@.lpids
            } else {
                self@.rpids
            }),
    {
        if side == SIDE_L {
            &self.lpids
        } else {
            &self.rpids
        }
    }

    /// Whether `side` has a player with the identifier `playerid`.
    pub fn has_player(&self, side: char, playerid: &str) -> (b: bool)
        ensures
            b == self@.has(side, playerid@),
    {
        if side == SIDE_L {
            find_player(&self.lplayers, playerid).is_some()
        } else {
            find_player(&self.rplayers, playerid).is_some()
        }
    }

    /// Whether `playerid` can be credited on `side`.
    pub fn admits(&self, side: char, playerid: &str) -> (b: bool)
        requires
            self.wf(),
        ensures
            b == self@.admits(side, playerid@),
    {
        proof {
            lemma_roster_has(self@, side, playerid@);
        }
        is_xplayerid(playerid) || self.has_player(side, playerid)
    }

    /// Whether the count of actions of kind `atype` of the player
    /// `playerid` of `side` has room for one more.
    pub fn can_count(&self, side: char, playerid: &str, atype: AIAction) -> (b: bool)
        requires
            self.wf(),
            self@.admits(side, playerid@),
        ensures
            b == self@.can_count(side, playerid@, atype),
    {
        if is_xplayerid(playerid) {
            return true;
        }
        proof {
            lemma_roster_has(self@, side, playerid@);
        }
        let score = self.get_player(side, playerid).score();
        match atype {
            AIAction::Kick => score.kicks() < usize::MAX,
            AIAction::Tackle => score.tackles() < usize::MAX,
            AIAction::Catch => score.catches() < usize::MAX,
            AIAction::NoAction | AIAction::Goal => true,
        }
    }

    /// Whether the distance that the player `playerid` of `side` travelled
    /// has room for the way to `npos`.
    pub fn can_move(&self, side: char, playerid: &str, npos: Pos) -> (b: bool)
        requires
            self.wf(),
            self@.admits(side, playerid@),
        ensures
            b == self@.can_move(side, playerid@, npos),
    {
        if is_xplayerid(playerid) {
            return true;
        }
        proof {
            lemma_roster_has(self@, side, playerid@);
        }
        let player = self.get_player(side, playerid);
        if is_unseen(player.pos()) {
            return true;
        }
        let d = distance(player.pos(), npos);
        player.score().dist() <= u64::MAX - d
    }

    /// Whether the ball time of the side of `curactd` has room for the time
    /// since `prevactd`, if that is of the same side.
    pub fn can_time(&self, prevactd: &ActionData, curactd: &ActionData) -> (b: bool)
        requires
            prevactd.time <= curactd.time,
        ensures
            b == self@.can_time(prevactd@, curactd@),
    {
        if curactd.side != prevactd.side {
            return true;
        }
        let dtime: u64 = (curactd.time - prevactd.time) as u64;
        if curactd.side == SIDE_L {
            self.lballtime <= u64::MAX - dtime
        } else {
            self.rballtime <= u64::MAX - dtime
        }
    }

    /// The time for which the left and the right side had the ball.
    pub fn balltimes(&self) -> (t: (u64, u64))
        ensures
            t.0 == self@.lballtime,
            t.1 == self@.rballtime,
    {
        (self.lballtime, self.rballtime)
    }
}

/// The lowest and the highest of the extreme scores of `players`.
fn hist_minmax_of(players: &Vec<Player>) -> (r: (i128, i128))
    ensures
        r.0 == lowest(hist_mins_of(views_of(players@)), i128::MAX as int),
        r.1 == highest(hist_maxs_of(views_of(players@)), i128::MIN as int),
{
    let ghost mins = hist_mins_of(views_of(players@));
    let ghost maxs = hist_maxs_of(views_of(players@));
    let mut max = i128::MIN;
    let mut min = i128::MAX;
    let mut i: usize = 0;
    while i < players.len()
        invariant
            i <= players.len(),
            mins == hist_mins_of(views_of(players@)),
            maxs == hist_maxs_of(views_of(players@)),
            min == lowest(mins.take(i as int), i128::MAX as int),
            max == highest(maxs.take(i as int), i128::MIN as int),
        decreases players.len() - i,
    {
        if max < players[i].score.hist_cumul_maxpscore() {
            max = players[i].score.hist_cumul_maxpscore();
        }
        if min > players[i].score.hist_cumul_minpscore() {
            min = players[i].score.hist_cumul_minpscore();
        }
        proof {
            assert(mins.take(i + 1).drop_last() =~= mins.take(i as int));
            assert(maxs.take(i + 1).drop_last() =~= maxs.take(i as int));
        }
        i += 1;
    }
    assert(mins.take(i as int) =~= mins);
    assert(maxs.take(i as int) =~= maxs);
    (min, max)
}

/// The lowest and the highest score among `players`.
fn score_minmax_of(players: &Vec<Player>, inc_cardscore: bool) -> (r: (i128, i128))
    requires
        all_wf(views_of(players@)),
    ensures
        r.0 == lowest(scores_of(views_of(players@), inc_cardscore), i128::MAX as int),
        r.1 == highest(scores_of(views_of(players@), inc_cardscore), i128::MIN as int),
{
    let ghost values = scores_of(views_of(players@), inc_cardscore);
    let mut max = i128::MIN;
    let mut min = i128::MAX;
    let mut i: usize = 0;
    while i < players.len()
        invariant
            i <= players.len(),
            all_wf(views_of(players@)),
            values == scores_of(views_of(players@), inc_cardscore),
            min == lowest(values.take(i as int), i128::MAX as int),
            max == highest(values.take(i as int), i128::MIN as int),
        decreases players.len() - i,
    {
        assert(views_of(players@)[i as int].wf());
        let v = players[i].score.score(inc_cardscore);
        if max < v {
            max = v;
        }
        if min > v {
            min = v;
        }
        proof {
            assert(values.take(i + 1).drop_last() =~= values.take(i as int));
        }
        i += 1;
    }
    assert(values.take(i as int) =~= values);
    (min, max)
}

/// The longest distance that one of `players` travelled.
fn dist_max_of(players: &Vec<Player>) -> (r: u64)
    ensures
        r == highest(dists_of(views_of(players@)), 0),
{
    let ghost values = dists_of(views_of(players@));
    let mut max: u64 = 0;
    let mut i: usize = 0;
    while i < players.len()
        invariant
            i <= players.len(),
            values == dists_of(views_of(players@)),
            max == highest(values.take(i as int), 0),
        decreases players.len() - i,
    {
        if max < players[i].score.dist() {
            max = players[i].score.dist();
        }
        proof {
            assert(values.take(i + 1).drop_last() =~= values.take(i as int));
        }
        i += 1;
    }
    assert(values.take(i as int) =~= values);
    max
}

/// The shortest distance that one of `players` travelled.
fn dist_min_of(players: &Vec<Player>) -> (r: u64)
    ensures
        r == lowest(dists_of(views_of(players@)), u64::MAX as int),
{
    let ghost values = dists_of(views_of(players@));
    let mut min: u64 = u64::MAX;
    let mut i: usize = 0;
    while i < players.len()
        invariant
            i <= players.len(),
            values == dists_of(views_of(players@)),
            min == lowest(values.take(i as int), u64::MAX as int),
        decreases players.len() - i,
    {
        if min > players[i].score.dist() {
            min = players[i].score.dist();
        }
        proof {
            assert(values.take(i + 1).drop_last() =~= values.take(i as int));
        }
        i += 1;
    }
    assert(values.take(i as int) =~= values);
    min
}

/// Changes the score of the player at place `i`.
fn score_at(players: &mut Vec<Player>, i: usize, time: usize, delta: i64)
    requires
        i < old(players).len(),
        views_of(old(players)@)[i as int].wf(),
    ensures
        views_of(final(players)@) == views_of(old(players)@).update(
            i as int,
            views_of(old(players)@)[i as int].scored(time, delta as int),
        ),
        views_of(old(players)@)[i as int].scored(time, delta as int).wf(),
{
    players[i].score.pscore_update(time, delta);
    assert(views_of(players@) =~= views_of(old(players)@).update(
        i as int,
        views_of(old(players)@)[i as int].scored(time, delta as int),
    ));
}

/// Shows a card to the player at place `i`.
fn card_at(players: &mut Vec<Player>, i: usize, time: usize, card: Card)
    requires
        i < old(players).len(),
        views_of(old(players)@)[i as int].wf(),
    ensures
        views_of(final(players)@) == views_of(old(players)@).update(
            i as int,
            views_of(old(players)@)[i as int].carded(time, card),
        ),
        views_of(old(players)@)[i as int].carded(time, card).wf(),
{
    players[i].score.card_issued(time, card);
    assert(views_of(players@) =~= views_of(old(players)@).update(
        i as int,
        views_of(old(players)@)[i as int].carded(time, card),
    ));
}

/// Counts an action for the player at place `i`.
fn count_at(players: &mut Vec<Player>, i: usize, atype: AIAction)
    requires
        i < old(players).len(),
        views_of(old(players)@)[i as int].can_count(atype),
    ensures
        views_of(final(players)@) == views_of(old(players)@).update(
            i as int,
            views_of(old(players)@)[i as int].counted(atype),
        ),
{
    match atype {
        AIAction::Kick => {
            players[i].score.add_kick();
        },
        AIAction::Catch => {
            players[i].score.add_catch();
        },
        AIAction::Tackle => {
            players[i].score.add_tackle();
        },
        AIAction::NoAction | AIAction::Goal => {},
    }
    assert(views_of(players@) =~= views_of(old(players)@).update(
        i as int,
        views_of(old(players)@)[i as int].counted(atype),
    ));
}

/// Notes a sighting of the player at place `i`.
fn move_at(players: &mut Vec<Player>, i: usize, npos: Pos)
    requires
        i < old(players).len(),
        views_of(old(players)@)[i as int].can_move(npos),
    ensures
        views_of(final(players)@) == views_of(old(players)@).update(
            i as int,
            views_of(old(players)@)[i as int].moved(npos),
        ),
{
    let opos = players[i].pos;
    if !is_unseen(opos) {
        let d = distance(opos, npos);
        players[i].score.add_distance(d);
    }
    players[i].pos = npos;
    assert(views_of(players@) =~= views_of(old(players)@).update(
        i as int,
        views_of(old(players)@)[i as int].moved(npos),
    ));
}

} // verus!
