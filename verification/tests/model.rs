use matchscore::action::{AIAction, ActionData};
use matchscore::engine::ActionsInfo;
use matchscore::entities::{SIDE_L, SIDE_R, XPLAYERID_OOPS_OTHERSIDE_START, XPLAYERID_UNKNOWN};
use matchscore::geometry::FIELD_ONE;
use matchscore::score::SCORE_POINT;

/// A small generator of numbers that gives the same numbers each time.
struct Numbers(u64);

impl Numbers {
    fn next(&mut self) -> u64 {
        self.0 = self.0.wrapping_mul(6364136223846793005).wrapping_add(1442695040888963407);
        self.0 >> 33
    }

    fn below(&mut self, n: u64) -> u64 {
        self.next() % n
    }
}

#[derive(Clone, Debug)]
struct Event {
    time: usize,
    side: char,
    id: String,
    pos: (i32, i32),
    kind: AIAction,
}

#[derive(Clone, Default)]
struct ModelPlayer {
    score: f64,
    deltas: usize,
    kicks: usize,
    tackles: usize,
    catches: usize,
    dist: f64,
    pos: Option<(i32, i32)>,
}

/// The engine once more, in floating point and without any care for
/// limits: what the library is held against.
struct Model {
    ids: Vec<String>,
    left: Vec<ModelPlayer>,
    right: Vec<ModelPlayer>,
    lball: f64,
    rball: f64,
    actions: Vec<Event>,
    raw: Vec<Event>,
    seek: bool,
}

fn weights(kind: AIAction) -> (f64, f64, f64, f64, f64) {
    match kind {
        AIAction::NoAction => (0.0, 0.0, 0.0, 0.0, 0.0),
        AIAction::Kick => (0.6, 0.5, 0.5, -0.8, 0.8),
        AIAction::Tackle => (0.4, 0.5, 0.5, -0.4, 0.6),
        AIAction::Catch => (1.0, 0.4, 0.4, 0.2, 0.8),
        AIAction::Goal => (1.0, 1.0, 0.0, -1.0, 0.0),
    }
}

enum Step {
    Continue,
    Done(bool),
}

impl Model {
    fn new(ids: &[&str]) -> Model {
        Model {
            ids: ids.iter().map(|s| s.to_string()).collect(),
            left: vec![ModelPlayer::default(); ids.len()],
            right: vec![ModelPlayer::default(); ids.len()],
            lball: 0.0,
            rball: 0.0,
            actions: Vec::new(),
            raw: Vec::new(),
            seek: false,
        }
    }

    fn player(&mut self, side: char, id: &str) -> Option<&mut ModelPlayer> {
        if id.starts_with("XX") {
            return None;
        }
        let i = self.ids.iter().position(|p| p == id).unwrap();
        Some(if side == SIDE_L { &mut self.left[i] } else { &mut self.right[i] })
    }

    fn credit(&mut self, side: char, id: &str, delta: f64) {
        if let Some(p) = self.player(side, id) {
            p.score += delta;
            p.deltas += 1;
        }
    }

    fn pair(&mut self, cur: &Event, prev: &Event, scale: f64) {
        let w = weights(cur.kind);
        let (pp, cp) = if prev.side == cur.side {
            (w.0 * w.1 * scale, w.0 * w.2 * scale)
        } else {
            (w.0 * w.3 * scale, w.0 * w.4 * scale)
        };
        self.credit(prev.side, &prev.id, pp);
        self.credit(cur.side, &cur.id, cp);
    }

    /// Whether the rules call the action impossible; `None` where they do.
    fn step(&mut self, cur: &mut Event, prev: &Event, k: usize) -> Option<Step> {
        let same_player = prev.side == cur.side && prev.id == cur.id;
        match (cur.kind, prev.kind) {
            (_, AIAction::NoAction) | (AIAction::NoAction, _) => None,
            (AIAction::Kick, AIAction::Goal) => {
                if prev.side == cur.side {
                    return None;
                }
                let w = weights(cur.kind);
                self.credit(cur.side, &cur.id.clone(), w.0 * w.2 * 0.05);
                Some(Step::Done(true))
            }
            (AIAction::Kick, _) => {
                if same_player && prev.kind == AIAction::Kick {
                    if cur.time - prev.time < 10 {
                        return Some(Step::Done(false));
                    }
                    self.pair(cur, prev, 0.05);
                } else {
                    self.pair(cur, prev, 1.0);
                }
                Some(Step::Done(true))
            }
            (AIAction::Tackle, AIAction::Kick) => {
                self.pair(cur, prev, 1.0);
                Some(Step::Done(true))
            }
            (AIAction::Tackle, AIAction::Tackle) => {
                if same_player && cur.time - prev.time < 10 {
                    return Some(Step::Done(false));
                }
                self.pair(cur, prev, 1.0);
                Some(Step::Done(true))
            }
            (AIAction::Tackle, _) => Some(Step::Done(false)),
            (AIAction::Catch, AIAction::Kick) | (AIAction::Catch, AIAction::Tackle) => {
                self.pair(cur, prev, 1.0);
                Some(Step::Done(true))
            }
            (AIAction::Catch, _) => Some(Step::Done(false)),
            (AIAction::Goal, AIAction::Goal) => {
                if k <= 1 && cur.time == prev.time {
                    Some(Step::Done(false))
                } else {
                    None
                }
            }
            (AIAction::Goal, _) => {
                if k <= 1 && cur.id.starts_with("XX") {
                    cur.id = prev.id.clone();
                }
                if prev.side == cur.side {
                    let id = if k <= 1 { cur.id.clone() } else { prev.id.clone() };
                    self.credit(cur.side, &id, 1.0 / k as f64);
                    if cur.time - prev.time > 30 {
                        return Some(Step::Done(true));
                    }
                    Some(Step::Continue)
                } else {
                    let mut cost = -1.0 / k as f64;
                    if k <= 1 {
                        cur.id = format!("{}-{}", XPLAYERID_OOPS_OTHERSIDE_START, cur.id);
                        if prev.kind == AIAction::Catch {
                            cost *= 0.5;
                        }
                        self.credit(prev.side, &prev.id, cost);
                        return Some(Step::Continue);
                    }
                    self.credit(prev.side, &prev.id, cost * 0.3);
                    Some(Step::Done(true))
                }
            }
        }
    }

    /// Handles the action; tells `false` where the rules call it impossible.
    fn handle(&mut self, mut cur: Event) -> bool {
        if self.seek {
            while self.actions.last().map_or(false, |a| a.time >= cur.time) {
                self.actions.pop();
            }
            while self.raw.last().map_or(false, |a| a.time >= cur.time) {
                self.raw.pop();
            }
            self.seek = false;
        }
        let mut keep = false;
        let mut enter = true;
        let mut walk = true;
        if cur.kind == AIAction::NoAction {
            enter = false;
        } else {
            let n = self.actions.len();
            for k in 1..=n.min(30) {
                let prev = self.actions[n - k].clone();
                if k == 1 && prev.side == cur.side {
                    let dt = (cur.time - prev.time) as f64;
                    if cur.side == SIDE_L {
                        self.lball += dt;
                    } else {
                        self.rball += dt;
                    }
                }
                if cur.kind == AIAction::Goal {
                    walk = false;
                    if k > 1 {
                        keep = true;
                    }
                }
                match self.step(&mut cur, &prev, k) {
                    None => return false,
                    Some(Step::Done(save)) => {
                        if k <= 1 {
                            keep = save;
                        }
                        break;
                    }
                    Some(Step::Continue) => {}
                }
            }
            if n == 0 && cur.kind == AIAction::Kick {
                keep = true;
            }
        }
        if walk {
            let pos = cur.pos;
            if let Some(p) = self.player(cur.side, &cur.id.clone()) {
                if let Some(old) = p.pos {
                    let dx = (pos.0 - old.0) as f64;
                    let dy = (pos.1 - old.1) as f64;
                    p.dist += (dx * dx + dy * dy).sqrt();
                }
                p.pos = Some(pos);
            }
        }
        if keep {
            self.actions.push(cur.clone());
        }
        if enter {
            let kind = cur.kind;
            if let Some(p) = self.player(cur.side, &cur.id.clone()) {
                match kind {
                    AIAction::Kick => p.kicks += 1,
                    AIAction::Tackle => p.tackles += 1,
                    AIAction::Catch => p.catches += 1,
                    _ => {}
                }
            }
            self.raw.push(cur);
        }
        true
    }
}

fn same_history(model: &Vec<Event>, lib: &Vec<ActionData>) {
    assert_eq!(model.len(), lib.len());
    for (m, l) in model.iter().zip(lib) {
        assert_eq!((m.time, m.side, &m.id, m.pos, m.kind), (l.time, l.side, &l.playerid, l.pos, l.action));
    }
}

fn same_state(model: &Model, info: &ActionsInfo, legs: usize) {
    same_history(&model.actions, info.actions());
    same_history(&model.raw, info.rawactions());
    assert_eq!(model.seek, info.seek_pending());
    let (l, r) = info.teams().balltimes();
    assert_eq!((model.lball, model.rball), (l as f64, r as f64));
    for (side, players) in [(SIDE_L, &model.left), (SIDE_R, &model.right)] {
        for (id, m) in model.ids.iter().zip(players) {
            let p = info.teams().get_player(side, id);
            let s = p.score();
            let points = s.pscore() as f64 / SCORE_POINT as f64;
            assert!((points - m.score).abs() < 1e-9, "{}{}: {} {}", side, id, points, m.score);
            assert_eq!(s.vtimepscore_deltas().len(), m.deltas);
            assert_eq!((s.kicks(), s.tackles(), s.catches()), (m.kicks, m.tackles, m.catches));
            let dist = s.dist() as f64;
            assert!(dist <= m.dist + 1e-6 && m.dist - dist <= legs as f64, "{} {}", dist, m.dist);
            assert_eq!(m.pos.unwrap_or((99 * FIELD_ONE, 99 * FIELD_ONE)), p.pos());
        }
    }
}

fn random_event(num: &mut Numbers, time: usize, ids: &[&str]) -> Event {
    let kind = match num.below(20) {
        0..=5 => AIAction::NoAction,
        6..=12 => AIAction::Kick,
        13..=15 => AIAction::Tackle,
        16..=17 => AIAction::Catch,
        _ => AIAction::Goal,
    };
    let side = if num.below(3) == 0 { SIDE_R } else { SIDE_L };
    let id = if kind == AIAction::Goal && num.below(4) != 0 {
        XPLAYERID_UNKNOWN.to_string()
    } else {
        ids[num.below(ids.len() as u64) as usize].to_string()
    };
    let pos = (num.below(1_000_001) as i32, num.below(1_000_001) as i32);
    Event { time, side, id, pos, kind }
}

fn play(seed: u64, events: usize) -> (usize, usize) {
    let ids = ["1", "2", "3"];
    let mut num = Numbers(seed);
    let mut model = Model::new(&ids);
    let mut info = ActionsInfo::new(&ids.to_vec(), &ids.to_vec());
    let mut time: usize = 0;
    let mut taken = 0;
    let mut refused = 0;
    for legs in 1..=events {
        if num.below(40) == 0 {
            model.seek = true;
            info.seek(-50);
            time = time.saturating_sub(num.below(60) as usize);
        }
        time += [0, 0, 1, 2, 3, 5, 8, 11, 20, 40][num.below(10) as usize];
        let ev = random_event(&mut num, time, &ids);
        let actd = ActionData::new(ev.time, ev.side, ev.id.clone(), ev.pos, ev.kind);
        if info.accepts(&actd) {
            info.handle_action(actd);
            assert!(model.handle(ev), "the rules call an accepted action impossible");
            taken += 1;
        } else {
            let mut trial = Model {
                ids: model.ids.clone(),
                left: model.left.clone(),
                right: model.right.clone(),
                lball: model.lball,
                rball: model.rball,
                actions: model.actions.clone(),
                raw: model.raw.clone(),
                seek: model.seek,
            };
            assert!(!trial.handle(ev), "a possible action was refused");
            refused += 1;
        }
        same_state(&model, &info, legs);
    }
    (taken, refused)
}

#[test]
fn library_agrees_with_floating_point_model_on_long_games() {
    let mut taken = 0;
    let mut refused = 0;
    for seed in 0..60 {
        let (t, r) = play(seed, 400);
        taken += t;
        refused += r;
    }
    assert!(taken > 20_000, "{}", taken);
    assert!(refused > 100, "{}", refused);
}

#[test]
fn library_agrees_with_floating_point_model_on_short_games() {
    for seed in 1000..1600 {
        play(seed, 12);
    }
}
