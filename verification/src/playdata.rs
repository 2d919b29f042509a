//! What a play data source reports about the game and its players.

use vstd::prelude::*;
use crate::entities::{str_eq, SIDE_L, SIDE_R};

verus! {

/// A disciplinary card shown to a player.
#[derive(Debug, Clone, Copy, PartialEq, Eq, Structural)]
pub enum Card {
    NoCard,
    Red,
    Yellow,
}

impl Card {
    /// The card's name.
    pub fn name(&self) -> (s: &'static str)
        ensures
            s@ == (match *self {
                Card::NoCard => "None"@,
                Card::Red => "Red"@,
                Card::Yellow => "Yellow"@,
            }),
    {
        match self {
            Card::NoCard => "None",
            Card::Red => "Red",
            Card::Yellow => "Yellow",
        }
    }
}

/// What a player did in one record. The flag tells a clean action from a
/// faulty one.
#[derive(Debug, Clone, Copy, PartialEq, Eq, Structural)]
pub enum Action {
    NoAction,
    Kick(bool),
    Catch(bool),
    Tackle(bool),
    Others(usize),
}

/// The state of the game in one record.
#[derive(Debug)]
pub enum GameState {
    NoState,
    PlayPaused,
    PlayOn,
    Goal(char),
    Other(String),
}

/// The state of the game in one record as plain values.
pub enum GameStateView {
    NoState,
    PlayPaused,
    PlayOn,
    Goal(char),
    Other(Seq<char>),
}

impl View for GameState {
    type V = GameStateView;

    open spec fn view(&self) -> GameStateView {
        match *self {
            GameState::NoState => GameStateView::NoState,
            GameState::PlayPaused => GameStateView::PlayPaused,
            GameState::PlayOn => GameStateView::PlayOn,
            GameState::Goal(side) => GameStateView::Goal(side),
            GameState::Other(mode) => GameStateView::Other(mode@),
        }
    }
}

/// The state that a play mode of the simulator stands for: a goal of the
/// right or of the left side, play going on, or else the mode as it is.
pub open spec fn spec_game_state(mode: Seq<char>) -> GameStateView {
    if mode == "goal_r"@ {
        GameStateView::Goal(SIDE_R)
    } else if mode == "goal_l"@ {
        GameStateView::Goal(SIDE_L)
    } else if mode == "play_on"@ {
        GameStateView::PlayOn
    } else {
        GameStateView::Other(mode)
    }
}

/// The state that a play mode of the simulator stands for.
pub fn game_state(mode: &str) -> (state: GameState)
    ensures
        state@ == spec_game_state(mode@),
{
    if str_eq(mode, "goal_r") {
        GameState::Goal(SIDE_R)
    } else if str_eq(mode, "goal_l") {
        GameState::Goal(SIDE_L)
    } else if str_eq(mode, "play_on") {
        GameState::PlayOn
    } else {
        GameState::Other(String::from_str(mode))
    }
}

/// The players to whom a red or a yellow card was shown, each named once
/// for each colour.
#[derive(Debug)]
pub struct CardsShown {
    red: Vec<String>,
    yellow: Vec<String>,
}

/// The players to whom a red or a yellow card was shown as plain values.
pub struct CardsShownView {
    pub red: Seq<Seq<char>>,
    pub yellow: Seq<Seq<char>>,
}

impl CardsShownView {
    /// The players to whom `card` was shown; nobody for no card.
    pub open spec fn shown(self, card: Card) -> Seq<Seq<char>> {
        match card {
            Card::NoCard => Seq::empty(),
            Card::Red => self.red,
            Card::Yellow => self.yellow,
        }
    }

    /// Whether `card` is a card that `playerid` was not shown before.
    pub open spec fn is_new(self, card: Card, playerid: Seq<char>) -> bool {
        card != Card::NoCard && !self.shown(card).contains(playerid)
    }

    /// The players after `card` was shown to `playerid`.
    pub open spec fn noted(self, card: Card, playerid: Seq<char>) -> CardsShownView {
        if !self.is_new(card, playerid) {
            self
        } else if card == Card::Red {
            CardsShownView { red: self.red.push(playerid), ..self }
        } else {
            CardsShownView { yellow: self.yellow.push(playerid), ..self }
        }
    }
}

/// The identifiers of a list as plain values.
pub open spec fn names_view(names: Seq<String>) -> Seq<Seq<char>> {
    names.map_values(|s: String| s@)
}

impl View for CardsShown {
    type V = CardsShownView;

    closed spec fn view(&self) -> CardsShownView {
        CardsShownView { red: names_view(self.red@), yellow: names_view(self.yellow@) }
    }
}

/// Whether `names` holds `name`.
fn holds(names: &Vec<String>, name: &str) -> (b: bool)
    ensures
        b == names_view(names@).contains(name@),
{
    let mut i: usize = 0;
    while i < names.len()
        invariant
            i <= names.len(),
            forall|j: int| 0 <= j < i ==> #[trigger] names_view(names@)[j] != name@,
        decreases names.len() - i,
    {
        if str_eq(names[i].as_str(), name) {
            assert(names_view(names@)[i as int] == name@);
            return true;
        }
        i += 1;
    }
    false
}

impl CardsShown {
    /// Nobody was shown a card yet.
    pub fn new() -> (cards: CardsShown)
        ensures
            cards@.red == Seq::<Seq<char>>::empty(),
            cards@.yellow == Seq::<Seq<char>>::empty(),
    {
        let cards = CardsShown { red: Vec::new(), yellow: Vec::new() };
        assert(cards@.red =~= Seq::empty());
        assert(cards@.yellow =~= Seq::empty());
        cards
    }

    /// Notes that `card` was shown to `playerid`, and tells whether this is
    /// news: a red or yellow card that the player was not shown before.
    pub fn note(&mut self, card: Card, playerid: &str) -> (news: bool)
        ensures
            news == old(self)@.is_new(card, playerid@),
            final(self)@ == old(self)@.noted(card, playerid@),
    {
        match card {
            Card::NoCard => false,
            Card::Red => {
                if holds(&self.red, playerid) {
                    false
                } else {
                    self.red.push(String::from_str(playerid));
                    assert(self@.red =~= old(self)@.red.push(playerid@));
                    true
                }
            },
            Card::Yellow => {
                if holds(&self.yellow, playerid) {
                    false
                } else {
                    self.yellow.push(String::from_str(playerid));
                    assert(self@.yellow =~= old(self)@.yellow.push(playerid@));
                    true
                }
            },
        }
    }

    /// The players to whom `card` was shown, in the order of the showing.
    pub fn shown(&self, card: Card) -> (names: Vec<String>)
        ensures
            names_view(names@) == self@.shown(card),
    {
        let list = match card {
            Card::NoCard => {
                let none: Vec<String> = Vec::new();
                assert(names_view(none@) =~= Seq::empty());
                return none;
            },
            Card::Red => &self.red,
            Card::Yellow => &self.yellow,
        };
        let mut names: Vec<String> = Vec::new();
        let mut i: usize = 0;
        while i < list.len()
            invariant
                i <= list.len(),
                names.len() == i,
                forall|j: int| 0 <= j < i ==> #[trigger] names[j]@ == list[j]@,
            decreases list.len() - i,
        {
            names.push(list[i].clone());
            i += 1;
        }
        assert(names_view(names@) =~= names_view(list@));
        names
    }
}

} // verus!
