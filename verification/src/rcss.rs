//! The player state word of the soccer simulator, and what it says about a
//! player's action and card.

use vstd::prelude::*;
use crate::playdata::{Action, Card};

verus! {

pub const STATE_KICK: u32 = 0x00002;

pub const STATE_KICK_FAULT: u32 = 0x00004;

pub const STATE_CATCH: u32 = 0x00010;

pub const STATE_CATCH_FAULT: u32 = 0x00020;

pub const STATE_BALL2PLAYER: u32 = 0x00040;

pub const STATE_PLAYER2BALL: u32 = 0x00080;

pub const STATE_TACKLE: u32 = 0x01000;

pub const STATE_TACKLE_FAULT: u32 = 0x02000;

pub const STATE_REDCARD: u32 = 0x80000;

pub const STATE_YELLOWCARD: u32 = 0x40000;

/// Whether every bit of `flag` is set in `state`.
pub open spec fn spec_has(state: u32, flag: u32) -> bool {
    state & flag == flag
}

/// The card that a state word shows: red wins over yellow.
pub open spec fn spec_card(state: u32) -> Card {
    if spec_has(state, STATE_REDCARD) {
        Card::Red
    } else if spec_has(state, STATE_YELLOWCARD) {
        Card::Yellow
    } else {
        Card::NoCard
    }
}

/// The action that a state word shows. Where several action bits are set,
/// the first in this order counts: kick, faulty kick, catch, faulty catch,
/// tackle, faulty tackle, ball to player, player to ball.
pub open spec fn spec_action(state: u32) -> Action {
    if spec_has(state, STATE_KICK) {
        Action::Kick(true)
    } else if spec_has(state, STATE_KICK_FAULT) {
        Action::Kick(false)
    } else if spec_has(state, STATE_CATCH) {
        Action::Catch(true)
    } else if spec_has(state, STATE_CATCH_FAULT) {
        Action::Catch(false)
    } else if spec_has(state, STATE_TACKLE) {
        Action::Tackle(true)
    } else if spec_has(state, STATE_TACKLE_FAULT) {
        Action::Tackle(false)
    } else if spec_has(state, STATE_BALL2PLAYER) {
        Action::Others(STATE_BALL2PLAYER as usize)
    } else if spec_has(state, STATE_PLAYER2BALL) {
        Action::Others(STATE_PLAYER2BALL as usize)
    } else {
        Action::NoAction
    }
}

/// Whether every bit of `flag` is set in `state`.
pub fn has(state: u32, flag: u32) -> (b: bool)
    ensures
        b == spec_has(state, flag),
{
    state & flag == flag
}

/// Reads a player's action and card from the state word.
pub fn handle_state(state: u32) -> (r: (Action, Card))
    ensures
        r.0 == spec_action(state),
        r.1 == spec_card(state),
{
    let mut action = Action::NoAction;
    let mut card = Card::NoCard;
    if has(state, STATE_REDCARD) {
        card = Card::Red;
    } else if has(state, STATE_YELLOWCARD) {
        card = Card::Yellow;
    }
    if has(state, STATE_KICK) {
        action = Action::Kick(true);
    } else if has(state, STATE_KICK_FAULT) {
        action = Action::Kick(false);
    } else if has(state, STATE_CATCH) {
        action = Action::Catch(true);
    } else if has(state, STATE_CATCH_FAULT) {
        action = Action::Catch(false);
    } else if has(state, STATE_TACKLE) {
        action = Action::Tackle(true);
    } else if has(state, STATE_TACKLE_FAULT) {
        action = Action::Tackle(false);
    } else if has(state, STATE_BALL2PLAYER) {
        action = Action::Others(STATE_BALL2PLAYER as usize);
    } else if has(state, STATE_PLAYER2BALL) {
        action = Action::Others(STATE_PLAYER2BALL as usize);
    }
    (action, card)
}

} // verus!
