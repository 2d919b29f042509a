use matchscore::playdata::{Action, Card};
use matchscore::rcss::{
    handle_state, has, STATE_BALL2PLAYER, STATE_CATCH, STATE_CATCH_FAULT, STATE_KICK,
    STATE_KICK_FAULT, STATE_PLAYER2BALL, STATE_REDCARD, STATE_TACKLE, STATE_TACKLE_FAULT,
    STATE_YELLOWCARD,
};

#[test]
fn plain_state_shows_nothing() {
    assert_eq!(handle_state(0), (Action::NoAction, Card::NoCard));
    assert_eq!(handle_state(0x1), (Action::NoAction, Card::NoCard));
    assert_eq!(handle_state(0x0c09), (Action::NoAction, Card::NoCard));
}

#[test]
fn each_action_bit_shows_its_action() {
    assert_eq!(handle_state(STATE_KICK).0, Action::Kick(true));
    assert_eq!(handle_state(STATE_KICK_FAULT).0, Action::Kick(false));
    assert_eq!(handle_state(STATE_CATCH).0, Action::Catch(true));
    assert_eq!(handle_state(STATE_CATCH_FAULT).0, Action::Catch(false));
    assert_eq!(handle_state(STATE_TACKLE).0, Action::Tackle(true));
    assert_eq!(handle_state(STATE_TACKLE_FAULT).0, Action::Tackle(false));
    assert_eq!(handle_state(STATE_BALL2PLAYER).0, Action::Others(0x40));
    assert_eq!(handle_state(STATE_PLAYER2BALL).0, Action::Others(0x80));
}

#[test]
fn first_action_bit_in_order_counts() {
    assert_eq!(handle_state(STATE_KICK | STATE_TACKLE).0, Action::Kick(true));
    assert_eq!(handle_state(STATE_KICK_FAULT | STATE_CATCH).0, Action::Kick(false));
    assert_eq!(handle_state(STATE_CATCH_FAULT | STATE_TACKLE).0, Action::Catch(false));
    assert_eq!(handle_state(STATE_TACKLE_FAULT | STATE_PLAYER2BALL).0, Action::Tackle(false));
    assert_eq!(handle_state(STATE_BALL2PLAYER | STATE_PLAYER2BALL).0, Action::Others(0x40));
    assert_eq!(handle_state(0xffff_ffff), (Action::Kick(true), Card::Red));
}

#[test]
fn cards_are_read_beside_the_action() {
    assert_eq!(handle_state(STATE_YELLOWCARD), (Action::NoAction, Card::Yellow));
    assert_eq!(handle_state(STATE_REDCARD), (Action::NoAction, Card::Red));
    assert_eq!(handle_state(STATE_REDCARD | STATE_YELLOWCARD).1, Card::Red);
    assert_eq!(handle_state(STATE_YELLOWCARD | STATE_TACKLE), (Action::Tackle(true), Card::Yellow));
    assert_eq!(handle_state(0x40003), (Action::Kick(true), Card::Yellow));
}

#[test]
fn has_wants_every_bit_of_the_flag() {
    assert!(has(0x6, 0x2));
    assert!(has(0x6, 0x6));
    assert!(!has(0x4, 0x6));
    assert!(has(0, 0));
}

#[test]
fn names_of_cards() {
    assert_eq!(Card::NoCard.name(), "None");
    assert_eq!(Card::Red.name(), "Red");
    assert_eq!(Card::Yellow.name(), "Yellow");
}
