use matchscore::action::AIAction;
use matchscore::playdata::{game_state, Action, Card, CardsShown, GameState};

#[test]
fn play_modes_become_game_states() {
    assert!(matches!(game_state("goal_r"), GameState::Goal('r')));
    assert!(matches!(game_state("goal_l"), GameState::Goal('l')));
    assert!(matches!(game_state("play_on"), GameState::PlayOn));
    match game_state("kick_off_l") {
        GameState::Other(mode) => assert_eq!(mode, "kick_off_l"),
        state => panic!("{:?}", state),
    }
    match game_state("") {
        GameState::Other(mode) => assert_eq!(mode, ""),
        state => panic!("{:?}", state),
    }
    assert!(matches!(game_state("goal_x"), GameState::Other(_)));
    assert!(matches!(game_state("goal_"), GameState::Other(_)));
    assert!(matches!(game_state("play_on "), GameState::Other(_)));
}

#[test]
fn only_clean_actions_are_actions_on_the_ball() {
    assert_eq!(AIAction::from_play(Action::Kick(true)), AIAction::Kick);
    assert_eq!(AIAction::from_play(Action::Catch(true)), AIAction::Catch);
    assert_eq!(AIAction::from_play(Action::Tackle(true)), AIAction::Tackle);
    assert_eq!(AIAction::from_play(Action::Kick(false)), AIAction::NoAction);
    assert_eq!(AIAction::from_play(Action::Catch(false)), AIAction::NoAction);
    assert_eq!(AIAction::from_play(Action::Tackle(false)), AIAction::NoAction);
    assert_eq!(AIAction::from_play(Action::Others(0x40)), AIAction::NoAction);
    assert_eq!(AIAction::from_play(Action::NoAction), AIAction::NoAction);
}

#[test]
fn card_is_news_once_for_each_player_and_colour() {
    let mut cards = CardsShown::new();
    assert!(cards.shown(Card::Red).is_empty());
    assert!(cards.note(Card::Yellow, "4"));
    assert!(!cards.note(Card::Yellow, "4"));
    assert!(cards.note(Card::Red, "4"));
    assert!(!cards.note(Card::Red, "4"));
    assert!(cards.note(Card::Yellow, "5"));
    assert!(!cards.note(Card::Yellow, "4"));
    assert_eq!(cards.shown(Card::Yellow), vec!["4".to_string(), "5".to_string()]);
    assert_eq!(cards.shown(Card::Red), vec!["4".to_string()]);
}

#[test]
fn no_card_is_never_news() {
    let mut cards = CardsShown::new();
    assert!(!cards.note(Card::NoCard, "4"));
    assert!(!cards.note(Card::NoCard, "4"));
    assert!(cards.shown(Card::NoCard).is_empty());
    assert!(cards.shown(Card::Yellow).is_empty());
    assert!(cards.note(Card::Yellow, "4"));
    assert!(cards.shown(Card::NoCard).is_empty());
}
