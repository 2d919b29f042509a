//! Scores for the players of a simulated soccer match.
//!
//! The engine in [`engine`] takes the actions of a game one by one: kicks,
//! tackles, catches and goals, and the mere movement of a player. It holds
//! each action against the significant actions before it, credits the
//! players as the rules in [`rules`] say, and keeps two histories: the
//! significant actions, against which later ones are held, and all actions
//! on the ball. [`teams`] keeps the players of both sides with their scores
//! ([`score`]), their statistics and positions; [`summary`] gives what a
//! display needs of all this; [`laws`] states what holds whatever the game,
//! and [`frame`] what the rules leave alone.
//!
//! Scores are whole numbers of score units ([`score::SCORE_POINT`] of them
//! make a point) and positions whole numbers of millionths of the field's
//! extent ([`geometry`]), so that every result is exact.
//!
//! An action is handled by [`engine::ActionsInfo::handle_action`], which
//! asks that the action can be handled; [`engine::ActionsInfo::accepts`]
//! tells whether it can.

pub mod action;
pub mod engine;
pub mod entities;
pub mod frame;
pub mod geometry;
pub mod history;
pub mod laws;
pub mod passes;
pub mod playdata;
pub mod rcss;
pub mod rules;
pub mod score;
pub mod summary;
pub mod teams;
