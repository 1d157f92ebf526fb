//! A chess rules engine with an adversarial move search on top of it.
//!
//! The `game` module holds the board, the legal move generator, the rules
//! for applying a move and the notation for positions and moves; `engine`
//! searches the game tree for a move to play; `chess_game` is a board that
//! takes moves as text and keeps clocks and history; `client` holds what a
//! front end needs to follow a game on a board that it can only look at.
//!
//! Every function comes with a contract over the mathematical rules in
//! `game::rules` and `engine::search`, and the modules named `laws` prove
//! what follows from them.

pub mod chess_game;
pub mod client;
pub mod engine;
pub mod game;
pub mod text;
