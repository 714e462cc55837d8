//! A UCI chess engine core: position model, move rules, evaluation, search,
//! FEN / UCI text conversion and the move-provider pipeline, with their
//! behaviour stated as contracts and proved.

pub mod pieces;
pub mod board;
pub mod rules;
pub mod search;
pub mod options;
pub mod converter;
pub mod providers;
pub mod uci;
pub mod laws;
pub mod fen_laws;
pub mod move_laws;
