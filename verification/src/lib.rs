//! A prompt composer for a terminal multiplexer.

pub mod bindings;
pub mod candidates;
pub mod card;
pub mod clock;
pub mod complete;
pub mod completing;
pub mod consent;
pub mod dashboard;
pub mod encode;
pub mod finding;
pub mod frame;
pub mod fuzzy;
pub mod gate;
pub mod history;
pub mod keyrecord;
pub mod keys;
pub mod lane;
pub mod laws;
pub mod lexer;
pub mod living;
pub mod model;
pub mod paths;
pub mod play;
pub mod prompt;
pub mod quote;
pub mod recall;
pub mod search;
pub mod sending;
pub mod showing;
pub mod state;
pub mod strip;
pub mod tab;
pub mod term;
pub mod text;
pub mod tick;
pub mod typing;
