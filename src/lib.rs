//! Rules engine and session state for Cho Dai Di, a four-player trick-taking
//! card game of the Big Two family.

pub mod card;
pub mod cho_dai_di;
pub mod collections;
pub mod deck;
pub mod error;
pub mod notation;
pub mod player;
pub mod rank;
pub mod rules;
pub mod suit;
pub mod text;
