//! A No-Limit Texas Hold'em engine: cards and deck, a five- and seven-card
//! hand evaluator with a total order on hand values, and a table state
//! machine (blinds, betting rounds, full and short raises, side pots,
//! showdown), with agents that drive it.

pub mod agents;
pub mod bots;
pub mod cards;
pub mod deck;
pub mod engine;
pub mod evaluator;
pub mod game;
pub mod hand;
pub mod text;
