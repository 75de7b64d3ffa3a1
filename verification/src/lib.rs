//! A flashcard library: decks of cards, the list of known decks, study
//! progress with its review log, and the decisions of a study session.

pub mod commands;
pub mod config;
pub mod deck;
pub mod log;
pub mod paths;
pub mod progress;
pub mod schedule;
pub mod study;
pub mod time;
