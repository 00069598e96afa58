//! Deck-building and collection-tracking library for MTG Arena.

pub mod text;
pub mod numbers;
pub mod commands;
pub mod commands_deck;
pub mod commands_deck_community;
pub mod events;
pub mod models;
pub mod services;
pub mod regex_match;
