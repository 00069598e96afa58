//! Services: card database, diagnostics and the deck builder.

pub mod card_db;
pub mod deck;
pub mod diagnostics;
pub mod feed_db;
pub mod history_db;
pub mod image_cache;
