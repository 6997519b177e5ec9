//! RustyMeals core: the verified logic of an offline-first Mealie client.
//!
//! `text` holds the string model (whitespace trimming, decimal numbers,
//! comma-joined token lists), `json` a plain JSON value model, `api` the
//! Mealie payload types and request planning, `like` the model of SQLite's
//! `LIKE` patterns that the search builds, `db` the cache statements and
//! migrations, what a search selects, and row decoding, `commands` the
//! decisions of the UI commands and the sync engine, and `state` the
//! session credentials.

pub mod text;
pub mod json;
pub mod api;
pub mod commands;
pub mod like;
pub mod db;
pub mod state;
