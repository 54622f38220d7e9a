//! Feed synchronisation engine of a self-hosted feed reader.
//!
//! The engine fetches subscribed feeds, reconciles their entries with the
//! items already stored, and reschedules every subscription with an
//! error-aware backoff.

pub mod auth;
pub mod cli;
pub mod config;
pub mod db;
pub mod feed;
pub mod feed_manager;
pub mod laws;
pub mod lemmas;
pub mod number;
pub mod opml;
pub mod reader;
pub mod updater;
pub mod utils;
