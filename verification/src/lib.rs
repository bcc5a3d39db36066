//! A session persistence and query layer for a meeting-notes application.
//!
//! The store keeps session records (title, memos, transcript words, timing,
//! and links to calendar events and participants) and answers parametrized
//! queries over them: single-record fetch by several filter modes, filtered
//! listing and search, conflict-resolving upserts, cascading deletes, and a
//! maintenance sweep that removes empty drafts.

pub mod clock;
pub mod laws;
pub mod listing;
pub mod models;
pub mod seq_facts;
pub mod store;
pub mod text;
pub mod types;
pub mod valid;
