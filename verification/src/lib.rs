//! Content budgeting and bullet lifecycle for a daily club-news digest.
//!
//! The crate fits article bodies into a fixed model context window, merges
//! freshly generated bullet points with bullets carried over from earlier
//! runs, applies the novelty decisions of a classifier, and models the
//! store in which bullets wait for publication. Around that core it reads
//! links and articles out of the pages of the news sites, fixtures out of
//! the club's calendar, and decides the order of the steps of a run.
//!
//! Nothing here touches the network, the disk or the clock: pages, model
//! answers, stored rows and the time are handed in as plain values.

pub mod ai_deduplicator;
pub mod ai_summarizer;
pub mod app;
pub mod budget;
pub mod calendar;
pub mod carryover;
pub mod config;
pub mod db;
pub mod email;
pub mod extractor;
pub mod models;
pub mod telegram;
pub mod text;
pub mod tokenizer;
pub mod utils;
