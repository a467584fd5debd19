//! Discovery, ingestion and meta-game aggregation for tournament data.
//!
//! The crawler probes event ids one after another, decides what to fetch and
//! when to stop; the aggregation functions turn the ingested corpus into
//! per-champion and per-card statistics.

pub mod text;
pub mod errors;

pub mod event;
pub mod standing;
pub mod decklist;
pub mod card;

pub mod fetch;
pub mod crawler;
pub mod sync;

pub mod ranking;
pub mod meta;

pub mod cache;
pub mod config;
