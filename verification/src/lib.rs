//! Verified core of a search-engine router: provider selection, rate-limit
//! tracking, language profiles, caches and the fallback decisions that drive
//! a search across several providers.

pub mod text;
pub mod tables;
pub mod models;
pub mod rate_limit;
pub mod language_profile;
pub mod selector;
pub mod catalog;
pub mod providers;
pub mod stats;
pub mod executor;
pub mod content;
pub mod cache;
pub mod errors;
pub mod keys;
pub mod config;
pub mod service;
pub mod seed;
