//! Security drift intelligence: scopes and operational states, the query
//! language, drift classification, the exposure graph and job scheduling.
pub mod text;
pub mod common;
pub mod query;
pub mod parser;
pub mod config;
pub mod auth;
pub mod api;
pub mod ip;
pub mod diff;
pub mod drift;
pub mod classify;
pub mod order;
pub mod ids;
pub mod report;
pub mod jobs;
pub mod http;
pub mod discovery;
pub mod correlation;
pub mod plugins;
pub mod graph;
pub mod timeline;
pub mod risk;
pub mod engine;
pub mod sources;
pub mod summary;
pub mod executive;
pub mod operations;
pub mod texts;
pub mod risk_rules;
