//! Strategy state aggregation and monitoring for paper-trading dashboards.

pub mod aggregator;
pub mod alerts;
pub mod api;
pub mod cache;
pub mod config;
pub mod data;
pub mod decimal;
pub mod engine;
pub mod fetcher;
pub mod history;
pub mod keyed;
pub mod log_files;
pub mod log_parser;
pub mod positions;
pub mod scheduler;
pub mod store;
pub mod tailer;
pub mod ui;
