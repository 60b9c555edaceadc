//! Core of a sport-record service: a canonical record model, an XML
//! ingestion parser, a backward-compatible decoder for persisted JSON
//! columns, vendor CSV import, time-bucketed statistics, and a scoped
//! result cache with precise invalidation.
pub mod ai;
pub mod api;
pub mod calendar;
pub mod common;
pub mod csv_import;
pub mod csvio;
pub mod compat;
pub mod config;
pub mod image;
pub mod json;
pub mod jwt;
pub mod llm_api;
pub mod kind;
pub mod model;
pub mod model_db;
pub mod numtext;
pub mod cache;
pub mod repo;
pub mod service;
pub mod stats;
pub mod text;
pub mod users;
pub mod timeparse;
pub mod xml;

pub use kind::SportType;
