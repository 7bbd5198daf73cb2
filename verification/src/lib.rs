//! Verified core of a self-hosted LiveKit monitoring dashboard.
pub mod api;
pub mod config;
pub mod egress;
pub mod events;
pub mod json;
pub mod laws;
pub mod like;
pub mod ordering;
pub mod records;
pub mod session_store;
pub mod table;
pub mod text;
pub mod timestamps;
pub mod web;
pub mod webhook;
