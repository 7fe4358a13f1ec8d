//! Polynostr: a Nostr bot core for Polymarket prediction-market queries and price alerts.

pub mod text;
pub mod number;
pub mod time;
pub mod alerts;
pub mod format;
pub mod commands;
pub mod portfolio;
pub mod polymarket;
pub mod config;
pub mod bot;
pub mod exponent;
