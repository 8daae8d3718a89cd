pub mod cli;
pub mod clipboard;
pub mod config;
pub mod daemon;
pub mod database;
pub mod hotkey;
pub mod laws;
pub mod picker;
pub mod plugins;
pub mod roundtrip;
pub mod text;
pub mod transfer;
pub mod trusted;
pub mod web;
