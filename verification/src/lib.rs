//! Verified core of a command-line client for the 1Panel server panel.
pub mod text;
pub mod codec;
pub mod terminal;
pub mod session;
pub mod exec;
pub mod config;
pub mod crypto;
pub mod firewall;
pub mod auth;
pub mod client;
pub mod apps;
pub mod db;
pub mod redis;
pub mod web;
pub mod commands;
pub mod catalog;
pub mod doctor;
