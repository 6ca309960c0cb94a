//! The server: introductions, accounts, managed devices, grants, and what it
//! takes to run it.

pub mod accounts;
pub mod api;
pub mod attempts;
pub mod audit;
pub mod backup;
pub mod carrying;
pub mod certificates;
pub mod config;
pub mod console;
pub mod db;
pub mod devices;
pub mod doctor;
pub mod grants;
pub mod health;
pub mod housekeeping;
pub mod https;
pub mod meeting;
pub mod metrics;
pub mod netsim;
pub mod releases;
pub mod rendezvous;
pub mod rows;
pub mod service;
pub mod start;
pub mod toml_file;
pub mod totp;
pub mod webtransport;
