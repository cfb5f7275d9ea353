//! Keeps Cloudflare DNS records pointed at the machine's public IPv4 address.

pub mod ip;
pub mod text;
pub mod utils;
pub mod outside;
pub mod models;
pub mod ip_monitor;
pub mod commands;
