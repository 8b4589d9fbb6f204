pub mod check;
pub mod config;
pub mod dns;
pub mod failure;
pub mod ip;
pub mod ipv6;
pub mod ping;
pub mod schedule;
pub mod watch;
