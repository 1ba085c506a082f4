//! Verified core of the SSH bastion dashboard: parsing of `ps` and `ss`
//! output into reverse-tunnel connections, and rendering of the
//! connection list.

pub mod foreign;
pub mod laws;
pub mod models;
pub mod ps_output;
pub mod render;
pub mod ss_output;
pub mod ssh_monitor;
pub mod text;
