//! Core of a host-monitoring daemon: a validated configuration tree, a
//! journal-record filter pipeline, an event fabric with a snapshot store and
//! subscriber registry, and a supervised worker hierarchy.
#![allow(unused_imports)]

pub mod config;
pub mod config_error;
pub mod errors;
pub mod filter;
pub mod journal;
pub mod monitor;
pub mod patterns;
pub mod sse;
pub mod strutil;
pub mod system_monitor;
pub mod systemd;
pub mod systemd_common;
pub mod systemd_dbus;
pub mod systemd_subprocess;
pub mod value;
pub mod worker;
