//! sweep: the decision logic of a disk and memory maintenance tool.
//!
//! The library holds the verified core: category registry, exclusion policy,
//! glob matching, duplicate grouping, the guard daemon's state machine, reserve
//! hysteresis, storage parsing, and the small parsers behind them. Everything
//! that touches the filesystem, processes or the OS lives in `app/`.

pub mod text;
pub mod paths;
pub mod sorting;
pub mod domain;
pub mod exclusion;
pub mod diagnose;
pub mod reserve;
pub mod storage;
pub mod kill;
pub mod idle;
pub mod guard;
pub mod optimize;
pub mod schedule;
pub mod usage;
pub mod apps;
pub mod undo;
pub mod system;
pub mod index;
pub mod doctor;
pub mod platform;
pub mod desktop;
pub mod dup;
pub mod clean;
pub mod discover;
pub mod rulepack;
pub mod expand;
pub mod commands;
pub mod monitor;
pub mod lockscan;
pub mod windisc;
