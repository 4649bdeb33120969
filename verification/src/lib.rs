//! Planning, driving and recording of group messaging benchmarks on MLS.

pub mod add;
pub mod aggregate;
pub mod application;
pub mod batch;
pub mod client;
pub mod command;
pub mod config;
pub mod converge;
pub mod cycle;
pub mod density;
pub mod draw;
pub mod evict;
pub mod expect;
pub mod failure;
pub mod fanout;
pub mod flags;
pub mod health;
pub mod heap_budget;
pub mod lcg;
pub mod mls;
pub mod order;
pub mod packed;
pub mod plan;
pub mod plateau;
pub mod record;
pub mod rejoin;
pub mod relay;
pub mod remove;
pub mod roles;
pub mod sampling;
pub mod staircase;
pub mod table;
pub mod task;
pub mod text;
pub mod transition;
pub mod transport;
pub mod units;
pub mod update;
pub mod worker;
pub mod workers;
