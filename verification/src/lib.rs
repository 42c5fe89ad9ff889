//! A TCP connect-scan engine: descriptor budgeting, port ordering, scan planning,
//! retry scheduling and result aggregation, with machine-checked contracts.

pub mod budget;
pub mod endpoint;
pub mod error;
pub mod input;
pub mod plan;
pub mod port_strategy;
pub mod ports;
pub mod report;
pub mod scanner;
pub mod schedule;
