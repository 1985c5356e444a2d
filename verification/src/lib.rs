//! Toggle a fixed set of launchd-managed services off and on, and report
//! their state: the logic of the tool, with its contracts.

pub mod text;
pub mod services;
pub mod command;
pub mod launchctl;
pub mod status;
pub mod output;
pub mod ops;
pub mod run;
pub mod privilege;
