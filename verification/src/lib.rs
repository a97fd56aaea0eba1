//! An event-sourced trading session: the event alphabet and its durable log,
//! the decisions an engine takes over it, the feeds that drive it and the
//! simulated venue it trades against.
pub mod backtest;
pub mod conduct;
pub mod config;
pub mod config_layout;
pub mod config_settings;
pub mod engine;
pub mod event;
pub mod harness;
pub mod historical;
pub mod history_facts;
pub mod journal;
pub mod journal_facts;
pub mod json;
pub mod live;
pub mod matching;
pub mod protocol;
pub mod record;
pub mod replay;
pub mod report;
pub mod sim;
pub mod sweep;
pub mod sweep_facts;
pub mod text;
pub mod timer;
pub mod value;
pub mod words;
