pub mod cli;
pub mod clock;
pub mod config;
pub mod heartbeat;
pub mod links;
pub mod names;
pub mod notifier;
pub mod rotation;
pub mod runtime;
pub mod schedule;
pub mod scheduler;
pub mod status;
pub mod text;
pub mod values;
