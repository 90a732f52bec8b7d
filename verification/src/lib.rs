//! The core of a telemetry service for a fleet of nodes.
//!
//! Nodes post measurements with a signed token; readers ask for the history of the last
//! hours; old measurements are pruned. This library decides who may post, which statements
//! the database runs, how rows and measurements correspond, and how a history is grouped.
//! Sockets, the database and JSON are left to the program around it.
pub mod auth;
pub mod clock;
pub mod headers;
pub mod health;
pub mod history;
pub mod ingest;
pub mod numbers;
pub mod retention;
pub mod status;
pub mod store;
pub mod telemetry;
pub mod text;
pub mod token;
