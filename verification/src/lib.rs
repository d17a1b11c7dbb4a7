//! The core of a network decoy: fake protocol endpoints that answer what a
//! peer types from operator-defined rules, with canned text or with output
//! taken from a disposable sandbox, and that say what is to be recorded.
//!
//! The library decides and never acts. It opens no socket, starts no process
//! and reads no clock: a session is handed the events of its channel and
//! returns the actions that its caller has to perform.
//!
//! - [`command`]: the command engine. A rule matches an input against its
//!   pattern, substitutes the captures into its template, and answers from
//!   its cache, with the literal text, or by asking for an execution.
//! - [`service`]: the ordered rules of one service, tried in turn.
//! - [`session`]: the state machine of one connection.
//! - [`server`]: the orchestrator, which builds the servers of all services
//!   or none.
//! - [`matcher`]: the regular-expression engine, trusted.
//! - [`text`]: helpers on character sequences.

pub mod command;
pub mod matcher;
pub mod server;
pub mod service;
pub mod session;
pub mod text;
