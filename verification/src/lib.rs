//! Port-knocking access control.
//!
//! A listener watches the connection attempts that reach an interface and
//! keeps, for each client address, the ports that the client has probed. When
//! the tail of a client's probes equals the secret sequence of a rule, the
//! rule's command is released for that client.
//!
//! The library decides; it does not act. Time is handed in as a number of
//! seconds, frames are handed in as bytes, and a command that is due is
//! handed out as a [`command::Dispatch`] for the caller to run. What a
//! detector does is therefore a function of its state and of what it is
//! given, and that function is what the contracts state.
//!
//! - [`config`]: rules and the listener's configuration.
//! - [`matching`]: suffix matching, and which rule fires when several match.
//! - [`store`]: the per-client records and their expiry.
//! - [`command`]: the command line that a rule releases for a client.
//! - [`sequence`]: the detector.
//! - [`laws`]: what holds of the detector over whole runs.
//! - [`packet`]: from a captured frame to a connection attempt.
//! - [`server`]: the listener around a detector.
//! - [`client`]: the knocking side.
//! - [`text`]: numbers and addresses as text.
//! - [`clock`]: the wall clock.

pub mod client;
pub mod clock;
pub mod command;
pub mod config;
pub mod laws;
pub mod matching;
pub mod packet;
pub mod sequence;
pub mod server;
pub mod store;
pub mod text;
