//! The coordinator of a multi-database server, as a state machine without I/O.
//!
//! [`ServerState`] owns the registry of live databases, the table of client
//! connections and the pool of executor workers. Every operation is a plain
//! function from the current state and the caller's arguments to the next
//! state and an answer; whatever has to touch a disk, a channel or a thread
//! is handed back to the caller as data (see [`ShutdownStep`]).
pub mod connections;
pub mod database_state;
pub mod error;
pub mod lifecycle;
pub mod query_registrar;
pub mod registry;
pub mod server_state;
pub mod shutdown;
pub mod text;
pub mod worker;

pub use database_state::{DatabaseSnapshot, DatabaseState};
pub use error::{ErrorKind, ServerError};
pub use query_registrar::{LogicalTimeStamp, QueryWindow};
pub use server_state::{PlanSource, ServerState};
pub use shutdown::ShutdownStep;
pub use worker::Worker;
