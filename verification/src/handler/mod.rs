//! The command executor: one command against the shared state, transactions,
//! and the handling of the frames that a connection sends.

pub mod action;
pub mod command_handlers;
pub mod executor;
pub mod lists;
pub mod pubsub;
pub mod replication;
pub mod replies;
pub mod server;
pub mod sets;
pub mod streams;
pub mod strings;
pub mod transaction;

pub use action::Action;
pub use command_handlers::handle_set;
pub use executor::execute_command;
pub use server::Server;
pub use transaction::{handle_connection, handle_frame};
