//! The state machine and its modules.

pub mod dispute;
pub mod escrow;
pub mod machine;
pub mod participant;
pub mod settlement;
pub mod step;
pub mod token;

pub use machine::StateMachine;
