//! The mail protocol: the per-connection state machine and the decisions of a
//! connection around it.
pub mod session;
pub mod state_machine;
