//! A developer-activity tracker: the activity records and the operations on
//! the store, the projection that the dashboard lists, the activities derived
//! from commit history, and the dashboard's input state machine.

pub mod activity;
pub mod clock;
pub mod text;
pub mod projection;
pub mod projection_proofs;
pub mod store;
pub mod commits;
pub mod dashboard;
pub mod display;
