//! A replica of the Raft consensus protocol, as a state machine whose steps are proved.
pub mod laws;
pub mod model;
pub mod replica;
pub mod rules;
pub mod timing;
pub mod types;
