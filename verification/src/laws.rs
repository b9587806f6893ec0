//! What holds of the gateway as a whole.

pub mod forwarding;
pub mod listener;
pub mod routes;
pub mod tokens;
