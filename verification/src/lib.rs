#![verifier::loop_isolation(false)]

pub mod application;
pub mod authentication;
pub mod dispatcher;
pub mod idgen;
pub mod model;
pub mod session;
mod shared;

pub use shared::ServerRequest;
pub use shared::ServerResponse;
