//! The loopback listener that completes a browser login: it parses the one
//! callback request, builds the answer, and decides each step of a listening
//! session.

pub mod handler;
pub mod mapping;
pub mod request;
pub mod response;
pub mod session;
