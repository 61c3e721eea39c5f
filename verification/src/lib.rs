//! Verified core of a trillium benchmark server: HTML escaping for the fortunes page, the
//! ordering of fortunes, the handler's reply decision, server and proxy settings read from the
//! environment, and the listener and runtime layout they imply.

pub mod escape;
pub mod order;
pub mod fortunes;
pub mod settings;
pub mod layout;
pub mod state;
