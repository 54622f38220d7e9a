//! What the handlers of the reader protocol share.

pub mod require_auth;
