//! What the HTTP routes decide: how a request's parameters are read, which
//! service answers it, and what an error is answered with.

pub mod admin_handlers;
pub mod api_handlers;
