//! Request-scoped values handed to request handlers.
pub mod request_id;
pub mod root_span;
