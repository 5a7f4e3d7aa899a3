pub mod query;
pub mod service;
