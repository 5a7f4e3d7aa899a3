//! The logic of the daysquare backend: API description parsing,
//! settings, and connection information of requests.
pub mod configuration;
pub mod domain;
pub mod http;
pub mod parsers;
pub mod routes;
pub mod text;
pub mod tracelog;
