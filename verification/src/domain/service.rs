//! A described API service.
use vstd::prelude::*;

verus! {

pub struct Service {
    pub name: String,
    pub home_url: String,
    pub api_url: String,
    pub description: String,
}

} // verus!
