//! The form through which a URL is submitted.
use vstd::prelude::*;

verus! {

/// A submitted form.
pub struct Input {
    pub url: String,
}

} // verus!
