//! The root span of a request.
use tracing::Span;
use vstd::prelude::*;

verus! {

#[verifier::external_type_specification]
#[verifier::external_body]
pub struct ExSpan(Span);

/// The root span opened for each incoming request.
pub struct RootSpan(Span);

/// Error when the root span of the current request cannot be found in
/// request-local storage (the tracing layer was not registered).
#[derive(Debug)]
pub struct RootSpanExtractionError {
    _priv: (),
}

impl RootSpan {
    /// The span this root span stands for.
    pub closed spec fn inner_span(&self) -> Span {
        self.0
    }

    pub fn new(span: Span) -> (r: RootSpan)
        ensures
            r.inner_span() == span,
    {
        RootSpan(span)
    }

    /// The span, borrowed.
    pub fn span(&self) -> (r: &Span)
        ensures
            *r == self.inner_span(),
    {
        &self.0
    }

    /// The span, taken out.
    pub fn into_span(self) -> (r: Span)
        ensures
            r == self.inner_span(),
    {
        self.0
    }

    /// The root span found in request-local storage, or the error that
    /// none was there.
    pub fn from_extension(found: Option<RootSpan>) -> (r: Result<RootSpan, RootSpanExtractionError>)
        ensures
            r is Err <==> found is None,
            r matches Ok(s) ==> found == Some(s),
    {
        match found {
            Some(s) => Ok(s),
            None => Err(RootSpanExtractionError { _priv: () }),
        }
    }
}

impl From<RootSpan> for Span {
    fn from(r: RootSpan) -> (s: Span) {
        r.into_span()
    }
}

impl vstd::std_specs::convert::FromSpecImpl<RootSpan> for Span {
    open spec fn obeys_from_spec() -> bool {
        true
    }

    open spec fn from_spec(r: RootSpan) -> Span {
        r.inner_span()
    }
}

impl RootSpanExtractionError {
    /// What the error says.
    pub fn message(&self) -> (r: String)
        ensures
            r@ == "Failed to retrieve root span from request-local storage."@,
    {
        String::from_str("Failed to retrieve root span from request-local storage.")
    }
}

} // verus!
