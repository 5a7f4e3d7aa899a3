//! The identifier of a request.
use uuid::Uuid;
use vstd::prelude::*;

verus! {

#[verifier::external_type_specification]
#[verifier::external_body]
pub struct ExUuid(Uuid);

/// A unique identifier generated for each incoming request.
#[derive(Clone, Copy, Debug)]
pub struct RequestId(Uuid);

/// Error when the identifier of the current request cannot be found in
/// request-local storage (the tracing layer was not registered).
#[derive(Debug)]
pub struct RequestIdExtractionError {
    _priv: (),
}

/// The UUID whose sixteen octets, in order, are `octets`.
pub uninterp spec fn uuid_with_octets(octets: Seq<u8>) -> Uuid;

/// Octets of a version 4 UUID of the RFC 4122 variant: the high nibble of
/// octet 6 is 4 and the two high bits of octet 8 are `10`.
pub open spec fn is_v4_octets(b: Seq<u8>) -> bool {
    &&& b.len() == 16
    &&& b[6] / 16 == 4
    &&& b[8] / 64 == 2
}

/// `uuid::Uuid::new_v4`, taken as its octets (`into_bytes`). The octets
/// are random; what the source fixes of them is the version nibble and the
/// variant bits. Which random octets come back is not stated.
#[verifier::external_body]
fn random_v4_octets() -> (r: [u8; 16])
    ensures
        is_v4_octets(r@),
{
    Uuid::new_v4().into_bytes()
}

/// `uuid::Uuid::from_bytes`: the UUID with these octets, in order.
#[verifier::external_body]
fn uuid_from_octets(octets: [u8; 16]) -> (r: Uuid)
    ensures
        r == uuid_with_octets(octets@),
{
    Uuid::from_bytes(octets)
}

impl RequestId {
    /// The UUID this identifier stands for.
    pub closed spec fn inner_uuid(&self) -> Uuid {
        self.0
    }

    /// A fresh random identifier: a version 4 UUID of the RFC 4122 variant.
    pub fn generate() -> (r: RequestId)
        ensures
            exists|b: Seq<u8>| is_v4_octets(b) && r.inner_uuid() == uuid_with_octets(b),
    {
        let octets = random_v4_octets();
        let id = RequestId(uuid_from_octets(octets));
        assert(is_v4_octets(octets@) && id.inner_uuid() == uuid_with_octets(octets@));
        id
    }

    /// The UUID, taken out.
    pub fn into_uuid(self) -> (r: Uuid)
        ensures
            r == self.inner_uuid(),
    {
        self.0
    }

    /// The UUID, borrowed.
    pub fn uuid(&self) -> (r: &Uuid)
        ensures
            *r == self.inner_uuid(),
    {
        &self.0
    }

    /// The identifier found in request-local storage, or the error that
    /// none was there.
    pub fn from_extension(found: Option<RequestId>) -> (r: Result<RequestId, RequestIdExtractionError>)
        ensures
            r is Err <==> found is None,
            r matches Ok(s) ==> found == Some(s),
    {
        match found {
            Some(s) => Ok(s),
            None => Err(RequestIdExtractionError { _priv: () }),
        }
    }
}

impl From<RequestId> for Uuid {
    fn from(r: RequestId) -> (u: Uuid) {
        r.into_uuid()
    }
}

impl vstd::std_specs::convert::FromSpecImpl<RequestId> for Uuid {
    open spec fn obeys_from_spec() -> bool {
        true
    }

    open spec fn from_spec(r: RequestId) -> Uuid {
        r.inner_uuid()
    }
}

impl RequestIdExtractionError {
    /// What the error says.
    pub fn message(&self) -> (r: String)
        ensures
            r@ == "Failed to retrieve request id from request-local storage."@,
    {
        String::from_str("Failed to retrieve request id from request-local storage.")
    }
}

} // verus!
