//! The payment service's own request checks and reply.
use vstd::prelude::*;

verus! {

/// The reply to a payment placed through the service.
#[derive(Debug, Clone)]
pub struct PaymentResponse {
    pub message: String,
}

/// Why a payment request is refused.
#[derive(Debug, Clone, Copy, PartialEq, Eq, Structural)]
pub enum ValidationError {
    /// The correlation identifier does not read as a UUID.
    InvalidUuid,
}

/// Whether `uuid::Uuid::parse_str` accepts the text `s`.
pub uninterp spec fn uuid_accepts(s: Seq<char>) -> bool;

/// Relies on uuid::Uuid::parse_str, for whether the text reads as a UUID (in
/// any of the forms that the uuid crate parses); the answer depends on the
/// text alone.
#[verifier::external_body]
fn parses_as_uuid(s: &str) -> (r: bool)
    ensures
        r == uuid_accepts(s@),
{
    uuid::Uuid::parse_str(s).is_ok()
}

/// Checks a correlation identifier: it must read as a UUID.
pub fn validate_uuid(correlation_id: &str) -> (r: Result<(), ValidationError>)
    ensures
        r is Ok <==> uuid_accepts(correlation_id@),
        r is Err ==> r == Err::<(), ValidationError>(ValidationError::InvalidUuid),
{
    if parses_as_uuid(correlation_id) {
        Ok(())
    } else {
        Err(ValidationError::InvalidUuid)
    }
}

} // verus!
