//! A dispatcher with two fixed backends: the default one first, the fallback
//! one where the first attempt fails. The caller makes the attempts.
use vstd::prelude::*;
use crate::selector::{AttemptOutcome, DispatchError, PaymentProcessorResponse};

verus! {

/// The payments endpoint under a base URL.
pub open spec fn payments_endpoint(base: Seq<char>) -> Seq<char> {
    base + "/payments"@
}

/// The payments endpoint under `base`.
pub fn payments_url(base: &str) -> (r: String)
    ensures
        r@ == payments_endpoint(base@),
{
    let mut u = String::from_str(base);
    u.append("/payments");
    u
}

/// What follows the attempt at the default backend.
#[derive(Debug, Clone)]
pub enum FallbackStep {
    /// The default backend placed the payment.
    Done(PaymentProcessorResponse),
    /// Send the payment to this URL of the fallback backend.
    TryFallback(String),
}

/// Two backends, tried in a fixed order.
pub struct PaymentProcessor {
    default_url: String,
    fallback_url: String,
}

impl PaymentProcessor {
    /// The default backend's base URL.
    pub closed spec fn default_base(&self) -> Seq<char> {
        self.default_url@
    }

    /// The fallback backend's base URL.
    pub closed spec fn fallback_base(&self) -> Seq<char> {
        self.fallback_url@
    }

    /// A dispatcher for the two given base URLs.
    pub fn new(default_url: String, fallback_url: String) -> (r: Self)
        ensures
            r.default_base() == default_url@,
            r.fallback_base() == fallback_url@,
    {
        PaymentProcessor { default_url, fallback_url }
    }

    /// Where a payment goes first: the default backend's payments endpoint.
    pub fn first_attempt(&self) -> (r: String)
        ensures
            r@ == payments_endpoint(self.default_base()),
    {
        payments_url(self.default_url.as_str())
    }

    /// Takes the outcome at the default backend: an accepted payment is done;
    /// anything else sends the payment on to the fallback backend.
    pub fn after_default(&self, outcome: AttemptOutcome) -> (r: FallbackStep)
        ensures
            match outcome {
                AttemptOutcome::Accepted(resp) => r == FallbackStep::Done(resp),
                _ => r matches FallbackStep::TryFallback(u) && u@ == payments_endpoint(
                    self.fallback_base(),
                ),
            },
    {
        match outcome {
            AttemptOutcome::Accepted(resp) => FallbackStep::Done(resp),
            _ => FallbackStep::TryFallback(payments_url(self.fallback_url.as_str())),
        }
    }

    /// Takes the outcome at the fallback backend: the payment is placed, or
    /// both backends have failed.
    pub fn after_fallback(&self, outcome: AttemptOutcome) -> (r: Result<
        PaymentProcessorResponse,
        DispatchError,
    >)
        ensures
            match outcome {
                AttemptOutcome::Accepted(resp) => r == Ok::<
                    PaymentProcessorResponse,
                    DispatchError,
                >(resp),
                _ => r == Err::<PaymentProcessorResponse, DispatchError>(
                    DispatchError::AllProcessorsUnavailable,
                ),
            },
    {
        match outcome {
            AttemptOutcome::Accepted(resp) => Ok(resp),
            _ => Err(DispatchError::AllProcessorsUnavailable),
        }
    }
}

} // verus!
