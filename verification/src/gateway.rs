//! Typed failures of the payment subsystem and the classification of
//! gateway responses.
//!
//! A gateway response arrives here already decoded into plain values:
//! whether the HTTP status was a success, and which of the known
//! error-body shapes the body matched. The classification itself — which
//! shape wins, and which typed failure comes out — is decided and proved
//! here.

use vstd::prelude::*;
use vstd::string::StringExecFns;

verus! {

/// The URL of a gateway call: the path appended to the base URL.
pub fn gateway_url(base_url: &str, path: &str) -> (r: String)
    ensures
        r@ == base_url@ + path@,
{
    base_url.to_owned().concat(path)
}

/// The failure taxonomy of the payout subsystem.
#[derive(Debug)]
pub enum PayoutsError {
    /// Credential refresh failed: network trouble or a malformed token
    /// response.
    AuthenticationFailure,
    /// The gateway returned a structured business error; `name` is
    /// present only for shapes that carry one.
    GatewayError { name: Option<String>, message: String },
    /// Network-level failure talking to a gateway.
    GatewayCommunicationFailure,
    /// The body matched no expected shape: neither a known error shape
    /// on a non-success status, nor the caller's shape on success.
    GatewayResponseMalformed,
    /// Relational or analytics store failure.
    StoreFailure,
}

/// Classifies a PayPal-style gateway response.
///
/// `named` holds the fields of the first known error shape
/// `{name, message}` when the body matched it; `identity` holds the
/// fields of the second shape `{error, error_description}`. The first
/// shape is preferred; a non-success body matching neither is
/// malformed. An `Ok` result means the caller may go on and decode the
/// body into its expected shape.
pub fn classify_paypal_response(
    success: bool,
    named: Option<(String, String)>,
    identity: Option<(String, String)>,
) -> (r: Result<(), PayoutsError>)
    ensures
        success ==> r is Ok,
        !success ==> r is Err,
        (!success && named is Some) ==> (r == Err::<(), PayoutsError>(
            PayoutsError::GatewayError {
                name: Some(named->Some_0.0),
                message: named->Some_0.1,
            },
        )),
        (!success && named is None && identity is Some) ==> (r == Err::<(), PayoutsError>(
            PayoutsError::GatewayError {
                name: Some(identity->Some_0.0),
                message: identity->Some_0.1,
            },
        )),
        (!success && named is None && identity is None) ==> (r == Err::<(), PayoutsError>(
            PayoutsError::GatewayResponseMalformed,
        )),
{
    if success {
        Ok(())
    } else {
        match named {
            Some((name, message)) => Err(PayoutsError::GatewayError {
                name: Some(name),
                message,
            }),
            None => match identity {
                Some((error, description)) => Err(PayoutsError::GatewayError {
                    name: Some(error),
                    message: description,
                }),
                None => Err(PayoutsError::GatewayResponseMalformed),
            },
        }
    }
}

/// Classifies a Tremendous-style gateway response.
///
/// On a non-success status whose body is a JSON object, the `errors`
/// member's `{message}` field carries the business error;
/// `errors_message` is `Some` when it parsed. Any other non-success
/// body matches no known error shape and is malformed: a failure
/// status never falls through to ordinary decoding.
pub fn classify_tremendous_response(
    success: bool,
    body_is_object: bool,
    has_errors_member: bool,
    errors_message: Option<String>,
) -> (r: Result<(), PayoutsError>)
    ensures
        success ==> r is Ok,
        !success ==> r is Err,
        (!success && body_is_object && has_errors_member && errors_message is Some) ==> (r
            == Err::<(), PayoutsError>(
            PayoutsError::GatewayError { name: None, message: errors_message->Some_0 },
        )),
        (!success && !(body_is_object && has_errors_member && errors_message is Some)) ==> (r
            == Err::<(), PayoutsError>(PayoutsError::GatewayResponseMalformed)),
{
    if success {
        Ok(())
    } else if body_is_object && has_errors_member {
        match errors_message {
            Some(message) => Err(PayoutsError::GatewayError { name: None, message }),
            None => Err(PayoutsError::GatewayResponseMalformed),
        }
    } else {
        Err(PayoutsError::GatewayResponseMalformed)
    }
}

} // verus!
