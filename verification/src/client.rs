//! The client-side pieces of the auth protocol: the login wire types, the
//! endpoint address builder, and the decisions of the client's two-leg
//! authorization flow.

use vstd::prelude::*;

use crate::b64::{b64_decode, b64_decode_of};
use crate::http::{Header, header_get, spec_header_get};
use crate::auth::{challenge_header, challenge_state_header};

verus! {

/// A login (or signup) request body: the identifier, the password, and for
/// client-based authorization the device public key and the challenge
/// signature.
pub struct LoginRequest {
    pub id: String,
    pub password: String,
    pub cdpub: Option<Vec<u8>>,
    pub cba_challenge_sign: Option<Vec<u8>>,
}

/// The first leg's answer: the challenge to sign, if client-based
/// authorization is enabled.
pub struct LoginResponse {
    pub challenge: Option<Vec<u8>>,
}

/// A signup request carries the same fields as a login request.
pub type RegisterRequest = LoginRequest;

/// A signup answer carries the same field as a login answer.
pub type RegisterResponse = LoginResponse;

/// A request builder that can carry credentials across origins; the
/// platform decides how.
pub trait ClientPlatformAware {
    fn include_creds(self) -> Self;
}

/// The absolute address of an API endpoint on the page's own host:
/// the protocol, two slashes, the host, and the API path.
pub fn endpoint(protocol: &str, host: &str, api_uri: &str) -> (r: String)
    ensures
        r@ == protocol@ + "//"@ + host@ + api_uri@,
{
    let mut out = protocol.to_owned();
    out.append("//");
    out.append(host);
    out.append(api_uri);
    out
}

/// The client's next move after the first authorization leg.
pub enum ClientAuthStep {
    /// The server opened a challenge: sign it and repeat the call with the
    /// state echoed and the signature attached.
    SignAndRetry { challenge: Vec<u8>, state: String },
    /// No challenge came back: the first answer is the final one.
    Done,
}

/// Decides the client's next move from the first leg's response headers: a
/// retry happens exactly when the response carries both a decodable
/// challenge and a challenge state.
pub fn client_auth_step(headers: &Vec<Header>) -> (r: ClientAuthStep)
    ensures
        match (
            spec_header_get(headers@, challenge_header()),
            spec_header_get(headers@, challenge_state_header()),
        ) {
            (Some(cv), Some(sv)) => match b64_decode_of(cv) {
                Some(c) => r matches ClientAuthStep::SignAndRetry { challenge, state }
                    && challenge@ == c && state@ == sv,
                None => r is Done,
            },
            _ => r is Done,
        },
{
    let challenge = match header_get(headers, "LBRP-Challenge") {
        Some(encoded) => b64_decode(encoded.as_str()),
        None => None,
    };
    let state = header_get(headers, "LBRP-Challenge-State");
    match (challenge, state) {
        (Some(c), Some(s)) => ClientAuthStep::SignAndRetry { challenge: c, state: s },
        _ => ClientAuthStep::Done,
    }
}

/// What the client concludes from the final authorization answer, already
/// parsed: authorization carried through exactly when the server said so;
/// otherwise the server's error message, or a generic one, is reported.
pub fn auth_err_decision(authorized: Option<bool>, err: Option<String>) -> (r: Result<
    (),
    String,
>)
    ensures
        r is Ok <==> authorized == Some(true),
        match r {
            Ok(()) => true,
            Err(m) => match err {
                Some(ref e) => m@ == e@,
                None => m@ == "Unknown error"@,
            },
        },
{
    if let Some(true) = authorized {
        Ok(())
    } else {
        match err {
            Some(e) => Err(e),
            None => Err("Unknown error".to_owned()),
        }
    }
}

} // verus!
