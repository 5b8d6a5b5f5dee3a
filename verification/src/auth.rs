//! The authorization gate: the per-request state machine that decides
//! whether a request reaches its handler, is answered with the auth
//! frontend, or is refused; and the challenge headers and cookies written
//! back after the auth back-channel answered.

use vstd::prelude::*;

use crate::b64::{b64_decode, b64_decode_of, b64_encode, b64_encode_of};
use crate::cookies::{
    TokenTriple, cookie_attrs_ok, deploy_value, set_view, spec_deploy_value,
};
use crate::http::{Header, SetCookie, header_get, spec_header_get};
use crate::text::str_eq;

verus! {

/// The request header carrying the state tying two challenge legs.
pub open spec fn challenge_state_header() -> Seq<char> {
    "LBRP-Challenge-State"@
}

/// The response header carrying a new challenge, base64.
pub open spec fn challenge_header() -> Seq<char> {
    "LBRP-Challenge"@
}

/// The request header carrying the challenge signature, base64.
pub open spec fn challenge_sign_header() -> Seq<char> {
    "LBRP-Challenge-Sign"@
}

/// What the guard does with a request.
#[derive(PartialEq, Eq, Structural, Clone, Copy, Debug)]
pub enum AuthDecision {
    /// Hand the request to the next handler (and inject into HTML replies).
    Forward,
    /// Answer `200` with the auth frontend's page, preserving the URL.
    ServeLoginPage,
    /// Answer `403 Forbidden`.
    Forbidden,
}

/// The guard's first step, before any back-channel call.
pub enum GuardStep {
    /// Tokens were found: authorize them against the back channel.
    Authorize(TokenTriple),
    /// No tokens, whitelisted path: pass through.
    Forward,
    /// No tokens, any other path: serve the auth frontend.
    ServeLoginPage,
}

/// The paths that pass the guard without tokens: the auth endpoints, the
/// frontend bundle files, and the favicon.
pub open spec fn spec_whitelisted(path: Seq<char>) -> bool {
    ||| path == "/--inner-lbrp-auth/sign-up-step1"@
    ||| path == "/--inner-lbrp-auth/sign-up-step2"@
    ||| path == "/--inner-lbrp-auth/sign-in-step1"@
    ||| path == "/--inner-lbrp-auth/sign-in-step2"@
    ||| path == "/--inner-lbrp-auth/checkup"@
    ||| path == "/--inner-lbrp-auth/revalidate"@
    ||| path == "/--inner-lbrp-auth/lbrp-auth-frontend.js"@
    ||| path == "/--inner-lbrp-auth/lbrp-auth-frontend_bg.wasm"@
    ||| path == "/--inner-lbrp-auth/lbrp_cba_autovalidate.js"@
    ||| path == "/--inner-lbrp-auth/lbrp_cba_autovalidate_bg.wasm"@
    ||| path == "/--inner-lbrp-auth/tailwind.css"@
    ||| path == "/favicon.ico"@
}

/// Tests whether a path passes the guard without tokens.
pub fn whitelisted_path(path: &str) -> (r: bool)
    ensures
        r == spec_whitelisted(path@),
{
    str_eq(path, "/--inner-lbrp-auth/sign-up-step1") || str_eq(
        path,
        "/--inner-lbrp-auth/sign-up-step2",
    ) || str_eq(path, "/--inner-lbrp-auth/sign-in-step1") || str_eq(
        path,
        "/--inner-lbrp-auth/sign-in-step2",
    ) || str_eq(path, "/--inner-lbrp-auth/checkup") || str_eq(
        path,
        "/--inner-lbrp-auth/revalidate",
    ) || str_eq(path, "/--inner-lbrp-auth/lbrp-auth-frontend.js") || str_eq(
        path,
        "/--inner-lbrp-auth/lbrp-auth-frontend_bg.wasm",
    ) || str_eq(path, "/--inner-lbrp-auth/lbrp_cba_autovalidate.js") || str_eq(
        path,
        "/--inner-lbrp-auth/lbrp_cba_autovalidate_bg.wasm",
    ) || str_eq(path, "/--inner-lbrp-auth/tailwind.css") || str_eq(path, "/favicon.ico")
}

/// The guard's first step: with tokens, the back channel decides; without,
/// whitelisted paths pass and every other request is answered with the auth
/// frontend so the URL survives login.
pub fn guard_entry(tokens: Option<TokenTriple>, path: &str) -> (r: GuardStep)
    ensures
        match tokens {
            Some(t) => r matches GuardStep::Authorize(u) && u == t,
            None => if spec_whitelisted(path@) {
                r is Forward
            } else {
                r is ServeLoginPage
            },
        },
{
    match tokens {
        Some(t) => GuardStep::Authorize(t),
        None => {
            if whitelisted_path(path) {
                GuardStep::Forward
            } else {
                GuardStep::ServeLoginPage
            }
        },
    }
}

/// What the auth back channel answered for one request.
pub struct AuthorizeOutcome {
    /// Whether the tokens were approved at all.
    pub approved: bool,
    /// Whether the service's required tags were granted.
    pub tags_granted: bool,
    /// A new state identifier for the next challenge leg, if one was opened.
    pub new_challenge_state: Option<String>,
    /// A new challenge to sign, if one was issued.
    pub new_cba_challenge: Option<Vec<u8>>,
    /// A refreshed access token, if one was issued.
    pub new_access_token: Option<String>,
    /// A refreshed client token, if one was issued.
    pub new_cba_token: Option<String>,
}

/// What the guard writes back after the back channel answered.
pub struct AuthResponseUpdate {
    /// Headers to add to the response.
    pub headers: Vec<Header>,
    /// Cookies to set on the response.
    pub cookies: Vec<SetCookie>,
    /// Whether the request goes on to its handler.
    pub decision: AuthDecision,
}

/// Turns the back channel's answer into response headers, refreshed
/// cookies, and the decision: forward only where the tokens were approved
/// and the required tags granted; a new challenge state is echoed in its
/// header, a new challenge travels base64-coded, and refreshed tokens are
/// redeployed as cookies.
pub fn apply_authorize_outcome(o: &AuthorizeOutcome, chunk: usize) -> (r: AuthResponseUpdate)
    requires
        chunk > 0,
        match o.new_cba_challenge {
            Some(ref c) => c@.len() <= 3 * (usize::MAX as int / 4 - 1),
            None => true,
        },
    ensures
        r.decision == (if o.approved && o.tags_granted {
            AuthDecision::Forward
        } else {
            AuthDecision::Forbidden
        }),
        spec_header_get(r.headers@, challenge_state_header()) == (match o.new_challenge_state {
            Some(ref s) => Some(s@),
            None => None::<Seq<char>>,
        }),
        spec_header_get(r.headers@, challenge_header()) == (match o.new_cba_challenge {
            Some(ref c) => Some(b64_encode_of(c@)),
            None => None::<Seq<char>>,
        }),
        set_view(r.cookies@) == (match o.new_access_token {
            Some(ref t) => spec_deploy_value(crate::cookies::access_name(), t@, chunk as int),
            None => Seq::empty(),
        }) + (match o.new_cba_token {
            Some(ref t) => spec_deploy_value(crate::cookies::client_name(), t@, chunk as int),
            None => Seq::empty(),
        }),
        cookie_attrs_ok(r.cookies@),
{
    proof {
        reveal_strlit("LBRP-Challenge-State");
        reveal_strlit("LBRP-Challenge");
        assert(challenge_state_header().len() == 20);
        assert(challenge_header().len() == 14);
        assert(crate::text::lower_seq(challenge_state_header()).len() == 20);
        assert(crate::text::lower_seq(challenge_header()).len() == 14);
    }
    let mut headers: Vec<Header> = Vec::new();
    match &o.new_challenge_state {
        Some(state) => {
            headers.push(
                Header { name: "LBRP-Challenge-State".to_owned(), value: state.clone() },
            );
        },
        None => {},
    }
    match &o.new_cba_challenge {
        Some(challenge) => {
            let encoded = b64_encode(challenge);
            headers.push(Header { name: "LBRP-Challenge".to_owned(), value: encoded });
        },
        None => {},
    }
    proof {
        let hs = headers@;
        if o.new_challenge_state is Some {
            assert(crate::http::header_matches(hs[0], challenge_state_header()));
            assert(!crate::http::header_matches(hs[0], challenge_header()));
            assert(spec_header_get(hs, challenge_state_header()) == Some(hs[0].value@));
            if o.new_cba_challenge is Some {
                assert(hs.len() == 2);
                assert(hs.subrange(1, 2) =~= seq![hs[1]]);
                assert(crate::http::header_matches(hs[1], challenge_header()));
                assert(spec_header_get(seq![hs[1]], challenge_header()) == Some(hs[1].value@));
                assert(spec_header_get(hs, challenge_header()) == spec_header_get(
                    hs.subrange(1, 2),
                    challenge_header(),
                ));
            } else {
                assert(hs.len() == 1);
                assert(hs.subrange(1, 1) =~= Seq::<Header>::empty());
                assert(spec_header_get(Seq::<Header>::empty(), challenge_header()) is None);
                assert(spec_header_get(hs, challenge_header()) == spec_header_get(
                    hs.subrange(1, 1),
                    challenge_header(),
                ));
            }
        } else {
            if o.new_cba_challenge is Some {
                assert(hs.len() == 1);
                assert(crate::http::header_matches(hs[0], challenge_header()));
                assert(!crate::http::header_matches(hs[0], challenge_state_header()));
                assert(spec_header_get(hs, challenge_header()) == Some(hs[0].value@));
                assert(hs.subrange(1, 1) =~= Seq::<Header>::empty());
                assert(spec_header_get(Seq::<Header>::empty(), challenge_state_header()) is None);
                assert(spec_header_get(hs, challenge_state_header()) == spec_header_get(
                    hs.subrange(1, 1),
                    challenge_state_header(),
                ));
            } else {
                assert(hs.len() == 0);
            }
        }
    }
    let mut cookies: Vec<SetCookie> = Vec::new();
    if let Some(token) = &o.new_access_token {
        let mut cs = deploy_value("LBRP-Access", token.as_str(), chunk);
        cookies.append(&mut cs);
    }
    let ghost first = cookies@;
    if let Some(token) = &o.new_cba_token {
        let mut cs = deploy_value("LBRP-Client", token.as_str(), chunk);
        let ghost second = cs@;
        cookies.append(&mut cs);
        proof {
            assert(cookies@ == first + second);
            assert(set_view(cookies@) =~= set_view(first) + set_view(second));
        }
    } else {
        proof {
            assert(set_view(cookies@) + Seq::<(Seq<char>, Seq<char>)>::empty() =~= set_view(
                cookies@,
            ));
        }
    }
    let decision = if o.approved && o.tags_granted {
        AuthDecision::Forward
    } else {
        AuthDecision::Forbidden
    };
    proof {
        match o.new_challenge_state {
            Some(ref s) => {
                assert(spec_header_get(headers@, challenge_state_header()) == Some(s@));
            },
            None => {
                assert(spec_header_get(headers@, challenge_state_header()) is None);
            },
        }
        match o.new_cba_challenge {
            Some(ref c) => {
                assert(spec_header_get(headers@, challenge_header()) == Some(b64_encode_of(c@)));
            },
            None => {
                assert(spec_header_get(headers@, challenge_header()) is None);
            },
        }
    }
    AuthResponseUpdate { headers, cookies, decision }
}

/// The challenge data a request carries: the state header as sent, and the
/// signature header base64-decoded; an undecodable signature reads as
/// absent.
pub fn extract_challenge_headers(headers: &Vec<Header>) -> (r: (Option<String>, Option<Vec<u8>>))
    ensures
        (match r.0 {
            Some(ref v) => Some(v@),
            None => None::<Seq<char>>,
        }) == spec_header_get(headers@, challenge_state_header()),
        match spec_header_get(headers@, challenge_sign_header()) {
            Some(sv) => match (r.1, b64_decode_of(sv)) {
                (Some(ref v), Some(w)) => v@ == w,
                (None, None) => true,
                _ => false,
            },
            None => r.1 is None,
        },
{
    let state = header_get(headers, "LBRP-Challenge-State");
    let sign = match header_get(headers, "LBRP-Challenge-Sign") {
        Some(encoded) => b64_decode(encoded.as_str()),
        None => None,
    };
    (state, sign)
}

/// The paths of the auth endpoints, in the order the router mounts them.
pub fn auth_route_paths() -> (r: Vec<String>)
    ensures
        r@.len() == 6,
        r@[0]@ == "/--inner-lbrp-auth/sign-up-step1"@,
        r@[1]@ == "/--inner-lbrp-auth/sign-up-step2"@,
        r@[2]@ == "/--inner-lbrp-auth/sign-in-step1"@,
        r@[3]@ == "/--inner-lbrp-auth/sign-in-step2"@,
        r@[4]@ == "/--inner-lbrp-auth/checkup"@,
        r@[5]@ == "/--inner-lbrp-auth/revalidate"@,
{
    let mut out: Vec<String> = Vec::new();
    out.push("/--inner-lbrp-auth/sign-up-step1".to_owned());
    out.push("/--inner-lbrp-auth/sign-up-step2".to_owned());
    out.push("/--inner-lbrp-auth/sign-in-step1".to_owned());
    out.push("/--inner-lbrp-auth/sign-in-step2".to_owned());
    out.push("/--inner-lbrp-auth/checkup".to_owned());
    out.push("/--inner-lbrp-auth/revalidate".to_owned());
    out
}

/// The header carrying opaque preregistration state between the two signup
/// legs.
pub open spec fn signup_hints_header() -> Seq<char> {
    "SIGNUP_HINTS"@
}

/// Reads the preregistration state the second signup leg must echo; absent
/// state refuses the request as unauthorized.
pub fn extract_signup_hints(headers: &Vec<Header>) -> (r: Option<String>)
    ensures
        (match r {
            Some(ref v) => Some(v@),
            None => None::<Seq<char>>,
        }) == spec_header_get(headers@, signup_hints_header()),
{
    header_get(headers, "SIGNUP_HINTS")
}

} // verus!
