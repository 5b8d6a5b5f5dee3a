//! The CORS gate: a per-service allow-list of origins decides whether a
//! preflight is answered directly, whether response headers are stamped, or
//! whether the request passes through untouched.

use vstd::prelude::*;

use crate::config::CorsOpts;
use crate::http::{Header, Method, headers_clone, spec_header_get};
use crate::text::{lower_seq, str_eq};

verus! {

/// What the guard does with one request.
#[derive(PartialEq, Eq, Structural, Clone, Copy, Debug)]
pub enum CorsAction {
    /// Answer the preflight directly: `204 No Content` with the CORS headers.
    PreflightAllow,
    /// Forward, then stamp the CORS headers onto the response.
    StampAfter,
    /// Forward untouched and stamp nothing.
    PassThrough,
}

/// Whether the request's origin is on the allow-list.
pub open spec fn spec_origin_allowed(allow: Seq<Seq<char>>, origin: Option<Seq<char>>) -> bool {
    match origin {
        Some(o) => exists|k: int| 0 <= k < allow.len() && allow[k] == o,
        None => false,
    }
}

/// The guard's decision: a preflight from an allowed origin is answered
/// directly, any other request from an allowed origin is stamped afterwards,
/// and everything else passes through.
pub open spec fn spec_cors_action(
    method: Method,
    origin: Option<Seq<char>>,
    allow: Seq<Seq<char>>,
) -> CorsAction {
    if spec_origin_allowed(allow, origin) {
        if method == Method::Options {
            CorsAction::PreflightAllow
        } else {
            CorsAction::StampAfter
        }
    } else {
        CorsAction::PassThrough
    }
}

/// The allow-list as character sequences.
pub open spec fn allow_view(allow: Seq<String>) -> Seq<Seq<char>> {
    allow.map_values(|s: String| s@)
}

/// The origin header value as a character sequence.
pub open spec fn origin_view(origin: Option<String>) -> Option<Seq<char>> {
    match origin {
        Some(o) => Some(o@),
        None => None,
    }
}

/// Decides what the guard does with a request of the given method and
/// `Origin` header under the given allow-list.
pub fn cors_decision(method: Method, origin: &Option<String>, allow: &Vec<String>) -> (r:
    CorsAction)
    ensures
        r == spec_cors_action(method, origin_view(*origin), allow_view(allow@)),
{
    let matched: bool = match origin {
        Some(o) => {
            let mut found = false;
            let mut k: usize = 0;
            while k < allow.len()
                invariant
                    k <= allow@.len(),
                    found == exists|t: int| 0 <= t < k && allow_view(allow@)[t] == o@,
                decreases allow@.len() - k,
            {
                if str_eq(allow[k].as_str(), o.as_str()) {
                    assert(allow_view(allow@)[k as int] == o@);
                    found = true;
                }
                k += 1;
            }
            found
        },
        None => false,
    };
    proof {
        assert(matched == spec_origin_allowed(allow_view(allow@), origin_view(*origin)));
    }
    if matched {
        if method == Method::Options {
            CorsAction::PreflightAllow
        } else {
            CorsAction::StampAfter
        }
    } else {
        CorsAction::PassThrough
    }
}

/// The response headers stamped for an allowed origin, in order: the allowed
/// methods, headers and exposed headers from the shared options, the max age,
/// the echoing of the origin, the credentials flag, and the `Vary` pair.
pub open spec fn stamped_headers_ok(
    hs: Seq<Header>,
    base: int,
    opts: CorsOpts,
    origin: Seq<char>,
) -> bool {
    &&& hs.len() == base + 7
    &&& hs[base + 0].name@ == "Access-Control-Allow-Methods"@ && hs[base + 0].value@
        == opts.allowed_methods@
    &&& hs[base + 1].name@ == "Access-Control-Allow-Headers"@ && hs[base + 1].value@
        == opts.allowed_headers@
    &&& hs[base + 2].name@ == "Access-Control-Expose-Headers"@ && hs[base + 2].value@
        == opts.allowed_client_headers@
    &&& hs[base + 3].name@ == "Access-Control-Max-Age"@ && hs[base + 3].value@ == "86400"@
    &&& hs[base + 4].name@ == "Access-Control-Allow-Origin"@ && hs[base + 4].value@ == origin
    &&& hs[base + 5].name@ == "Access-Control-Allow-Credentials"@ && hs[base + 5].value@
        == "true"@
    &&& hs[base + 6].name@ == "Vary"@ && hs[base + 6].value@ == "Cookie, Origin"@
}

/// Appends the seven CORS response headers for `origin`.
fn push_cors_headers(out: &mut Vec<Header>, opts: &CorsOpts, origin: &str)
    ensures
        final(out)@.len() == old(out)@.len() + 7,
        forall|i: int| 0 <= i < old(out)@.len() ==> final(out)@[i] == old(out)@[i],
        stamped_headers_ok(final(out)@, old(out)@.len() as int, *opts, origin@),
{
    out.push(
        Header {
            name: "Access-Control-Allow-Methods".to_owned(),
            value: opts.allowed_methods.clone(),
        },
    );
    out.push(
        Header {
            name: "Access-Control-Allow-Headers".to_owned(),
            value: opts.allowed_headers.clone(),
        },
    );
    out.push(
        Header {
            name: "Access-Control-Expose-Headers".to_owned(),
            value: opts.allowed_client_headers.clone(),
        },
    );
    out.push(Header { name: "Access-Control-Max-Age".to_owned(), value: "86400".to_owned() });
    out.push(Header { name: "Access-Control-Allow-Origin".to_owned(), value: origin.to_owned() });
    out.push(
        Header { name: "Access-Control-Allow-Credentials".to_owned(), value: "true".to_owned() },
    );
    out.push(Header { name: "Vary".to_owned(), value: "Cookie, Origin".to_owned() });
}

/// Applies the guard's decision to the response headers: stamping appends
/// exactly the seven CORS headers, passing through changes nothing.
pub fn apply_cors_response(
    headers: &Vec<Header>,
    action: CorsAction,
    opts: &CorsOpts,
    origin: &Option<String>,
) -> (r: Vec<Header>)
    requires
        action != CorsAction::PassThrough ==> origin is Some,
    ensures
        action == CorsAction::PassThrough ==> r@ == headers@,
        action != CorsAction::PassThrough ==> {
            &&& forall|i: int| 0 <= i < headers@.len() ==> r@[i] == headers@[i]
            &&& stamped_headers_ok(
                r@,
                headers@.len() as int,
                *opts,
                origin_view(*origin).unwrap(),
            )
        },
{
    match action {
        CorsAction::PassThrough => {
            headers_clone(headers)
        },
        _ => {
            let o = match origin {
                Some(o) => o.as_str(),
                None => "",
            };
            let mut out = headers_clone(headers);
            push_cors_headers(&mut out, opts, o);
            out
        },
    }
}

/// An origin outside the allow-list passes through: the guard stamps nothing
/// and answers no preflight for it. Together with `apply_cors_response`,
/// whose pass-through case returns the response headers unchanged, no
/// `Access-Control-*` header is added for such an origin.
pub proof fn lemma_foreign_origin_untouched(
    method: Method,
    origin: Option<Seq<char>>,
    allow: Seq<Seq<char>>,
)
    requires
        !spec_origin_allowed(allow, origin),
    ensures
        spec_cors_action(method, origin, allow) == CorsAction::PassThrough,
{
}

/// The per-service CORS filter: its allow-list and the shared options.
pub struct CorsHandler {
    pub domain_cors_origins: Vec<String>,
    pub cors_opts: CorsOpts,
}

impl CorsHandler {
    /// Builds the filter for one service.
    pub fn new(origins: Vec<String>, cors_opts: CorsOpts) -> (r: CorsHandler)
        ensures
            r.domain_cors_origins == origins,
            r.cors_opts == cors_opts,
    {
        CorsHandler { domain_cors_origins: origins, cors_opts }
    }

    /// Decides what this filter does with a request.
    pub fn decide(&self, method: Method, origin: &Option<String>) -> (r: CorsAction)
        ensures
            r == spec_cors_action(method, origin_view(*origin), allow_view(
                self.domain_cors_origins@,
            )),
    {
        cors_decision(method, origin, &self.domain_cors_origins)
    }

    /// Applies a decision of this filter to the response headers.
    pub fn stamp(&self, headers: &Vec<Header>, action: CorsAction, origin: &Option<String>) -> (r:
        Vec<Header>)
        requires
            action != CorsAction::PassThrough ==> origin is Some,
        ensures
            action == CorsAction::PassThrough ==> r@ == headers@,
            action != CorsAction::PassThrough ==> {
                &&& forall|i: int| 0 <= i < headers@.len() ==> r@[i] == headers@[i]
                &&& stamped_headers_ok(
                    r@,
                    headers@.len() as int,
                    self.cors_opts,
                    origin_view(*origin).unwrap(),
                )
            },
    {
        apply_cors_response(headers, action, &self.cors_opts, origin)
    }
}

/// The outbound `Origin` rewrite: where the request's origin is allowed and
/// differs from the service host, the upstream sees `Origin` equal to the
/// `Host`; in every other case the headers pass unchanged.
pub fn rewrite_origin_for_upstream(
    headers: &Vec<Header>,
    host: &str,
    allow: &Vec<String>,
) -> (r: Vec<Header>)
    ensures
        ({
            let o = spec_header_get(headers@, "Origin"@);
            if o is Some && spec_origin_allowed(allow_view(allow@), o) && o != Some(host@) {
                spec_header_get(r@, "Origin"@) == Some(host@) && forall|other: Seq<char>|
                    lower_seq(other) != lower_seq("Origin"@) ==> #[trigger] spec_header_get(
                        r@,
                        other,
                    ) == spec_header_get(headers@, other)
            } else {
                r@ == headers@
            }
        }),
{
    let origin = crate::http::header_get(headers, "Origin");
    match origin {
        Some(o) => {
            let decision = cors_decision(Method::Other, &Some(o.clone()), allow);
            let same = str_eq(o.as_str(), host);
            if !same && decision == CorsAction::StampAfter {
                crate::http::headers_set(headers, "Origin", host)
            } else {
                headers_clone(headers)
            }
        },
        None => {
            headers_clone(headers)
        },
    }
}

} // verus!
