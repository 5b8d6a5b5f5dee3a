//! The proxy client's decision logic: the outbound `Host` rewrite, protocol
//! upgrade detection and matching, and the mapping of upstream failures onto
//! client-facing statuses. The streaming itself happens outside; these
//! functions decide what the streams carry.

use vstd::prelude::*;

use crate::http::{Header, header_get, headers_set, spec_header_get};
use crate::text::{eq_ignore_case, has_token, lower_seq, spec_has_token};

verus! {

/// How the proxy treats an upstream response.
#[derive(PartialEq, Eq, Structural, Clone, Copy, Debug)]
pub enum UpgradeOutcome {
    /// No `101` from the upstream: stream the response body through.
    NotUpgraded,
    /// `101` with matching upgrade tokens and an upgradable client
    /// connection: hand both connections to the bidirectional copy.
    DoUpgrade,
    /// `101` but the upstream's upgrade token differs from the request's.
    TypeMismatch,
    /// `101` with matching tokens, but the client connection cannot be
    /// upgraded.
    NoUpgradeExtension,
}

/// A failure of one proxied exchange.
#[derive(PartialEq, Eq, Structural, Clone, Copy, Debug)]
pub enum ProxyError {
    /// The upstream could not be reached or failed mid-transfer.
    UpstreamUnreachable,
    UpgradeTypeMismatch,
    NoUpgradeExtension,
}

/// The status surfaced to the client for each proxy failure: `502` for an
/// unreachable upstream, `500` for the upgrade failures.
pub open spec fn spec_proxy_error_status(e: ProxyError) -> u16 {
    match e {
        ProxyError::UpstreamUnreachable => 502,
        ProxyError::UpgradeTypeMismatch => 500,
        ProxyError::NoUpgradeExtension => 500,
    }
}

/// Maps a proxy failure onto the status the client sees.
pub fn proxy_error_status(e: ProxyError) -> (r: u16)
    ensures
        r == spec_proxy_error_status(e),
{
    match e {
        ProxyError::UpstreamUnreachable => 502,
        ProxyError::UpgradeTypeMismatch => 500,
        ProxyError::NoUpgradeExtension => 500,
    }
}

/// The upgrade type a header list asks for: the `Upgrade` header's value,
/// folded to lower case, where `Connection` lists the `upgrade` token.
pub open spec fn spec_upgrade_type(headers: Seq<Header>) -> Option<Seq<char>> {
    match spec_header_get(headers, "Connection"@) {
        Some(cv) => if spec_has_token(cv, "upgrade"@) {
            match spec_header_get(headers, "Upgrade"@) {
                Some(uv) => Some(lower_seq(uv)),
                None => None,
            }
        } else {
            None
        },
        None => None,
    }
}

/// Reads the upgrade type out of a header list. The returned token is as
/// sent; its lower-case folding is the type recorded.
pub fn get_upgrade_type(headers: &Vec<Header>) -> (r: Option<String>)
    ensures
        match (r, spec_upgrade_type(headers@)) {
            (Some(s), Some(t)) => lower_seq(s@) == t,
            (None, None) => true,
            _ => false,
        },
{
    if let Some(cv) = header_get(headers, "Connection") {
        if has_token(cv.as_str(), "upgrade") {
            return header_get(headers, "Upgrade");
        }
    }
    None
}

/// The lower-case folding of an optional token.
pub open spec fn opt_lower(o: Option<Seq<char>>) -> Option<Seq<char>> {
    match o {
        Some(s) => Some(lower_seq(s)),
        None => None,
    }
}

/// What the proxy does once the upstream answered: anything but `101`
/// streams through; on `101` the upgrade tokens must match case-
/// insensitively and the client connection must be upgradable.
pub open spec fn spec_upgrade_decision(
    req_upgrade: Option<Seq<char>>,
    client_upgradable: bool,
    status: int,
    resp_upgrade: Option<Seq<char>>,
) -> UpgradeOutcome {
    if status != 101 {
        UpgradeOutcome::NotUpgraded
    } else if req_upgrade == resp_upgrade {
        if client_upgradable {
            UpgradeOutcome::DoUpgrade
        } else {
            UpgradeOutcome::NoUpgradeExtension
        }
    } else {
        UpgradeOutcome::TypeMismatch
    }
}

/// Decides how to treat the upstream's response: `req_upgrade` is the token
/// the client sent (if any), `client_upgradable` whether its connection can
/// be upgraded, and the response's own upgrade type is read from its
/// headers.
pub fn upgrade_decision(
    req_upgrade: &Option<String>,
    client_upgradable: bool,
    resp_status: u16,
    resp_headers: &Vec<Header>,
) -> (r: UpgradeOutcome)
    ensures
        r == spec_upgrade_decision(
            opt_lower(
                match *req_upgrade {
                    Some(ref s) => Some(s@),
                    None => None,
                },
            ),
            client_upgradable,
            resp_status as int,
            spec_upgrade_type(resp_headers@),
        ),
{
    if resp_status != 101 {
        return UpgradeOutcome::NotUpgraded;
    }
    let resp_upgrade = get_upgrade_type(resp_headers);
    let types_match: bool = match (req_upgrade, &resp_upgrade) {
        (Some(a), Some(b)) => eq_ignore_case(a.as_str(), b.as_str()),
        (None, None) => true,
        _ => false,
    };
    if types_match {
        if client_upgradable {
            UpgradeOutcome::DoUpgrade
        } else {
            UpgradeOutcome::NoUpgradeExtension
        }
    } else {
        UpgradeOutcome::TypeMismatch
    }
}

/// Rewrites the outbound `Host` header to the logical service host, leaving
/// every other header as the client sent it.
pub fn rewrite_host(headers: &Vec<Header>, domain: &str) -> (r: Vec<Header>)
    ensures
        spec_header_get(r@, "Host"@) == Some(domain@),
        forall|other: Seq<char>|
            lower_seq(other) != lower_seq("Host"@) ==> #[trigger] spec_header_get(r@, other)
                == spec_header_get(headers@, other),
{
    headers_set(headers, "Host", domain)
}

/// A `101` reaches the client only when the upstream answered `101` and the
/// upgrade tokens matched case-insensitively, on an upgradable client
/// connection.
pub proof fn lemma_upgrade_needs_matching_101(
    req_upgrade: Option<Seq<char>>,
    client_upgradable: bool,
    status: int,
    resp_upgrade: Option<Seq<char>>,
)
    requires
        spec_upgrade_decision(req_upgrade, client_upgradable, status, resp_upgrade)
            == UpgradeOutcome::DoUpgrade,
    ensures
        status == 101,
        req_upgrade == resp_upgrade,
        client_upgradable,
{
}

} // verus!
