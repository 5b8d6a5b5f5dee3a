//! Upstream-error interception: the per-route redirect onto the error SPA
//! route, the global catcher that swaps an HTML fallback in, and the
//! whitelisted error-page files.

use vstd::prelude::*;

use crate::http::{BodyModel, Header, ResponseModel, headers_remove, headers_set, spec_header_get};
use crate::text::{dec_u64, lower_seq, spec_dec, str_eq};

verus! {

/// The status a response without one is reported as: the not-found status.
pub open spec fn spec_effective_status(status: Option<u16>) -> u16 {
    match status {
        Some(s) => s,
        None => 404,
    }
}

/// The status the error middleware reports for a response.
pub fn effective_status(status: Option<u16>) -> (r: u16)
    ensures
        r == spec_effective_status(status),
{
    match status {
        Some(s) => s,
        None => 404,
    }
}

/// Whether a response is an error the interceptor acts on: no status yet, or
/// a status of `400` and above.
pub open spec fn spec_is_error_status(status: Option<u16>) -> bool {
    match status {
        Some(s) => s >= 400,
        None => true,
    }
}

/// The path of the error SPA route for a status: `/` followed by the status
/// in decimal.
pub open spec fn spec_status_path(code: u16) -> Seq<char> {
    seq!['/'] + spec_dec(code as int)
}

/// Renders the error SPA route path for a status.
pub fn status_path(code: u16) -> (r: String)
    ensures
        r@ == spec_status_path(code),
{
    proof {
        reveal_strlit("/");
    }
    let mut out = "/".to_owned();
    let digits = dec_u64(code as u64);
    out.append(digits.as_str());
    proof {
        assert("/"@ =~= seq!['/']);
    }
    out
}

/// The per-route redirect the interceptor performs, when it does.
pub struct ErrRedirect {
    /// The upstream's status, kept; `404` where none was set.
    pub status: u16,
    /// The `Location` the client is sent to: `/<status>`.
    pub location: String,
}

/// Decides whether the per-route interceptor rewrites a response: it does
/// exactly when the status is an error (or unset), the error-handler slot is
/// populated, and the handler's index page exists on disk.
pub fn proxied_error_decision(status: Option<u16>, slot_present: bool, index_exists: bool) -> (r:
    Option<ErrRedirect>)
    ensures
        r is Some <==> (spec_is_error_status(status) && slot_present && index_exists),
        match r {
            Some(e) => e.status == spec_effective_status(status) && e.location@
                == spec_status_path(spec_effective_status(status)),
            None => true,
        },
{
    if (match status {
        Some(s) => s >= 400,
        None => true,
    }) && slot_present && index_exists {
        let code = effective_status(status);
        Some(ErrRedirect { status: code, location: status_path(code) })
    } else {
        None
    }
}

/// Applies the per-route redirect: the status is kept, `Content-Length` and
/// `Content-Type` are dropped, the body is cleared, and `Location` names the
/// error SPA route. Headers under other names keep their values.
pub fn apply_err_redirect(res: &ResponseModel, e: &ErrRedirect) -> (r: ResponseModel)
    ensures
        r.status == Some(e.status),
        r.body is Empty,
        r.set_cookies@ == res.set_cookies@,
        spec_header_get(r.headers@, "Location"@) == Some(e.location@),
        spec_header_get(r.headers@, "Content-Length"@) is None,
        spec_header_get(r.headers@, "Content-Type"@) is None,
        forall|other: Seq<char>|
            lower_seq(other) != lower_seq("Location"@) && lower_seq(other) != lower_seq(
                "Content-Length"@,
            ) && lower_seq(other) != lower_seq("Content-Type"@) ==> #[trigger] spec_header_get(
                r.headers@,
                other,
            ) == spec_header_get(res.headers@, other),
{
    let h1 = headers_remove(&res.headers, "Content-Length");
    let h2 = headers_remove(&h1, "Content-Type");
    let h3 = headers_set(&h2, "Location", e.location.as_str());
    proof {
        reveal_strlit("Location");
        reveal_strlit("Content-Length");
        reveal_strlit("Content-Type");
        assert(lower_seq("Location"@).len() == 8 && lower_seq("Content-Length"@).len() == 14
            && lower_seq("Content-Type"@).len() == 12);
        crate::http::lemma_headers_remove_get(res.headers@, "Content-Length"@, "Content-Type"@);
        crate::http::lemma_headers_remove_get(h1@, "Content-Type"@, "Location"@);
        crate::http::lemma_headers_remove_get(res.headers@, "Content-Length"@, "Location"@);
        assert forall|other: Seq<char>|
            lower_seq(other) != lower_seq("Location"@) && lower_seq(other) != lower_seq(
                "Content-Length"@,
            ) && lower_seq(other) != lower_seq("Content-Type"@) implies #[trigger] spec_header_get(
            h3@,
            other,
        ) == spec_header_get(res.headers@, other) by {
            crate::http::lemma_headers_remove_get(res.headers@, "Content-Length"@, other);
            crate::http::lemma_headers_remove_get(h1@, "Content-Type"@, other);
        }
        assert(spec_header_get(h3@, "Content-Length"@) is None) by {
            crate::http::lemma_headers_remove_get(res.headers@, "Content-Length"@, "Content-Length"@);
            crate::http::lemma_headers_remove_get(h1@, "Content-Type"@, "Content-Length"@);
        }
        assert(spec_header_get(h3@, "Content-Type"@) is None) by {
            crate::http::lemma_headers_remove_get(h1@, "Content-Type"@, "Content-Type"@);
        }
    }
    let mut cookies = Vec::new();
    let mut i: usize = 0;
    while i < res.set_cookies.len()
        invariant
            i <= res.set_cookies@.len(),
            cookies@ =~= res.set_cookies@.subrange(0, i as int),
        decreases res.set_cookies@.len() - i,
    {
        cookies.push(crate::http::SetCookie {
            name: res.set_cookies[i].name.clone(),
            value: res.set_cookies[i].value.clone(),
            secure: res.set_cookies[i].secure,
            http_only: res.set_cookies[i].http_only,
            path: res.set_cookies[i].path.clone(),
        });
        proof {
            assert(cookies@ =~= res.set_cookies@.subrange(0, i + 1));
        }
        i += 1;
    }
    proof {
        assert(res.set_cookies@.subrange(0, res.set_cookies@.len() as int) =~= res.set_cookies@);
    }
    ResponseModel { status: Some(e.status), headers: h3, set_cookies: cookies, body: BodyModel::Empty }
}

/// Whether the request's origin belongs to a service excluded from HTML
/// error handling: its `https://` origin form equals the request's origin.
pub open spec fn spec_origin_excluded(origin: Option<Seq<char>>, excluded: Seq<Seq<char>>) -> bool {
    match origin {
        Some(o) => exists|k: int| 0 <= k < excluded.len() && o == "https://"@ + excluded[k],
        None => false,
    }
}

/// Decides whether the global catcher replaces an error response's body with
/// the HTML fallback: it does exactly for error (or unset) statuses whose
/// request origin is not excluded.
pub fn catcher_applies(origin: &Option<String>, excluded: &Vec<String>, status: Option<u16>) -> (r:
    bool)
    ensures
        r == (!spec_origin_excluded(
            match *origin {
                Some(ref o) => Some(o@),
                None => None,
            },
            excluded@.map_values(|s: String| s@),
        ) && spec_is_error_status(status)),
{
    let is_err = match status {
        Some(s) => s >= 400,
        None => true,
    };
    if !is_err {
        return false;
    }
    let ghost exv = excluded@.map_values(|s: String| s@);
    match origin {
        Some(o) => {
            let mut k: usize = 0;
            while k < excluded.len()
                invariant
                    k <= excluded@.len(),
                    spec_is_error_status(status),
                    *origin == Some(*o),
                    exv == excluded@.map_values(|s: String| s@),
                    forall|t: int| 0 <= t < k ==> o@ != "https://"@ + exv[t],
                decreases excluded@.len() - k,
            {
                proof {
                    reveal_strlit("https://");
                }
                let mut candidate = "https://".to_owned();
                candidate.append(excluded[k].as_str());
                if str_eq(o.as_str(), candidate.as_str()) {
                    proof {
                        assert(o@ == "https://"@ + exv[k as int]);
                        assert(spec_origin_excluded(Some(o@), exv));
                        assert(match *origin {
                            Some(ref q) => Some(q@),
                            None => None,
                        } == Some(o@));
                    }
                    return false;
                }
                k += 1;
            }
            true
        },
        None => true,
    }
}

/// Applies the catcher: the body becomes the HTML fallback, the status is
/// kept (`404` where none was set), and the response is marked as HTML.
pub fn apply_catcher(status: Option<u16>, headers: &Vec<Header>, html: String) -> (r:
    ResponseModel)
    ensures
        r.status == Some(spec_effective_status(status)),
        r.body matches BodyModel::Text(t) && t@ == html@,
        spec_header_get(r.headers@, "Content-Type"@) == Some("text/html; charset=utf-8"@),
        forall|other: Seq<char>|
            lower_seq(other) != lower_seq("Content-Type"@) ==> #[trigger] spec_header_get(
                r.headers@,
                other,
            ) == spec_header_get(headers@, other),
{
    let code = effective_status(status);
    let hs = headers_set(headers, "Content-Type", "text/html; charset=utf-8");
    ResponseModel {
        status: Some(code),
        headers: hs,
        set_cookies: Vec::new(),
        body: BodyModel::Text(html),
    }
}

/// Looks a request path up among the error handler's whitelisted files and
/// returns the bare file name: the path without its leading slash. Paths not
/// on the list find nothing.
pub fn error_file_lookup(static_files: &Vec<String>, path: &str) -> (r: Option<String>)
    ensures
        r is Some <==> (path@.len() >= 1 && exists|k: int|
            0 <= k < static_files@.len() && static_files@[k]@ == path@),
        match r {
            Some(f) => f@ == path@.subrange(1, path@.len() as int),
            None => true,
        },
{
    let n = path.unicode_len();
    if n == 0 {
        return None;
    }
    let mut k: usize = 0;
    while k < static_files.len()
        invariant
            k <= static_files@.len(),
            n == path@.len(),
            n >= 1,
            forall|t: int| 0 <= t < k ==> static_files@[t]@ != path@,
        decreases static_files@.len() - k,
    {
        if str_eq(static_files[k].as_str(), path) {
            assert(static_files@[k as int]@ == path@);
            let bare = path.substring_char(1, n);
            return Some(bare.to_owned());
        }
        k += 1;
    }
    None
}

} // verus!
