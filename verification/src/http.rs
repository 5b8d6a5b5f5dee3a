//! A plain model of the HTTP values the gateway's decisions read and write:
//! header lists, cookie lists, and the parts of a response the middleware
//! edits. Header names compare case-insensitively, cookie names exactly.

use vstd::prelude::*;

use crate::text::{eq_ignore_case, lower_seq, str_eq};

verus! {

/// One request or response header.
pub struct Header {
    pub name: String,
    pub value: String,
}

/// One cookie, as sent by the client.
pub struct Cookie {
    pub name: String,
    pub value: String,
}

/// One `Set-Cookie` directive produced by the gateway.
pub struct SetCookie {
    pub name: String,
    pub value: String,
    pub secure: bool,
    pub http_only: bool,
    pub path: String,
}

/// The HTTP method of an inbound request, as far as the gateway's decisions
/// distinguish them.
#[derive(PartialEq, Eq, Structural, Clone, Copy, Debug)]
pub enum Method {
    Get,
    Post,
    Put,
    Delete,
    Patch,
    Head,
    Options,
    Other,
}

/// The response body, as far as the gateway's decisions distinguish it.
pub enum BodyModel {
    /// No body at all.
    Empty,
    /// A body held in memory.
    Text(String),
    /// A body streaming from the upstream, not held by the gateway.
    Opaque,
}

/// The parts of a response that the gateway's middleware reads and edits.
pub struct ResponseModel {
    /// `None` until some handler set a status.
    pub status: Option<u16>,
    pub headers: Vec<Header>,
    pub set_cookies: Vec<SetCookie>,
    pub body: BodyModel,
}

/// Whether header `h` is named `name`, up to ASCII case.
pub open spec fn header_matches(h: Header, name: Seq<char>) -> bool {
    lower_seq(h.name@) == lower_seq(name)
}

/// The value of the first header named `name`, if any.
pub open spec fn spec_header_get(hs: Seq<Header>, name: Seq<char>) -> Option<Seq<char>>
    decreases hs.len(),
{
    if hs.len() == 0 {
        None
    } else if header_matches(hs[0], name) {
        Some(hs[0].value@)
    } else {
        spec_header_get(hs.subrange(1, hs.len() as int), name)
    }
}

/// `hs` with every header named `name` dropped.
pub open spec fn spec_headers_remove(hs: Seq<Header>, name: Seq<char>) -> Seq<Header>
    decreases hs.len(),
{
    if hs.len() == 0 {
        hs
    } else if header_matches(hs[0], name) {
        spec_headers_remove(hs.subrange(1, hs.len() as int), name)
    } else {
        seq![hs[0]] + spec_headers_remove(hs.subrange(1, hs.len() as int), name)
    }
}

/// After removal nothing under `name` is left, and headers under other names
/// are untouched.
pub proof fn lemma_headers_remove_get(hs: Seq<Header>, name: Seq<char>, other: Seq<char>)
    ensures
        lower_seq(other) == lower_seq(name) ==> spec_header_get(
            spec_headers_remove(hs, name),
            other,
        ) is None,
        lower_seq(other) != lower_seq(name) ==> spec_header_get(
            spec_headers_remove(hs, name),
            other,
        ) == spec_header_get(hs, other),
    decreases hs.len(),
{
    if hs.len() > 0 {
        let tail = hs.subrange(1, hs.len() as int);
        lemma_headers_remove_get(tail, name, other);
        if !header_matches(hs[0], name) {
            let rest = spec_headers_remove(tail, name);
            assert((seq![hs[0]] + rest).subrange(1, (seq![hs[0]] + rest).len() as int) =~= rest);
        }
    }
}

/// Looks up the first header named `name` (ASCII case-insensitively) and
/// returns a copy of its value.
pub fn header_get(hs: &Vec<Header>, name: &str) -> (r: Option<String>)
    ensures
        match r {
            Some(v) => spec_header_get(hs@, name@) == Some(v@),
            None => spec_header_get(hs@, name@) is None,
        },
{
    let mut i: usize = 0;
    proof {
        assert(hs@.subrange(0, hs@.len() as int) =~= hs@);
    }
    while i < hs.len()
        invariant
            i <= hs@.len(),
            spec_header_get(hs@, name@) == spec_header_get(
                hs@.subrange(i as int, hs@.len() as int),
                name@,
            ),
        decreases hs@.len() - i,
    {
        proof {
            let tail = hs@.subrange(i as int, hs@.len() as int);
            assert(tail.subrange(1, tail.len() as int) =~= hs@.subrange(
                i + 1,
                hs@.len() as int,
            ));
        }
        if eq_ignore_case(hs[i].name.as_str(), name) {
            let v = hs[i].value.clone();
            return Some(v);
        }
        i += 1;
    }
    proof {
        assert(hs@.subrange(hs@.len() as int, hs@.len() as int) =~= Seq::<Header>::empty());
    }
    None
}

/// Drops every header named `name` (ASCII case-insensitively).
pub fn headers_remove(hs: &Vec<Header>, name: &str) -> (r: Vec<Header>)
    ensures
        r@ == spec_headers_remove(hs@, name@),
{
    let mut out: Vec<Header> = Vec::new();
    let mut i: usize = 0;
    proof {
        assert(hs@.subrange(0, hs@.len() as int) =~= hs@);
    }
    while i < hs.len()
        invariant
            i <= hs@.len(),
            spec_headers_remove(hs@, name@) == out@ + spec_headers_remove(
                hs@.subrange(i as int, hs@.len() as int),
                name@,
            ),
        decreases hs@.len() - i,
    {
        let ghost tail = hs@.subrange(i as int, hs@.len() as int);
        proof {
            assert(tail.subrange(1, tail.len() as int) =~= hs@.subrange(
                i + 1,
                hs@.len() as int,
            ));
        }
        if eq_ignore_case(hs[i].name.as_str(), name) {
            // dropped
        } else {
            let h = Header { name: hs[i].name.clone(), value: hs[i].value.clone() };
            assert(h == hs@[i as int]);
            out.push(h);
        }
        i += 1;
    }
    proof {
        assert(hs@.subrange(hs@.len() as int, hs@.len() as int) =~= Seq::<Header>::empty());
        assert(out@ + spec_headers_remove(Seq::<Header>::empty(), name@) =~= out@);
    }
    out
}

/// Looking a name up after a push: a pushed header answers for its own name
/// where the list held none, and changes nothing under other names.
pub proof fn lemma_get_of_push(hs: Seq<Header>, h: Header, other: Seq<char>)
    ensures
        lower_seq(other) == lower_seq(h.name@) && spec_header_get(hs, other) is None
            ==> spec_header_get(hs.push(h), other) == Some(h.value@),
        lower_seq(other) != lower_seq(h.name@) ==> spec_header_get(hs.push(h), other)
            == spec_header_get(hs, other),
    decreases hs.len(),
{
    if hs.len() == 0 {
        assert(hs.push(h)[0] == h);
        assert(hs.push(h).subrange(1, hs.push(h).len() as int) =~= Seq::<Header>::empty());
        if lower_seq(other) != lower_seq(h.name@) {
            assert(!header_matches(h, other));
            assert(spec_header_get(hs.push(h), other) == spec_header_get(
                Seq::<Header>::empty(),
                other,
            ));
            assert(spec_header_get(hs, other) is None);
        }
    } else {
        let tail = hs.subrange(1, hs.len() as int);
        assert(hs.push(h)[0] == hs[0]);
        assert(hs.push(h).subrange(1, hs.push(h).len() as int) =~= tail.push(h));
        lemma_get_of_push(tail, h, other);
        if header_matches(hs[0], other) {
            assert(spec_header_get(hs.push(h), other) == Some(hs[0].value@));
            assert(spec_header_get(hs, other) == Some(hs[0].value@));
        } else {
            assert(spec_header_get(hs.push(h), other) == spec_header_get(tail.push(h), other));
            assert(spec_header_get(hs, other) == spec_header_get(tail, other));
        }
    }
}

/// Replaces every header named `name` (ASCII case-insensitively) with the
/// single pair `name: value`, appended at the end. Headers under other names
/// keep their values.
pub fn headers_set(hs: &Vec<Header>, name: &str, value: &str) -> (r: Vec<Header>)
    ensures
        spec_header_get(r@, name@) == Some(value@),
        forall|other: Seq<char>|
            lower_seq(other) != lower_seq(name@) ==> #[trigger] spec_header_get(r@, other)
                == spec_header_get(hs@, other),
{
    let mut out = headers_remove(hs, name);
    let h = Header { name: name.to_owned(), value: value.to_owned() };
    let ghost removed = out@;
    let ghost hg = h;
    out.push(h);
    proof {
        lemma_headers_remove_get(hs@, name@, name@);
        lemma_get_of_push(removed, hg, name@);
        assert forall|other: Seq<char>| lower_seq(other) != lower_seq(name@) implies #[trigger]
            spec_header_get(out@, other) == spec_header_get(hs@, other) by {
            lemma_get_of_push(removed, hg, other);
            lemma_headers_remove_get(hs@, name@, other);
        }
    }
    out
}

/// Copies a header list.
pub fn headers_clone(hs: &Vec<Header>) -> (r: Vec<Header>)
    ensures
        r@ == hs@,
{
    let mut out: Vec<Header> = Vec::new();
    let mut i: usize = 0;
    while i < hs.len()
        invariant
            i <= hs@.len(),
            out@ =~= hs@.subrange(0, i as int),
        decreases hs@.len() - i,
    {
        out.push(Header { name: hs[i].name.clone(), value: hs[i].value.clone() });
        proof {
            assert(out@ =~= hs@.subrange(0, i + 1));
        }
        i += 1;
    }
    proof {
        assert(hs@.subrange(0, hs@.len() as int) =~= hs@);
    }
    out
}

/// The value of the cookie named exactly `name`, if any.
pub open spec fn spec_cookie_get(jar: Seq<Cookie>, name: Seq<char>) -> Option<Seq<char>>
    decreases jar.len(),
{
    if jar.len() == 0 {
        None
    } else if jar[0].name@ == name {
        Some(jar[0].value@)
    } else {
        spec_cookie_get(jar.subrange(1, jar.len() as int), name)
    }
}

/// Looks up the first cookie named exactly `name` and returns a copy of its
/// value.
pub fn cookie_get(jar: &Vec<Cookie>, name: &str) -> (r: Option<String>)
    ensures
        match r {
            Some(v) => spec_cookie_get(jar@, name@) == Some(v@),
            None => spec_cookie_get(jar@, name@) is None,
        },
{
    let mut i: usize = 0;
    proof {
        assert(jar@.subrange(0, jar@.len() as int) =~= jar@);
    }
    while i < jar.len()
        invariant
            i <= jar@.len(),
            spec_cookie_get(jar@, name@) == spec_cookie_get(
                jar@.subrange(i as int, jar@.len() as int),
                name@,
            ),
        decreases jar@.len() - i,
    {
        proof {
            let tail = jar@.subrange(i as int, jar@.len() as int);
            assert(tail.subrange(1, tail.len() as int) =~= jar@.subrange(
                i + 1,
                jar@.len() as int,
            ));
        }
        if str_eq(jar[i].name.as_str(), name) {
            let v = jar[i].value.clone();
            return Some(v);
        }
        i += 1;
    }
    proof {
        assert(jar@.subrange(jar@.len() as int, jar@.len() as int) =~= Seq::<Cookie>::empty());
    }
    None
}

/// One `name=value` pair of a `Cookie` header segment: the segment is
/// trimmed of blanks and cut at its first `=`; a segment without `=` is all
/// name and no value.
pub open spec fn spec_cookie_pair(seg: Seq<char>) -> (Seq<char>, Seq<char>) {
    let t = crate::text::spec_trim(seg);
    let e = crate::text::spec_find(t, '=');
    if e == -1 {
        (t, Seq::empty())
    } else {
        (t.subrange(0, e), t.subrange(e + 1, t.len() as int))
    }
}

/// Parses a `Cookie` request header into its cookies: one per `;`-separated
/// segment, each trimmed and cut at its first `=`.
pub fn parse_cookie_header(value: &str) -> (r: Vec<Cookie>)
    ensures
        r@.len() == crate::text::spec_split_sep(value@, ';').len(),
        forall|i: int|
            0 <= i < r@.len() ==> ((#[trigger] r@[i]).name@, r@[i].value@) == spec_cookie_pair(
                crate::text::spec_split_sep(value@, ';')[i],
            ),
{
    let segs = crate::text::split_on(value, ';');
    let mut out: Vec<Cookie> = Vec::new();
    let mut i: usize = 0;
    while i < segs.len()
        invariant
            segs@.map_values(|x: String| x@) == crate::text::spec_split_sep(value@, ';'),
            i <= segs@.len(),
            out@.len() == i,
            forall|k: int|
                0 <= k < i ==> ((#[trigger] out@[k]).name@, out@[k].value@) == spec_cookie_pair(
                    crate::text::spec_split_sep(value@, ';')[k],
                ),
        decreases segs@.len() - i,
    {
        let t = crate::text::trim_str(segs[i].as_str());
        let tn = t.as_str().unicode_len();
        let ck = match crate::text::find_char(t.as_str(), '=') {
            Some(e) => {
                proof {
                    crate::text::lemma_find_range(t@, '=');
                }
                let name = t.as_str().substring_char(0, e);
                let val = t.as_str().substring_char(e + 1, tn);
                Cookie { name: name.to_owned(), value: val.to_owned() }
            },
            None => {
                Cookie { name: t, value: String::new() }
            },
        };
        proof {
            assert(segs@.map_values(|x: String| x@)[i as int] == segs@[i as int]@);
        }
        out.push(ck);
        i += 1;
    }
    out
}

} // verus!
