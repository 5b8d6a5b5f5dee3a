//! The cookie codec for auth token bundles. Long token values are split over
//! numbered cookies (`NAME-1`, `NAME-2`, ...) and reunited, in order, on
//! read; short values travel in one plain cookie.

use vstd::prelude::*;

use crate::http::{Cookie, SetCookie, cookie_get, spec_cookie_get};
use crate::text::{dec_u64, lemma_dec_injective, lemma_dec_len, spec_dec};

verus! {

/// The cookie carrying (or prefixing the numbered parts of) the access token.
pub open spec fn access_name() -> Seq<char> {
    "LBRP-Access"@
}

/// The cookie carrying the refresh token.
pub open spec fn refresh_name() -> Seq<char> {
    "LBRP-Refresh"@
}

/// The cookie carrying (or prefixing the numbered parts of) the client token.
pub open spec fn client_name() -> Seq<char> {
    "LBRP-Client"@
}

/// A token bundle: access and refresh tokens, and the optional client token
/// used by client-based authorization.
pub struct TokenTriple {
    pub access: String,
    pub refresh: String,
    pub cba: Option<String>,
}

/// A cookie list reduced to name/value character sequences.
pub open spec fn jar_view(jar: Seq<Cookie>) -> Seq<(Seq<char>, Seq<char>)> {
    jar.map_values(|c: Cookie| (c.name@, c.value@))
}

/// The value of the first pair named `name`, if any.
pub open spec fn spec_pair_get(jar: Seq<(Seq<char>, Seq<char>)>, name: Seq<char>) -> Option<
    Seq<char>,
>
    decreases jar.len(),
{
    if jar.len() == 0 {
        None
    } else if jar[0].0 == name {
        Some(jar[0].1)
    } else {
        spec_pair_get(jar.subrange(1, jar.len() as int), name)
    }
}

/// The name of the `i`-th numbered cookie under `prefix`.
pub open spec fn spec_numbered_name(prefix: Seq<char>, i: int) -> Seq<char> {
    prefix + seq!['-'] + spec_dec(i)
}

/// The values of the numbered cookies `prefix-i`, `prefix-(i+1)`, ... up to
/// the first missing one, reading at most `fuel` of them. A jar of `n`
/// cookies holds at most `n` numbered cookies, so a fuel of `n` reads every
/// one a jar can hold.
pub open spec fn spec_numbered_values(
    jar: Seq<(Seq<char>, Seq<char>)>,
    prefix: Seq<char>,
    i: int,
    fuel: int,
) -> Seq<Seq<char>>
    decreases fuel,
{
    if fuel <= 0 {
        Seq::empty()
    } else {
        match spec_pair_get(jar, spec_numbered_name(prefix, i)) {
            Some(v) => seq![v] + spec_numbered_values(jar, prefix, i + 1, fuel - 1),
            None => Seq::empty(),
        }
    }
}

/// The concatenation of a sequence of character sequences, in order.
pub open spec fn spec_concat(parts: Seq<Seq<char>>) -> Seq<char>
    decreases parts.len(),
{
    if parts.len() == 0 {
        Seq::empty()
    } else {
        parts[0] + spec_concat(parts.subrange(1, parts.len() as int))
    }
}

/// `s` cut into pieces of `c` characters; the last piece holds the remainder.
/// An empty `s` yields no pieces.
pub open spec fn spec_chunks(s: Seq<char>, c: int) -> Seq<Seq<char>>
    decreases s.len(),
{
    if c <= 0 || s.len() == 0 {
        Seq::empty()
    } else if s.len() <= c {
        seq![s]
    } else {
        seq![s.subrange(0, c)] + spec_chunks(s.subrange(c, s.len() as int), c)
    }
}

/// Joining the pieces of a value gives the value back.
pub proof fn lemma_concat_chunks(s: Seq<char>, c: int)
    requires
        c > 0,
    ensures
        spec_concat(spec_chunks(s, c)) == s,
    decreases s.len(),
{
    if s.len() == 0 {
        assert(spec_concat(spec_chunks(s, c)) =~= s);
    } else if s.len() <= c {
        assert(spec_chunks(s, c) == seq![s]);
        assert(spec_chunks(s, c).subrange(1, 1) =~= Seq::<Seq<char>>::empty());
        assert(spec_concat(Seq::<Seq<char>>::empty()) =~= Seq::<char>::empty());
        assert(spec_concat(spec_chunks(s, c)) == s + Seq::<char>::empty());
        assert(s + Seq::<char>::empty() =~= s);
    } else {
        let rest = s.subrange(c, s.len() as int);
        lemma_concat_chunks(rest, c);
        let parts = spec_chunks(s, c);
        assert(parts.subrange(1, parts.len() as int) =~= spec_chunks(rest, c));
        assert(spec_concat(parts) =~= s.subrange(0, c) + spec_concat(spec_chunks(rest, c)));
        assert(s.subrange(0, c) + rest =~= s);
    }
}

/// Cuts a token value into pieces of at most `chunk` characters.
pub fn split_token(value: &str, chunk: usize) -> (r: Vec<String>)
    requires
        chunk > 0,
    ensures
        r@.map_values(|x: String| x@) == spec_chunks(value@, chunk as int),
{
    let n = value.unicode_len();
    let mut out: Vec<String> = Vec::new();
    let mut i: usize = 0;
    proof {
        assert(value@.subrange(0, n as int) =~= value@);
    }
    while i < n
        invariant
            n == value@.len(),
            i <= n,
            chunk > 0,
            spec_chunks(value@, chunk as int) =~= out@.map_values(|x: String| x@) + spec_chunks(
                value@.subrange(i as int, n as int),
                chunk as int,
            ),
        decreases n - i,
    {
        let ghost tail = value@.subrange(i as int, n as int);
        let ghost out0 = out@;
        let end: usize = if n - i <= chunk {
            n
        } else {
            i + chunk
        };
        let piece = value.substring_char(i, end);
        proof {
            if tail.len() <= chunk as int {
                assert(piece@ =~= tail);
                assert(spec_chunks(tail, chunk as int) == seq![tail]);
            } else {
                assert(piece@ =~= tail.subrange(0, chunk as int));
                assert(tail.subrange(chunk as int, tail.len() as int) =~= value@.subrange(
                    i + chunk,
                    n as int,
                ));
                assert(spec_chunks(tail, chunk as int) == seq![tail.subrange(0, chunk as int)]
                    + spec_chunks(value@.subrange(i + chunk, n as int), chunk as int));
            }
        }
        out.push(piece.to_owned());
        proof {
            assert(out@.map_values(|x: String| x@) =~= out0.map_values(|x: String| x@)
                + seq![piece@]);
            if tail.len() <= chunk as int {
                assert(value@.subrange(n as int, n as int) =~= Seq::<char>::empty());
            }
        }
        i = end;
    }
    proof {
        assert(value@.subrange(n as int, n as int) =~= Seq::<char>::empty());
        assert(out@.map_values(|x: String| x@) + Seq::<Seq<char>>::empty() =~= out@.map_values(
            |x: String| x@,
        ));
        assert(out@.map_values(|x: String| x@) =~= spec_chunks(value@, chunk as int));
    }
    out
}

/// Joins token pieces back into one value, in order.
pub fn unite_token(parts: &Vec<String>) -> (r: String)
    ensures
        r@ == spec_concat(parts@.map_values(|x: String| x@)),
{
    let mut out = String::new();
    let mut i: usize = 0;
    proof {
        assert(parts@.map_values(|x: String| x@).subrange(
            0,
            parts@.len() as int,
        ) =~= parts@.map_values(|x: String| x@));
    }
    while i < parts.len()
        invariant
            i <= parts@.len(),
            spec_concat(parts@.map_values(|x: String| x@)) == out@ + spec_concat(
                parts@.map_values(|x: String| x@).subrange(i as int, parts@.len() as int),
            ),
        decreases parts@.len() - i,
    {
        let ghost all = parts@.map_values(|x: String| x@);
        let ghost tail = all.subrange(i as int, parts@.len() as int);
        proof {
            assert(tail[0] == parts@[i as int]@);
            assert(tail.subrange(1, tail.len() as int) =~= all.subrange(
                i + 1,
                parts@.len() as int,
            ));
        }
        out.append(parts[i].as_str());
        i += 1;
    }
    proof {
        let all = parts@.map_values(|x: String| x@);
        assert(all.subrange(parts@.len() as int, parts@.len() as int) =~= Seq::<Seq<char>>::empty());
        assert(out@ + Seq::<char>::empty() =~= out@);
    }
    out
}

/// Builds the name of the `i`-th numbered cookie under `prefix`.
pub fn numbered_name(prefix: &str, i: u64) -> (r: String)
    ensures
        r@ == spec_numbered_name(prefix@, i as int),
{
    let mut out = prefix.to_owned();
    proof {
        reveal_strlit("-");
    }
    out.append("-");
    let digits = dec_u64(i);
    out.append(digits.as_str());
    proof {
        assert("-"@ =~= seq!['-']);
    }
    out
}

/// What reading a token under `prefix` from `jar` yields: the plain cookie's
/// value where one is present, else the numbered cookies' values joined in
/// order. A jar of `n` cookies holds at most `n` numbered cookies, so a fuel
/// of `n` reads every one it can hold.
pub open spec fn spec_collect(jar: Seq<(Seq<char>, Seq<char>)>, prefix: Seq<char>) -> Seq<char> {
    match spec_pair_get(jar, prefix) {
        Some(v) => v,
        None => spec_concat(spec_numbered_values(jar, prefix, 1, jar.len() as int)),
    }
}

/// The lookups over a cookie list and over its name/value view agree.
pub proof fn lemma_cookie_get_view(jar: Seq<Cookie>, name: Seq<char>)
    ensures
        spec_cookie_get(jar, name) == spec_pair_get(jar_view(jar), name),
    decreases jar.len(),
{
    if jar.len() > 0 {
        let tail = jar.subrange(1, jar.len() as int);
        assert(jar_view(jar).subrange(1, jar_view(jar).len() as int) =~= jar_view(tail));
        lemma_cookie_get_view(tail, name);
    }
}

/// Reads the token stored under `prefix`: the plain cookie where present,
/// else the numbered cookies `prefix-1`, `prefix-2`, ... joined in order.
pub fn collect_cookies(jar: &Vec<Cookie>, prefix: &str) -> (r: String)
    ensures
        r@ == spec_collect(jar_view(jar@), prefix@),
{
    proof {
        lemma_cookie_get_view(jar@, prefix@);
    }
    if let Some(v) = cookie_get(jar, prefix) {
        return v;
    }
    let ghost jarv = jar_view(jar@);
    let n = jar.len();
    let mut out = String::new();
    let mut k: usize = 0;
    while k < n
        invariant
            n == jar@.len(),
            jarv == jar_view(jar@),
            k <= n,
            spec_concat(spec_numbered_values(jarv, prefix@, 1, n as int)) == out@ + spec_concat(
                spec_numbered_values(jarv, prefix@, k + 1, n - k),
            ),
        ensures
            out@ == spec_concat(spec_numbered_values(jarv, prefix@, 1, n as int)),
        decreases n - k,
    {
        let name = numbered_name(prefix, (k + 1) as u64);
        proof {
            lemma_cookie_get_view(jar@, name@);
        }
        match cookie_get(jar, name.as_str()) {
            Some(v) => {
                proof {
                    let vals = spec_numbered_values(jarv, prefix@, k + 1, n - k);
                    assert(vals == seq![v@] + spec_numbered_values(jarv, prefix@, k + 2, n - k
                        - 1));
                    assert(vals.subrange(1, vals.len() as int) =~= spec_numbered_values(
                        jarv,
                        prefix@,
                        k + 2,
                        n - k - 1,
                    ));
                    assert(vals[0] == v@);
                }
                out.append(v.as_str());
                k += 1;
            },
            None => {
                proof {
                    assert(spec_numbered_values(jarv, prefix@, k + 1, n - k)
                        =~= Seq::<Seq<char>>::empty());
                    assert(out@ + Seq::<char>::empty() =~= out@);
                }
                break ;
            },
        }
    }
    proof {
        if k == n {
            assert(spec_numbered_values(jarv, prefix@, k + 1, 0) =~= Seq::<Seq<char>>::empty());
        }
    }
    out
}

/// A `Set-Cookie` list reduced to name/value character sequences.
pub open spec fn set_view(scs: Seq<SetCookie>) -> Seq<(Seq<char>, Seq<char>)> {
    scs.map_values(|c: SetCookie| (c.name@, c.value@))
}

/// The name/value pairs that deploying one token value produces: one plain
/// pair where the value fits the chunk size, else one numbered pair per
/// piece.
pub open spec fn spec_deploy_value(prefix: Seq<char>, value: Seq<char>, c: int) -> Seq<
    (Seq<char>, Seq<char>),
> {
    if value.len() <= c {
        seq![(prefix, value)]
    } else {
        Seq::new(
            spec_chunks(value, c).len(),
            |i: int| (spec_numbered_name(prefix, i + 1), spec_chunks(value, c)[i]),
        )
    }
}

/// The name/value pairs that deploying a whole triple produces.
pub open spec fn spec_deploy_triple(
    access: Seq<char>,
    refresh: Seq<char>,
    cba: Option<Seq<char>>,
    c: int,
) -> Seq<(Seq<char>, Seq<char>)> {
    spec_deploy_value(access_name(), access, c) + seq![(refresh_name(), refresh)] + match cba {
        Some(v) => spec_deploy_value(client_name(), v, c),
        None => Seq::empty(),
    }
}

/// All cookies the gateway sets are `Secure`, `HttpOnly` and scoped to `/`.
pub open spec fn cookie_attrs_ok(scs: Seq<SetCookie>) -> bool {
    forall|i: int|
        0 <= i < scs.len() ==> (#[trigger] scs[i]).secure && scs[i].http_only && scs[i].path@
            == "/"@
}

/// Builds one gateway cookie: `Secure`, `HttpOnly`, `Path=/`.
fn make_set_cookie(name: String, value: String) -> (r: SetCookie)
    ensures
        r.name == name,
        r.value == value,
        r.secure,
        r.http_only,
        r.path@ == "/"@,
{
    SetCookie { name, value, secure: true, http_only: true, path: "/".to_owned() }
}

/// Deploys one token value under `prefix`: a plain cookie where it fits the
/// chunk size, else numbered cookies holding the pieces in order.
pub fn deploy_value(prefix: &str, value: &str, chunk: usize) -> (r: Vec<SetCookie>)
    requires
        chunk > 0,
    ensures
        set_view(r@) == spec_deploy_value(prefix@, value@, chunk as int),
        cookie_attrs_ok(r@),
{
    let mut out: Vec<SetCookie> = Vec::new();
    if value.unicode_len() <= chunk {
        out.push(make_set_cookie(prefix.to_owned(), value.to_owned()));
        proof {
            assert(set_view(out@) =~= spec_deploy_value(prefix@, value@, chunk as int));
        }
        return out;
    }
    let parts = split_token(value, chunk);
    let ghost chs = spec_chunks(value@, chunk as int);
    let n = parts.len();
    let mut i: usize = 0;
    while i < n
        invariant
            n == parts@.len(),
            parts@.map_values(|x: String| x@) == chs,
            i <= n,
            out@.len() == i,
            set_view(out@) =~= Seq::new(
                i as nat,
                |t: int| (spec_numbered_name(prefix@, t + 1), chs[t]),
            ),
            cookie_attrs_ok(out@),
        decreases n - i,
    {
        let name = numbered_name(prefix, (i + 1) as u64);
        let piece = parts[i].clone();
        let ck = make_set_cookie(name, piece);
        let ghost out0 = out@;
        let ghost ckg = ck;
        out.push(ck);
        proof {
            assert(ckg.name@ == spec_numbered_name(prefix@, i + 1));
            assert(ckg.value@ == chs[i as int]);
            assert(out@ == out0.push(ckg));
            assert(set_view(out@) =~= set_view(out0).push((ckg.name@, ckg.value@)));
        }
        i += 1;
        proof {
            assert(set_view(out@) =~= Seq::new(
                i as nat,
                |t: int| (spec_numbered_name(prefix@, t + 1), chs[t]),
            ));
        }
    }
    proof {
        assert(set_view(out@) =~= spec_deploy_value(prefix@, value@, chunk as int));
    }
    out
}

/// Writes a token triple into cookies: access and client tokens chunked
/// where long, the refresh token plain; every cookie `Secure`, `HttpOnly`,
/// `Path=/`.
pub fn deploy_triple_to_cookies(triple: &TokenTriple, chunk: usize) -> (r: Vec<SetCookie>)
    requires
        chunk > 0,
    ensures
        set_view(r@) == spec_deploy_triple(
            triple.access@,
            triple.refresh@,
            match triple.cba {
                Some(ref v) => Some(v@),
                None => None,
            },
            chunk as int,
        ),
        cookie_attrs_ok(r@),
{
    let mut out = deploy_value("LBRP-Access", triple.access.as_str(), chunk);
    let ghost acc_part = out@;
    out.push(make_set_cookie("LBRP-Refresh".to_owned(), triple.refresh.clone()));
    if let Some(cba) = &triple.cba {
        let mut tail = deploy_value("LBRP-Client", cba.as_str(), chunk);
        let ghost mid_part = out@;
        let ghost tail_part = tail@;
        out.append(&mut tail);
        proof {
            assert(out@ == mid_part + tail_part);
            assert(set_view(out@) =~= set_view(mid_part) + set_view(tail_part));
            assert(set_view(mid_part) =~= set_view(acc_part) + seq![
                (refresh_name(), triple.refresh@),
            ]);
            assert(set_view(out@) =~= spec_deploy_triple(
                triple.access@,
                triple.refresh@,
                Some(cba@),
                chunk as int,
            ));
        }
    } else {
        proof {
            assert(set_view(out@) =~= set_view(acc_part) + seq![
                (refresh_name(), triple.refresh@),
            ]);
            assert(set_view(acc_part) + seq![(refresh_name(), triple.refresh@)]
                =~= spec_deploy_triple(
                triple.access@,
                triple.refresh@,
                None,
                chunk as int,
            ));
        }
    }
    out
}

/// Reads the token triple out of the request cookies: the access token
/// reunited from its cookies, the refresh token from its plain cookie, the
/// client token where its cookies hold one. `None` where the access token is
/// absent or empty, or the refresh cookie is missing.
pub fn try_collect_from_cookies(jar: &Vec<Cookie>) -> (r: Option<TokenTriple>)
    ensures
        r is None <==> (spec_collect(jar_view(jar@), access_name()).len() == 0 || spec_pair_get(
            jar_view(jar@),
            refresh_name(),
        ) is None),
        match r {
            Some(t) => {
                &&& t.access@ == spec_collect(jar_view(jar@), access_name())
                &&& Some(t.refresh@) == spec_pair_get(jar_view(jar@), refresh_name())
                &&& match t.cba {
                    Some(v) => v@ == spec_collect(jar_view(jar@), client_name()) && v@.len() > 0,
                    None => spec_collect(jar_view(jar@), client_name()).len() == 0,
                }
            },
            None => true,
        },
{
    let access = collect_cookies(jar, "LBRP-Access");
    if access.as_str().is_empty() {
        return None;
    }
    proof {
        lemma_cookie_get_view(jar@, "LBRP-Refresh"@);
    }
    let refresh = match cookie_get(jar, "LBRP-Refresh") {
        Some(v) => v,
        None => {
            return None;
        },
    };
    let cba = collect_cookies(jar, "LBRP-Client");
    let cba = if cba.as_str().is_empty() {
        None
    } else {
        Some(cba)
    };
    Some(TokenTriple { access, refresh, cba })
}

/// Lookup distributes over list concatenation: the left part answers first.
pub proof fn lemma_pair_get_append(
    j1: Seq<(Seq<char>, Seq<char>)>,
    j2: Seq<(Seq<char>, Seq<char>)>,
    name: Seq<char>,
)
    ensures
        spec_pair_get(j1 + j2, name) == match spec_pair_get(j1, name) {
            Some(v) => Some(v),
            None => spec_pair_get(j2, name),
        },
    decreases j1.len(),
{
    if j1.len() == 0 {
        assert(j1 + j2 =~= j2);
    } else {
        let tail = j1.subrange(1, j1.len() as int);
        assert((j1 + j2).subrange(1, (j1 + j2).len() as int) =~= tail + j2);
        assert((j1 + j2)[0] == j1[0]);
        lemma_pair_get_append(tail, j2, name);
    }
}

/// A list none of whose names is `name` answers `None`.
pub proof fn lemma_pair_get_none(j: Seq<(Seq<char>, Seq<char>)>, name: Seq<char>)
    requires
        forall|t: int| 0 <= t < j.len() ==> (#[trigger] j[t]).0 != name,
    ensures
        spec_pair_get(j, name) is None,
    decreases j.len(),
{
    if j.len() > 0 {
        let tail = j.subrange(1, j.len() as int);
        lemma_pair_get_none(tail, name);
    }
}

/// The shape of a numbered cookie name: the prefix, a dash, the digits.
pub proof fn lemma_numbered_name_shape(p: Seq<char>, i: int)
    requires
        i >= 0,
    ensures
        spec_numbered_name(p, i).len() >= p.len() + 2,
        spec_numbered_name(p, i).subrange(0, p.len() as int) == p,
        spec_numbered_name(p, i).subrange(
            p.len() + 1 as int,
            spec_numbered_name(p, i).len() as int,
        ) == spec_dec(i),
        forall|k: int| 0 <= k < p.len() ==> #[trigger] spec_numbered_name(p, i)[k] == p[k],
{
    lemma_dec_len(i);
    let nm = spec_numbered_name(p, i);
    assert(nm.subrange(0, p.len() as int) =~= p);
    assert(nm.subrange(p.len() + 1 as int, nm.len() as int) =~= spec_dec(i));
}

/// Distinct indices give distinct numbered names under one prefix.
pub proof fn lemma_numbered_name_injective(p: Seq<char>, i: int, j: int)
    requires
        i >= 0,
        j >= 0,
        i != j,
    ensures
        spec_numbered_name(p, i) != spec_numbered_name(p, j),
{
    lemma_numbered_name_shape(p, i);
    lemma_numbered_name_shape(p, j);
    lemma_dec_injective(i, j);
    if spec_numbered_name(p, i) == spec_numbered_name(p, j) {
        assert(spec_dec(i) == spec_dec(j));
    }
}

/// The numbered section of a deployed value: names `p-base`, `p-(base+1)`,
/// ... carrying `vals` in order.
pub open spec fn spec_numbered_section(p: Seq<char>, vals: Seq<Seq<char>>, base: int) -> Seq<
    (Seq<char>, Seq<char>),
> {
    Seq::new(vals.len(), |t: int| (spec_numbered_name(p, base + t), vals[t]))
}

/// Looking a numbered name up in its own section finds exactly its value;
/// indices outside the section find nothing.
pub proof fn lemma_get_in_section(p: Seq<char>, vals: Seq<Seq<char>>, base: int, i: int)
    requires
        base >= 1,
        i >= 1,
    ensures
        base <= i < base + vals.len() ==> spec_pair_get(
            spec_numbered_section(p, vals, base),
            spec_numbered_name(p, i),
        ) == Some(vals[i - base]),
        !(base <= i < base + vals.len()) ==> spec_pair_get(
            spec_numbered_section(p, vals, base),
            spec_numbered_name(p, i),
        ) is None,
    decreases vals.len(),
{
    let sec = spec_numbered_section(p, vals, base);
    if vals.len() == 0 {
    } else {
        assert(sec[0] == (spec_numbered_name(p, base), vals[0]));
        let tailvals = vals.subrange(1, vals.len() as int);
        assert(sec.subrange(1, sec.len() as int) =~= spec_numbered_section(p, tailvals, base + 1));
        if i == base {
            assert(spec_pair_get(sec, spec_numbered_name(p, i)) == Some(vals[0]));
        } else {
            lemma_numbered_name_injective(p, i, base);
            lemma_get_in_section(p, tailvals, base + 1, i);
        }
    }
}

/// Where the lookups for `p-1` ... `p-k` each find the matching value and
/// `p-(k+1)` finds none, reading the numbered cookies from `i` onward with
/// enough fuel yields exactly the values from `i` onward.
pub proof fn lemma_numbered_values_complete(
    j: Seq<(Seq<char>, Seq<char>)>,
    p: Seq<char>,
    vals: Seq<Seq<char>>,
    i: int,
    fuel: int,
)
    requires
        1 <= i <= vals.len() + 1,
        fuel >= vals.len() + 2 - i,
        forall|q: int|
            1 <= q <= vals.len() ==> spec_pair_get(j, #[trigger] spec_numbered_name(p, q))
                == Some(vals[q - 1]),
        spec_pair_get(j, spec_numbered_name(p, vals.len() + 1 as int)) is None,
    ensures
        spec_numbered_values(j, p, i, fuel) == vals.subrange(i - 1, vals.len() as int),
    decreases fuel,
{
    if i == vals.len() + 1 {
        assert(spec_numbered_values(j, p, i, fuel) =~= vals.subrange(i - 1, vals.len() as int));
    } else {
        assert(spec_pair_get(j, spec_numbered_name(p, i)) == Some(vals[i - 1]));
        lemma_numbered_values_complete(j, p, vals, i + 1, fuel - 1);
        assert(spec_numbered_values(j, p, i, fuel) == seq![vals[i - 1]] + vals.subrange(
            i,
            vals.len() as int,
        ));
        assert(seq![vals[i - 1]] + vals.subrange(i, vals.len() as int) =~= vals.subrange(
            i - 1,
            vals.len() as int,
        ));
    }
}

/// The deployed pairs of one value, seen as a numbered section where the
/// value was chunked.
pub proof fn lemma_deploy_value_section(prefix: Seq<char>, value: Seq<char>, c: int)
    requires
        c > 0,
        value.len() > c,
    ensures
        spec_deploy_value(prefix, value, c) == spec_numbered_section(
            prefix,
            spec_chunks(value, c),
            1,
        ),
{
    assert(spec_deploy_value(prefix, value, c) =~= spec_numbered_section(
        prefix,
        spec_chunks(value, c),
        1,
    ));
}

/// Reading one deployed value back out of a jar that holds its pairs and
/// otherwise no pair whose name starts with the prefix.
proof fn lemma_collect_deployed(
    j: Seq<(Seq<char>, Seq<char>)>,
    before: Seq<(Seq<char>, Seq<char>)>,
    after: Seq<(Seq<char>, Seq<char>)>,
    prefix: Seq<char>,
    value: Seq<char>,
    c: int,
)
    requires
        c > 0,
        value.len() > 0,
        j == before + spec_deploy_value(prefix, value, c) + after,
        forall|t: int| 0 <= t < before.len() ==> (#[trigger] before[t]).0 != prefix,
        forall|t: int| 0 <= t < after.len() ==> (#[trigger] after[t]).0 != prefix,
        forall|t: int, q: int|
            0 <= t < before.len() && q >= 1 ==> (#[trigger] before[t]).0
                != #[trigger] spec_numbered_name(prefix, q),
        forall|t: int, q: int|
            0 <= t < after.len() && q >= 1 ==> (#[trigger] after[t]).0
                != #[trigger] spec_numbered_name(prefix, q),
        j.len() >= spec_chunks(value, c).len() + 1,
    ensures
        spec_collect(j, prefix) == value,
{
    let dv = spec_deploy_value(prefix, value, c);
    if value.len() <= c {
        // one plain pair: the lookup walks past `before` and finds it
        lemma_pair_get_none(before, prefix);
        lemma_pair_get_append(before, dv + after, prefix);
        assert(j =~= before + (dv + after));
        assert((dv + after)[0] == (prefix, value));
        assert(spec_pair_get(dv + after, prefix) == Some(value));
        assert(spec_collect(j, prefix) == value);
    } else {
        let chunks = spec_chunks(value, c);
        lemma_deploy_value_section(prefix, value, c);
        let sec = spec_numbered_section(prefix, chunks, 1);
        assert(j =~= before + (sec + after));
        // the plain name is absent: numbered names are strictly longer
        assert forall|t: int| 0 <= t < sec.len() implies (#[trigger] sec[t]).0 != prefix by {
            lemma_numbered_name_shape(prefix, 1 + t);
        }
        lemma_pair_get_none(before, prefix);
        lemma_pair_get_none(sec, prefix);
        lemma_pair_get_none(after, prefix);
        lemma_pair_get_append(sec, after, prefix);
        lemma_pair_get_append(before, sec + after, prefix);
        assert(spec_pair_get(j, prefix) is None);
        // each numbered lookup resolves inside the section
        assert forall|q: int| 1 <= q <= chunks.len() implies spec_pair_get(
            j,
            #[trigger] spec_numbered_name(prefix, q),
        ) == Some(chunks[q - 1]) by {
            lemma_pair_get_none(before, spec_numbered_name(prefix, q));
            lemma_get_in_section(prefix, chunks, 1, q);
            lemma_pair_get_append(sec, after, spec_numbered_name(prefix, q));
            lemma_pair_get_append(before, sec + after, spec_numbered_name(prefix, q));
        }
        let next = spec_numbered_name(prefix, chunks.len() + 1 as int);
        lemma_pair_get_none(before, next);
        lemma_get_in_section(prefix, chunks, 1, chunks.len() + 1 as int);
        lemma_pair_get_none(after, next);
        lemma_pair_get_append(sec, after, next);
        lemma_pair_get_append(before, sec + after, next);
        assert(spec_pair_get(j, next) is None);
        lemma_numbered_values_complete(j, prefix, chunks, 1, j.len() as int);
        assert(chunks.subrange(0, chunks.len() as int) =~= chunks);
        lemma_concat_chunks(value, c);
    }
}

/// Round trip: reading the cookies a deployed token triple produced yields
/// the triple back — the plain refresh cookie, and the access and client
/// tokens reunited from their pieces in order — for access and client
/// values of any length.
pub proof fn lemma_cookie_round_trip(
    access: Seq<char>,
    refresh: Seq<char>,
    cba: Option<Seq<char>>,
    c: int,
    j: Seq<(Seq<char>, Seq<char>)>,
)
    requires
        c > 0,
        access.len() > 0,
        match cba {
            Some(v) => v.len() > 0,
            None => true,
        },
        j == spec_deploy_triple(access, refresh, cba, c),
    ensures
        spec_collect(j, access_name()) == access,
        spec_pair_get(j, refresh_name()) == Some(refresh),
        match cba {
            Some(v) => spec_collect(j, client_name()) == v,
            None => spec_collect(j, client_name()).len() == 0,
        },
{
    reveal_strlit("LBRP-Access");
    reveal_strlit("LBRP-Refresh");
    reveal_strlit("LBRP-Client");
    let an = access_name();
    let rn = refresh_name();
    let cn = client_name();
    let da = spec_deploy_value(an, access, c);
    let dr: Seq<(Seq<char>, Seq<char>)> = seq![(rn, refresh)];
    let dc: Seq<(Seq<char>, Seq<char>)> = match cba {
        Some(v) => spec_deploy_value(cn, v, c),
        None => Seq::empty(),
    };
    // every name in a deployed-value list is the prefix or a numbered name
    assert forall|t: int| 0 <= t < da.len() implies (#[trigger] da[t]).0 == an || exists|q: int|
        q >= 1 && da[t].0 == spec_numbered_name(an, q) by {
        if access.len() > c {
            lemma_deploy_value_section(an, access, c);
            assert(1 + t >= 1 && da[t].0 == spec_numbered_name(an, 1 + t));
        }
    }
    assert forall|t: int| 0 <= t < dc.len() implies (#[trigger] dc[t]).0 == cn || exists|q: int|
        q >= 1 && dc[t].0 == spec_numbered_name(cn, q) by {
        match cba {
            Some(v) => {
                if v.len() > c {
                    lemma_deploy_value_section(cn, v, c);
                    assert(1 + t >= 1 && dc[t].0 == spec_numbered_name(cn, 1 + t));
                }
            },
            None => {},
        }
    }
    // the three prefixes and their numbered names are pairwise distinct:
    // numbered names are longer than any of the three prefixes plus one,
    // and keep their prefix's characters, which differ at index 5
    assert(an.len() == 11 && rn.len() == 12 && cn.len() == 11);
    assert(an[5] == 'A' && rn[5] == 'R' && cn[5] == 'C');
    assert(an != rn && an != cn && rn != cn);
    assert forall|q: int| q >= 1 implies #[trigger] spec_numbered_name(an, q) != an
        && spec_numbered_name(an, q) != rn && spec_numbered_name(an, q) != cn
        && spec_numbered_name(cn, q) != an && spec_numbered_name(cn, q) != rn
        && spec_numbered_name(cn, q) != cn by {
        lemma_numbered_name_shape(an, q);
        lemma_numbered_name_shape(cn, q);
        assert(spec_numbered_name(an, q)[5] == 'A');
        assert(spec_numbered_name(cn, q)[5] == 'C');
    }
    assert forall|q: int, t: int| q >= 1 && t >= 1 implies #[trigger] spec_numbered_name(an, q)
        != #[trigger] spec_numbered_name(cn, t) by {
        lemma_numbered_name_shape(an, q);
        lemma_numbered_name_shape(cn, t);
        assert(spec_numbered_name(an, q)[5] == 'A');
        assert(spec_numbered_name(cn, t)[5] == 'C');
    }
    // --- the access token ---
    let after_a = dr + dc;
    assert forall|t: int| 0 <= t < after_a.len() implies (#[trigger] after_a[t]).0 != an by {
        if t == 0 {
            assert(after_a[t] == (rn, refresh));
        } else {
            assert(after_a[t] == dc[t - 1]);
            if dc[t - 1].0 != cn {
                let q = choose|q: int| q >= 1 && dc[t - 1].0 == spec_numbered_name(cn, q);
                assert(spec_numbered_name(cn, q) != an);
            }
        }
    }
    assert forall|t: int, q: int| 0 <= t < after_a.len() && q >= 1 implies (#[trigger] after_a[t]).0
        != #[trigger] spec_numbered_name(an, q) by {
        lemma_numbered_name_shape(an, q);
        if t == 0 {
            assert(after_a[t] == (rn, refresh));
        } else {
            assert(after_a[t] == dc[t - 1]);
            if dc[t - 1].0 != cn {
                let w = choose|w: int| w >= 1 && dc[t - 1].0 == spec_numbered_name(cn, w);
                assert(spec_numbered_name(an, q) != spec_numbered_name(cn, w));
            }
        }
    }
    assert(j =~= Seq::empty() + da + after_a);
    assert(j.len() >= spec_chunks(access, c).len() + 1) by {
        if access.len() > c {
            lemma_deploy_value_section(an, access, c);
        }
    }
    lemma_collect_deployed(j, Seq::empty(), after_a, an, access, c);
    // --- the refresh token ---
    assert forall|t: int| 0 <= t < da.len() implies (#[trigger] da[t]).0 != rn by {
        if da[t].0 != an {
            let q = choose|q: int| q >= 1 && da[t].0 == spec_numbered_name(an, q);
            assert(spec_numbered_name(an, q) != rn);
        }
    }
    lemma_pair_get_none(da, rn);
    assert(j =~= da + (dr + dc));
    lemma_pair_get_append(da, dr + dc, rn);
    assert((dr + dc)[0] == (rn, refresh));
    assert(spec_pair_get(j, rn) == Some(refresh));
    // --- the client token ---
    let before_c = da + dr;
    assert forall|t: int| 0 <= t < before_c.len() implies (#[trigger] before_c[t]).0 != cn by {
        if t < da.len() {
            assert(before_c[t] == da[t]);
            if da[t].0 != an {
                let q = choose|q: int| q >= 1 && da[t].0 == spec_numbered_name(an, q);
                assert(spec_numbered_name(an, q) != cn);
            }
        } else {
            assert(before_c[t] == (rn, refresh));
        }
    }
    assert forall|t: int, q: int| 0 <= t < before_c.len() && q >= 1 implies (#[trigger]
    before_c[t]).0 != #[trigger] spec_numbered_name(cn, q) by {
        lemma_numbered_name_shape(cn, q);
        assert(spec_numbered_name(cn, q)[5] == 'C');
        if t < da.len() {
            assert(before_c[t] == da[t]);
            if da[t].0 != an {
                let w = choose|w: int| w >= 1 && da[t].0 == spec_numbered_name(an, w);
                assert(spec_numbered_name(an, w) != spec_numbered_name(cn, q));
            }
        } else {
            assert(before_c[t] == (rn, refresh));
        }
    }
    match cba {
        Some(v) => {
            assert(j =~= before_c + dc + Seq::<(Seq<char>, Seq<char>)>::empty());
            assert(j.len() >= spec_chunks(v, c).len() + 1) by {
                if v.len() > c {
                    lemma_deploy_value_section(cn, v, c);
                }
            }
            lemma_collect_deployed(j, before_c, Seq::empty(), cn, v, c);
        },
        None => {
            assert(j =~= before_c);
            lemma_pair_get_none(j, cn);
            assert forall|q: int| q >= 1 implies spec_pair_get(
                j,
                #[trigger] spec_numbered_name(cn, q),
            ) is None by {
                lemma_pair_get_none(j, spec_numbered_name(cn, q));
            }
            assert(spec_numbered_values(j, cn, 1, j.len() as int) =~= Seq::<Seq<char>>::empty());
            assert(spec_collect(j, cn) =~= Seq::<char>::empty());
        },
    }
}

} // verus!
