//! Injection of the client-side revalidator into served HTML: preload links
//! before `</head`, the module script before `</body`. Non-HTML responses
//! and non-`200` statuses pass through untouched.

use vstd::prelude::*;

use crate::text::{
    eq_ignore_case, find_char, lemma_find_range, lower_seq, matches_at, replace_all, spec_find,
    spec_replace, spec_trim, trim_str,
};

verus! {

/// The closing tag the preload links are inserted before.
pub open spec fn head_marker() -> Seq<char> {
    "</head"@
}

/// The closing tag the revalidator script is inserted before.
pub open spec fn body_marker() -> Seq<char> {
    "</body"@
}

/// The preload links, ending with the head marker they replace.
pub open spec fn links_payload() -> Seq<char> {
    "<link rel=\"modulepreload\" href=\"/--inner-lbrp-auth/lbrp_cba_autovalidate.js\" crossorigin=\"anonymous\"><link rel=\"preload\" href=\"/--inner-lbrp-auth/lbrp_cba_autovalidate_bg.wasm\" crossorigin=\"anonymous\" as=\"fetch\" type=\"application/wasm\"></head"@
}

/// The revalidator module script, ending with the body marker it replaces.
pub open spec fn script_payload() -> Seq<char> {
    "<script type=\"module\">import init, * as autoupdBindings from '/--inner-lbrp-auth/lbrp_cba_autovalidate.js'; const wasm = await init({ module_or_path: '/--inner-lbrp-auth/lbrp_cba_autovalidate_bg.wasm' }); window.autoupdBindings = autoupdBindings; autoupdBindings.cba_autovalidate();</script></body"@
}

/// What injection does to a document: every head marker becomes the preload
/// links, then every body marker becomes the revalidator script.
pub open spec fn spec_inject(s: Seq<char>) -> Seq<char> {
    spec_replace(spec_replace(s, head_marker(), links_payload()), body_marker(), script_payload())
}

/// Injects the revalidator into an HTML document.
pub fn inject_autoupdater(html: &str) -> (r: String)
    ensures
        r@ == spec_inject(html@),
{
    proof {
        reveal_strlit("</head");
        reveal_strlit("</body");
    }
    let pass1 = replace_all(
        html,
        "</head",
        "<link rel=\"modulepreload\" href=\"/--inner-lbrp-auth/lbrp_cba_autovalidate.js\" crossorigin=\"anonymous\"><link rel=\"preload\" href=\"/--inner-lbrp-auth/lbrp_cba_autovalidate_bg.wasm\" crossorigin=\"anonymous\" as=\"fetch\" type=\"application/wasm\"></head",
    );
    let pass2 = replace_all(
        pass1.as_str(),
        "</body",
        "<script type=\"module\">import init, * as autoupdBindings from '/--inner-lbrp-auth/lbrp_cba_autovalidate.js'; const wasm = await init({ module_or_path: '/--inner-lbrp-auth/lbrp_cba_autovalidate_bg.wasm' }); window.autoupdBindings = autoupdBindings; autoupdBindings.cba_autovalidate();</script></body",
    );
    pass2
}

/// Whether a content type names an HTML subtype: the segment between the
/// first `/` and the next `;` (or the end), trimmed, is `html` up to case.
pub open spec fn spec_is_html_ct(ct: Seq<char>) -> bool {
    let sl = spec_find(ct, '/');
    if sl == -1 {
        false
    } else {
        let rest = ct.subrange(sl + 1, ct.len() as int);
        let sc = spec_find(rest, ';');
        let seg = if sc == -1 {
            rest
        } else {
            rest.subrange(0, sc)
        };
        lower_seq(spec_trim(seg)) == lower_seq("html"@)
    }
}

/// Tests whether a `Content-Type` value names HTML.
pub fn is_html_content_type(ct: &str) -> (r: bool)
    ensures
        r == spec_is_html_ct(ct@),
{
    let n = ct.unicode_len();
    let sl = match find_char(ct, '/') {
        Some(k) => k,
        None => {
            return false;
        },
    };
    proof {
        lemma_find_range(ct@, '/');
    }
    let rest = ct.substring_char(sl + 1, n);
    let rn = rest.unicode_len();
    let seg = match find_char(rest, ';') {
        Some(k) => {
            proof {
                lemma_find_range(rest@, ';');
            }
            rest.substring_char(0, k)
        },
        None => {
            proof {
                assert(rest@.subrange(0, rn as int) =~= rest@);
            }
            rest.substring_char(0, rn)
        },
    };
    let trimmed = trim_str(seg);
    eq_ignore_case(trimmed.as_str(), "html")
}

/// Whether the auth gate injects into a response: only successful (or
/// status-less) responses whose content type names HTML.
pub open spec fn spec_should_inject(status: Option<u16>, content_type: Option<Seq<char>>) -> bool {
    (status is None || status == Some(200u16)) && match content_type {
        Some(ct) => spec_is_html_ct(ct),
        None => false,
    }
}

/// Decides whether the guard injects into a response.
pub fn should_inject(status: Option<u16>, content_type: &Option<String>) -> (r: bool)
    ensures
        r == spec_should_inject(
            status,
            match *content_type {
                Some(ref ct) => Some(ct@),
                None => None,
            },
        ),
{
    let status_ok = match status {
        None => true,
        Some(s) => s == 200,
    };
    if !status_ok {
        return false;
    }
    match content_type {
        Some(ct) => is_html_content_type(ct.as_str()),
        None => false,
    }
}

/// Replacement leaves a document without the pattern unchanged.
pub proof fn lemma_replace_absent(s: Seq<char>, pat: Seq<char>, rep: Seq<char>)
    requires
        pat.len() > 0,
        forall|k: int| !matches_at(s, pat, k),
    ensures
        spec_replace(s, pat, rep) == s,
    decreases s.len(),
{
    if s.len() < pat.len() {
    } else if s.subrange(0, pat.len() as int) == pat {
        assert(matches_at(s, pat, 0));
    } else {
        let tail = s.subrange(1, s.len() as int);
        assert forall|k: int| !matches_at(tail, pat, k) by {
            if 0 <= k && k + pat.len() <= tail.len() {
                assert(tail.subrange(k, k + pat.len()) =~= s.subrange(1 + k, 1 + k + pat.len()));
                if matches_at(tail, pat, k) {
                    assert(matches_at(s, pat, 1 + k));
                }
            }
        }
        lemma_replace_absent(tail, pat, rep);
        assert(seq![s[0]] + tail =~= s);
    }
}

/// Replacing a pattern that occurs exactly once, at `i`, yields the document
/// with the replacement standing in the pattern's place and everything else
/// unchanged.
pub proof fn lemma_replace_single(s: Seq<char>, pat: Seq<char>, rep: Seq<char>, i: int)
    requires
        pat.len() > 0,
        matches_at(s, pat, i),
        forall|k: int| k != i ==> !matches_at(s, pat, k),
    ensures
        spec_replace(s, pat, rep) == s.subrange(0, i) + rep + s.subrange(
            i + pat.len(),
            s.len() as int,
        ),
    decreases s.len(),
{
    if s.subrange(0, pat.len() as int) == pat {
        assert(matches_at(s, pat, 0));
        assert(i == 0);
        let tail = s.subrange(pat.len() as int, s.len() as int);
        assert forall|k: int| !matches_at(tail, pat, k) by {
            if 0 <= k && k + pat.len() <= tail.len() {
                assert(tail.subrange(k, k + pat.len()) =~= s.subrange(
                    pat.len() + k,
                    pat.len() + k + pat.len(),
                ));
                if matches_at(tail, pat, k) {
                    assert(matches_at(s, pat, pat.len() + k));
                }
            }
        }
        lemma_replace_absent(tail, pat, rep);
        assert(s.subrange(0, 0) =~= Seq::<char>::empty());
        assert(spec_replace(s, pat, rep) =~= s.subrange(0, i) + rep + s.subrange(
            i + pat.len(),
            s.len() as int,
        ));
    } else {
        assert(!matches_at(s, pat, 0));
        assert(i >= 1);
        let tail = s.subrange(1, s.len() as int);
        assert(tail.subrange(i - 1, i - 1 + pat.len()) =~= s.subrange(i, i + pat.len()));
        assert(matches_at(tail, pat, i - 1));
        assert forall|k: int| k != i - 1 implies !matches_at(tail, pat, k) by {
            if 0 <= k && k + pat.len() <= tail.len() {
                assert(tail.subrange(k, k + pat.len()) =~= s.subrange(1 + k, 1 + k + pat.len()));
                if matches_at(tail, pat, k) {
                    assert(matches_at(s, pat, 1 + k));
                }
            }
        }
        lemma_replace_single(tail, pat, rep, i - 1);
        assert(tail.subrange(0, i - 1) =~= s.subrange(1, i));
        assert(tail.subrange(i - 1 + pat.len(), tail.len() as int) =~= s.subrange(
            i + pat.len(),
            s.len() as int,
        ));
        assert(seq![s[0]] + (s.subrange(1, i) + rep + s.subrange(i + pat.len(), s.len() as int))
            =~= s.subrange(0, i) + rep + s.subrange(i + pat.len(), s.len() as int));
    }
}

/// Injection into a document that closes its head once and its body once,
/// the head before the body: the preload links stand exactly once, in the
/// head marker's place, the revalidator script exactly once, in the body
/// marker's place, and the rest of the document is unchanged.
pub proof fn lemma_inject_once(s: Seq<char>, i: int, j: int)
    requires
        matches_at(s, head_marker(), i),
        forall|k: int| k != i ==> !matches_at(s, head_marker(), k),
        matches_at(s, body_marker(), j),
        forall|k: int| k != j ==> !matches_at(s, body_marker(), k),
        i + head_marker().len() <= j,
    ensures
        spec_inject(s) == s.subrange(0, i) + links_payload() + s.subrange(i + 6, j)
            + script_payload() + s.subrange(j + 6, s.len() as int),
{
    reveal_strlit("</head");
    reveal_strlit("</body");
    reveal_strlit(
        "<link rel=\"modulepreload\" href=\"/--inner-lbrp-auth/lbrp_cba_autovalidate.js\" crossorigin=\"anonymous\"><link rel=\"preload\" href=\"/--inner-lbrp-auth/lbrp_cba_autovalidate_bg.wasm\" crossorigin=\"anonymous\" as=\"fetch\" type=\"application/wasm\"></head",
    );
    let hm = head_marker();
    let bm = body_marker();
    let lp = links_payload();
    let ll = lp.len() as int;
    assert(hm.len() == 6);
    assert(bm.len() == 6);
    assert(bm[0] == '<' && bm[1] == '/' && bm[2] == 'b' && bm[3] == 'o' && bm[4] == 'd' && bm[5]
        == 'y');
    assert(lp[0] == '<');
    assert(lp[ll - 1] == 'd' && lp[ll - 2] == 'a');
    // no body marker starts inside the links payload
    assert forall|m: int| 0 <= m && m + 2 < ll implies !((#[trigger] lp[m]) == '<' && lp[m + 1]
        == '/' && lp[m + 2] == 'b') by {}
    lemma_replace_single(s, hm, lp, i);
    let s1 = spec_replace(s, hm, lp);
    assert(s1 == s.subrange(0, i) + lp + s.subrange(i + 6, s.len() as int));
    assert(s1.len() == s.len() + ll - 6);
    // where each region of the once-replaced document reads from
    assert forall|p: int| 0 <= p < i implies s1[p] == s[p] by {}
    assert forall|p: int| i <= p < i + ll implies s1[p] == lp[p - i] by {}
    assert forall|p: int| i + ll <= p < s1.len() implies s1[p] == s[p - ll + 6] by {}
    let j1 = j + ll - 6;
    // the body marker stands in the tail, shifted by the payload's growth
    assert(matches_at(s1, bm, j1)) by {
        assert(s1.subrange(j1, j1 + 6) =~= s.subrange(j, j + 6));
        assert(s.subrange(j, j + 6) == bm);
    }
    // and nowhere else
    assert forall|k: int| k != j1 implies !matches_at(s1, bm, k) by {
        if 0 <= k && k + 6 <= s1.len() && matches_at(s1, bm, k) {
            assert(forall|t: int| 0 <= t < 6 ==> s1[k + t] == bm[t]);
            if k + 6 <= i {
                // entirely before the payload: a second marker in `s`
                assert(s.subrange(k, k + 6) =~= s1.subrange(k, k + 6));
                assert(matches_at(s, bm, k));
                assert(k == j);
                assert(false);
            } else if k < i {
                // straddles the payload's start: its first character is `<`
                assert(s1[i] == lp[0]);
                assert(s1[i] == bm[i - k]);
                assert(1 <= i - k < 6);
                assert(false);
            } else if k + 6 <= i + ll {
                // entirely inside the payload, which holds no `</b`
                assert(s1[k] == lp[k - i] && s1[k + 1] == lp[k - i + 1] && s1[k + 2] == lp[k - i
                    + 2]);
                assert(lp[k - i] == '<' && lp[k - i + 1] == '/' && lp[k - i + 2] == 'b');
                assert(false);
            } else if k < i + ll {
                // straddles the payload's end, which reads `...ad`
                assert(s1[i + ll - 1] == lp[ll - 1]);
                assert(s1[i + ll - 1] == bm[i + ll - 1 - k]);
                assert(i + ll - 1 - k == 4);
                assert(s1[k + 3] == lp[ll - 2]);
                assert(false);
            } else {
                // entirely after the payload: a second marker in `s`
                assert(s.subrange(k - ll + 6, k - ll + 12) =~= s1.subrange(k, k + 6));
                assert(matches_at(s, bm, k - ll + 6));
                assert(k - ll + 6 == j);
                assert(false);
            }
        }
    }
    lemma_replace_single(s1, bm, script_payload(), j1);
    assert(s1.subrange(0, j1) =~= s.subrange(0, i) + lp + s.subrange(i + 6, j));
    assert(s1.subrange(j1 + 6, s1.len() as int) =~= s.subrange(j + 6, s.len() as int));
    assert((s.subrange(0, i) + lp + s.subrange(i + 6, j)) + script_payload() + s.subrange(
        j + 6,
        s.len() as int,
    ) =~= s.subrange(0, i) + lp + s.subrange(i + 6, j) + script_payload() + s.subrange(
        j + 6,
        s.len() as int,
    ));
}

} // verus!
