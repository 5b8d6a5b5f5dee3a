//! Character-level string utilities: case folding, equality, prefix tests.

use vstd::prelude::*;

verus! {

/// One ASCII capital letter folded to lower case; any other character is kept.
pub open spec fn lower_char(c: char) -> char {
    if 65 <= c as u32 && c as u32 <= 90 {
        ((c as u8 + 32) as u8) as char
    } else {
        c
    }
}

/// A character sequence folded to ASCII lower case.
pub open spec fn lower_seq(s: Seq<char>) -> Seq<char> {
    s.map_values(|c: char| lower_char(c))
}

/// Folds one character to ASCII lower case.
pub fn char_lower(c: char) -> (r: char)
    ensures
        r == lower_char(c),
{
    let u = c as u32;
    if 65 <= u && u <= 90 {
        ((c as u8) + 32) as char
    } else {
        c
    }
}

/// Character-wise equality of two string slices.
pub fn str_eq(a: &str, b: &str) -> (r: bool)
    ensures
        r == (a@ == b@),
{
    let an = a.unicode_len();
    let bn = b.unicode_len();
    if an != bn {
        assert(a@ != b@);
        return false;
    }
    let mut i: usize = 0;
    while i < an
        invariant
            an == a@.len(),
            an == b@.len(),
            i <= an,
            forall|j: int| 0 <= j < i ==> a@[j] == b@[j],
        decreases an - i,
    {
        if a.get_char(i) != b.get_char(i) {
            return false;
        }
        i += 1;
    }
    proof {
        assert(a@ =~= b@);
    }
    true
}

/// Case-insensitive (ASCII) equality of two string slices.
pub fn eq_ignore_case(a: &str, b: &str) -> (r: bool)
    ensures
        r == (lower_seq(a@) == lower_seq(b@)),
{
    let an = a.unicode_len();
    let bn = b.unicode_len();
    if an != bn {
        assert(lower_seq(a@).len() != lower_seq(b@).len());
        return false;
    }
    let mut i: usize = 0;
    while i < an
        invariant
            an == a@.len(),
            an == b@.len(),
            i <= an,
            forall|j: int| 0 <= j < i ==> lower_char(a@[j]) == lower_char(b@[j]),
        decreases an - i,
    {
        if char_lower(a.get_char(i)) != char_lower(b.get_char(i)) {
            assert(lower_seq(a@)[i as int] != lower_seq(b@)[i as int]);
            return false;
        }
        i += 1;
    }
    proof {
        assert(lower_seq(a@) =~= lower_seq(b@));
    }
    true
}

/// Whether `s` begins with `prefix`, character for character.
pub fn starts_with_str(s: &str, prefix: &str) -> (r: bool)
    ensures
        r == (s@.len() >= prefix@.len() && s@.subrange(0, prefix@.len() as int) == prefix@),
{
    let sn = s.unicode_len();
    let pn = prefix.unicode_len();
    if sn < pn {
        return false;
    }
    let mut i: usize = 0;
    while i < pn
        invariant
            sn == s@.len(),
            pn == prefix@.len(),
            pn <= sn,
            i <= pn,
            forall|j: int| 0 <= j < i ==> s@[j] == prefix@[j],
        decreases pn - i,
    {
        if s.get_char(i) != prefix.get_char(i) {
            assert(s@.subrange(0, pn as int)[i as int] != prefix@[i as int]);
            return false;
        }
        i += 1;
    }
    proof {
        assert(s@.subrange(0, pn as int) =~= prefix@);
    }
    true
}

/// Whether `pat` occurs in `s` at position `i`.
pub open spec fn matches_at(s: Seq<char>, pat: Seq<char>, i: int) -> bool {
    0 <= i && i + pat.len() <= s.len() && s.subrange(i, i + pat.len()) == pat
}

/// `s` with every non-overlapping occurrence of `pat` (scanned left to right)
/// replaced by `rep`. An empty `pat` leaves `s` unchanged.
pub open spec fn spec_replace(s: Seq<char>, pat: Seq<char>, rep: Seq<char>) -> Seq<char>
    decreases s.len(),
{
    if pat.len() == 0 || s.len() < pat.len() {
        s
    } else if s.subrange(0, pat.len() as int) == pat {
        rep + spec_replace(s.subrange(pat.len() as int, s.len() as int), pat, rep)
    } else {
        seq![s[0]] + spec_replace(s.subrange(1, s.len() as int), pat, rep)
    }
}

/// Tests whether `pat` occurs in `s` at position `i`.
pub fn check_match_at(s: &str, pat: &str, i: usize) -> (r: bool)
    requires
        i <= s@.len(),
    ensures
        r == matches_at(s@, pat@, i as int),
{
    let sn = s.unicode_len();
    let pn = pat.unicode_len();
    if sn - i < pn {
        return false;
    }
    let mut j: usize = 0;
    while j < pn
        invariant
            sn == s@.len(),
            pn == pat@.len(),
            i + pn <= sn,
            j <= pn,
            forall|k: int| 0 <= k < j ==> s@[i + k] == pat@[k],
        decreases pn - j,
    {
        if s.get_char(i + j) != pat.get_char(j) {
            assert(s@.subrange(i as int, i + pn) [j as int] != pat@[j as int]);
            return false;
        }
        j += 1;
    }
    proof {
        assert(s@.subrange(i as int, i + pn) =~= pat@);
    }
    true
}

/// Replaces every non-overlapping occurrence of `pat` in `s` by `rep`,
/// scanning left to right.
pub fn replace_all(s: &str, pat: &str, rep: &str) -> (r: String)
    requires
        pat@.len() > 0,
    ensures
        r@ == spec_replace(s@, pat@, rep@),
{
    let sn = s.unicode_len();
    let pn = pat.unicode_len();
    let mut out = String::new();
    let mut i: usize = 0;
    proof {
        assert(s@.subrange(0, sn as int) =~= s@);
    }
    while i < sn
        invariant
            sn == s@.len(),
            pn == pat@.len(),
            pn > 0,
            i <= sn,
            spec_replace(s@, pat@, rep@) == out@ + spec_replace(
                s@.subrange(i as int, sn as int),
                pat@,
                rep@,
            ),
        decreases sn - i,
    {
        let ghost tail = s@.subrange(i as int, sn as int);
        if check_match_at(s, pat, i) {
            proof {
                assert(tail.len() >= pat@.len());
                assert(tail.subrange(0, pn as int) =~= s@.subrange(i as int, i + pn));
                assert(tail.subrange(pn as int, tail.len() as int) =~= s@.subrange(
                    i + pn,
                    sn as int,
                ));
            }
            out.append(rep);
            i += pn;
        } else {
            proof {
                if tail.len() >= pat@.len() {
                    assert(tail.subrange(0, pn as int) =~= s@.subrange(i as int, i + pn));
                }
                assert(tail.subrange(1, tail.len() as int) =~= s@.subrange(i + 1, sn as int));
                assert(seq![tail[0]] =~= s@.subrange(i as int, i + 1));
            }
            let piece = s.substring_char(i, i + 1);
            out.append(piece);
            i += 1;
        }
    }
    proof {
        assert(s@.subrange(sn as int, sn as int) =~= Seq::<char>::empty());
        assert(out@ + Seq::<char>::empty() =~= out@);
    }
    out
}

/// Blank characters stripped when a header value token is trimmed.
pub open spec fn is_space(c: char) -> bool {
    c == ' ' || c == '\t'
}

/// `s` cut at every `sep`. The result always holds at least one segment;
/// the separators themselves are dropped.
pub open spec fn spec_split_sep(s: Seq<char>, sep: char) -> Seq<Seq<char>>
    decreases s.len(),
{
    if s.len() == 0 {
        seq![Seq::<char>::empty()]
    } else if s[0] == sep {
        seq![Seq::<char>::empty()] + spec_split_sep(s.subrange(1, s.len() as int), sep)
    } else {
        let rest = spec_split_sep(s.subrange(1, s.len() as int), sep);
        seq![seq![s[0]] + rest[0]] + rest.subrange(1, rest.len() as int)
    }
}

pub proof fn lemma_split_sep_nonempty(s: Seq<char>, sep: char)
    ensures
        spec_split_sep(s, sep).len() >= 1,
    decreases s.len(),
{
    if s.len() > 0 {
        lemma_split_sep_nonempty(s.subrange(1, s.len() as int), sep);
    }
}

/// `s` cut at every comma.
pub open spec fn spec_split_commas(s: Seq<char>) -> Seq<Seq<char>> {
    spec_split_sep(s, ',')
}

/// Cuts `s` at every `sep`, keeping empty segments.
pub fn split_on(s: &str, sep: char) -> (r: Vec<String>)
    ensures
        r@.map_values(|x: String| x@) == spec_split_sep(s@, sep),
{
    let sn = s.unicode_len();
    let mut done: Vec<String> = Vec::new();
    let mut cur = String::new();
    let mut i: usize = 0;
    proof {
        assert(s@.subrange(0, sn as int) =~= s@);
        lemma_split_sep_nonempty(s@, sep);
    }
    while i < sn
        invariant
            sn == s@.len(),
            i <= sn,
            spec_split_sep(s@.subrange(i as int, sn as int), sep).len() >= 1,
            spec_split_sep(s@, sep) =~= done@.map_values(|x: String| x@) + seq![
                cur@ + spec_split_sep(s@.subrange(i as int, sn as int), sep)[0],
            ] + spec_split_sep(s@.subrange(i as int, sn as int), sep).subrange(
                1,
                spec_split_sep(s@.subrange(i as int, sn as int), sep).len() as int,
            ),
        decreases sn - i,
    {
        let ghost tail = s@.subrange(i as int, sn as int);
        let ghost tail1 = s@.subrange(i + 1, sn as int);
        let ghost ss1 = spec_split_sep(tail1, sep);
        proof {
            assert(tail.subrange(1, tail.len() as int) =~= tail1);
            lemma_split_sep_nonempty(tail1, sep);
        }
        let c = s.get_char(i);
        if c == sep {
            proof {
                assert(spec_split_sep(tail, sep) == seq![Seq::<char>::empty()] + ss1);
                assert(spec_split_sep(tail, sep)[0] =~= Seq::<char>::empty());
                assert(spec_split_sep(tail, sep).subrange(
                    1,
                    spec_split_sep(tail, sep).len() as int,
                ) =~= ss1);
                assert(cur@ + spec_split_sep(tail, sep)[0] =~= cur@);
            }
            let ghost done0 = done@;
            let finished = cur;
            cur = String::new();
            done.push(finished);
            proof {
                assert(done@.map_values(|x: String| x@) =~= done0.map_values(|x: String| x@)
                    + seq![finished@]);
                assert(ss1 =~= seq![ss1[0]] + ss1.subrange(1, ss1.len() as int));
                assert(cur@ + ss1[0] =~= ss1[0]);
            }
        } else {
            let piece = s.substring_char(i, i + 1);
            let ghost cur0 = cur@;
            proof {
                assert(piece@ =~= seq![tail[0]]);
                assert(spec_split_sep(tail, sep) == seq![seq![tail[0]] + ss1[0]] + ss1.subrange(
                    1,
                    ss1.len() as int,
                ));
                assert(spec_split_sep(tail, sep)[0] == seq![tail[0]] + ss1[0]);
                assert(spec_split_sep(tail, sep).subrange(
                    1,
                    spec_split_sep(tail, sep).len() as int,
                ) =~= ss1.subrange(1, ss1.len() as int));
            }
            cur.append(piece);
            proof {
                assert(cur@ + ss1[0] =~= cur0 + (seq![tail[0]] + ss1[0]));
                assert(cur0 + spec_split_sep(tail, sep)[0] =~= cur0 + (seq![tail[0]] + ss1[0]));
            }
        }
        i += 1;
    }
    proof {
        assert(s@.subrange(sn as int, sn as int) =~= Seq::<char>::empty());
        assert(cur@ + Seq::<char>::empty() =~= cur@);
    }
    done.push(cur);
    proof {
        assert(done@.map_values(|x: String| x@) =~= spec_split_sep(s@, sep));
    }
    done
}

/// `s` with leading blanks removed.
pub open spec fn spec_trim_front(s: Seq<char>) -> Seq<char>
    decreases s.len(),
{
    if s.len() > 0 && is_space(s[0]) {
        spec_trim_front(s.subrange(1, s.len() as int))
    } else {
        s
    }
}

/// `s` with trailing blanks removed.
pub open spec fn spec_trim_back(s: Seq<char>) -> Seq<char>
    decreases s.len(),
{
    if s.len() > 0 && is_space(s[s.len() - 1]) {
        spec_trim_back(s.subrange(0, s.len() - 1))
    } else {
        s
    }
}

/// `s` with leading and trailing blanks removed.
pub open spec fn spec_trim(s: Seq<char>) -> Seq<char> {
    spec_trim_back(spec_trim_front(s))
}

/// Whether position `i` of `s` holds a blank character.
fn is_blank_at(s: &str, i: usize) -> (r: bool)
    ensures
        r == (i < s@.len() && is_space(s@[i as int])),
{
    if i < s.unicode_len() {
        let c = s.get_char(i);
        c == ' ' || c == '\t'
    } else {
        false
    }
}

/// Strips leading and trailing blanks.
pub fn trim_str(s: &str) -> (r: String)
    ensures
        r@ == spec_trim(s@),
{
    let sn = s.unicode_len();
    let mut a: usize = 0;
    proof {
        assert(s@.subrange(0, sn as int) =~= s@);
    }
    while is_blank_at(s, a)
        invariant
            sn == s@.len(),
            a <= sn,
            spec_trim_front(s@) == spec_trim_front(s@.subrange(a as int, sn as int)),
        decreases sn - a,
    {
        proof {
            let tail = s@.subrange(a as int, sn as int);
            assert(tail.subrange(1, tail.len() as int) =~= s@.subrange(a + 1, sn as int));
        }
        a += 1;
    }
    proof {
        assert(spec_trim_front(s@) == s@.subrange(a as int, sn as int));
    }
    let mut b: usize = sn;
    while b > a && is_blank_at(s, b - 1)
        invariant
            sn == s@.len(),
            a <= b <= sn,
            spec_trim_front(s@) == s@.subrange(a as int, sn as int),
            spec_trim_back(s@.subrange(a as int, sn as int)) == spec_trim_back(
                s@.subrange(a as int, b as int),
            ),
        decreases b,
    {
        proof {
            let part = s@.subrange(a as int, b as int);
            assert(part.subrange(0, part.len() - 1) =~= s@.subrange(a as int, b - 1));
        }
        b -= 1;
    }
    proof {
        if b == a {
            assert(s@.subrange(a as int, b as int) =~= Seq::<char>::empty());
        }
    }
    let r = s.substring_char(a, b);
    r.to_owned()
}

/// Whether some comma-delimited segment of `value`, trimmed of blanks, equals
/// `token` up to ASCII case.
pub open spec fn spec_has_token(value: Seq<char>, token: Seq<char>) -> bool {
    exists|k: int|
        0 <= k < spec_split_commas(value).len() && lower_seq(
            spec_trim(spec_split_commas(value)[k]),
        ) == lower_seq(token)
}

/// Tests whether some comma-delimited segment of `value`, trimmed of blanks,
/// equals `token` up to ASCII case.
pub fn has_token(value: &str, token: &str) -> (r: bool)
    ensures
        r == spec_has_token(value@, token@),
{
    let segs = split_on(value, ',');
    let mut k: usize = 0;
    while k < segs.len()
        invariant
            segs@.map_values(|x: String| x@) == spec_split_commas(value@),
            k <= segs@.len(),
            forall|j: int|
                0 <= j < k ==> lower_seq(spec_trim(spec_split_commas(value@)[j])) != lower_seq(
                    token@,
                ),
        decreases segs@.len() - k,
    {
        let t = trim_str(segs[k].as_str());
        if eq_ignore_case(t.as_str(), token) {
            assert(lower_seq(spec_trim(spec_split_commas(value@)[k as int])) == lower_seq(token@));
            return true;
        }
        k += 1;
    }
    false
}

/// The index of the first occurrence of `c` in `s`, or `-1`.
pub open spec fn spec_find(s: Seq<char>, c: char) -> int
    decreases s.len(),
{
    if s.len() == 0 {
        -1
    } else if s[0] == c {
        0
    } else {
        let r = spec_find(s.subrange(1, s.len() as int), c);
        if r == -1 {
            -1
        } else {
            r + 1
        }
    }
}

/// A find result is `-1` or a valid index.
pub proof fn lemma_find_range(s: Seq<char>, c: char)
    ensures
        -1 <= spec_find(s, c) < s.len(),
    decreases s.len(),
{
    if s.len() > 0 && s[0] != c {
        lemma_find_range(s.subrange(1, s.len() as int), c);
    }
}

/// Finds the first occurrence of `c` in `s`.
pub fn find_char(s: &str, c: char) -> (r: Option<usize>)
    ensures
        match r {
            Some(k) => k == spec_find(s@, c),
            None => spec_find(s@, c) == -1,
        },
{
    let n = s.unicode_len();
    let mut i: usize = 0;
    proof {
        assert(s@.subrange(0, n as int) =~= s@);
    }
    while i < n
        invariant
            n == s@.len(),
            i <= n,
            spec_find(s@, c) == if spec_find(s@.subrange(i as int, n as int), c) == -1 {
                -1 as int
            } else {
                spec_find(s@.subrange(i as int, n as int), c) + i
            },
        decreases n - i,
    {
        let ghost tail = s@.subrange(i as int, n as int);
        proof {
            assert(tail.subrange(1, tail.len() as int) =~= s@.subrange(i + 1, n as int));
            assert(tail[0] == s@[i as int]);
        }
        if s.get_char(i) == c {
            proof {
                assert(spec_find(tail, c) == 0);
            }
            return Some(i);
        }
        proof {
            assert(tail[0] != c);
            lemma_find_range(s@.subrange(i + 1, n as int), c);
            assert(spec_find(tail, c) == (if spec_find(
                s@.subrange(i + 1, n as int),
                c,
            ) == -1 {
                -1 as int
            } else {
                spec_find(s@.subrange(i + 1, n as int), c) + 1
            }));
            assert(spec_find(s@, c) == (if spec_find(s@.subrange(i + 1, n as int), c) == -1 {
                -1 as int
            } else {
                spec_find(s@.subrange(i + 1, n as int), c) + (i + 1)
            }));
        }
        i += 1;
    }
    proof {
        assert(s@.subrange(n as int, n as int) =~= Seq::<char>::empty());
    }
    None
}

/// The decimal digit `d` as a character.
pub open spec fn digit_char(d: int) -> char {
    ((48 + d) as u8) as char
}

/// The decimal rendering of a non-negative number, most significant digit
/// first, without leading zeros.
pub open spec fn spec_dec(n: int) -> Seq<char>
    decreases n,
{
    if n < 10 {
        seq![digit_char(n)]
    } else {
        spec_dec(n / 10) + seq![digit_char(n % 10)]
    }
}

/// One decimal digit as a string slice.
pub fn digit_str(d: u8) -> (r: &'static str)
    requires
        d < 10,
    ensures
        r@ == seq![digit_char(d as int)],
{
    proof {
        reveal_strlit("0");
        reveal_strlit("1");
        reveal_strlit("2");
        reveal_strlit("3");
        reveal_strlit("4");
        reveal_strlit("5");
        reveal_strlit("6");
        reveal_strlit("7");
        reveal_strlit("8");
        reveal_strlit("9");
    }
    match d {
        0 => "0",
        1 => "1",
        2 => "2",
        3 => "3",
        4 => "4",
        5 => "5",
        6 => "6",
        7 => "7",
        8 => "8",
        _ => "9",
    }
}

/// Renders `n` in decimal.
pub fn dec_u64(n: u64) -> (r: String)
    ensures
        r@ == spec_dec(n as int),
    decreases n,
{
    if n < 10 {
        digit_str(n as u8).to_owned()
    } else {
        let mut s = dec_u64(n / 10);
        s.append(digit_str((n % 10) as u8));
        s
    }
}

/// A decimal rendering holds at least one character.
pub proof fn lemma_dec_len(n: int)
    requires
        n >= 0,
    ensures
        spec_dec(n).len() >= 1,
    decreases n,
{
    if n >= 10 {
        lemma_dec_len(n / 10);
    }
}

/// Two distinct digits render as distinct characters.
proof fn lemma_digit_char_injective(a: int, b: int)
    requires
        0 <= a < 10,
        0 <= b < 10,
        a != b,
    ensures
        digit_char(a) != digit_char(b),
{
}

/// Distinct numbers have distinct decimal renderings.
pub proof fn lemma_dec_injective(a: int, b: int)
    requires
        a >= 0,
        b >= 0,
        a != b,
    ensures
        spec_dec(a) != spec_dec(b),
    decreases a + b,
{
    if a < 10 && b < 10 {
        lemma_digit_char_injective(a, b);
        assert(spec_dec(a)[0] != spec_dec(b)[0]);
    } else if a < 10 && b >= 10 {
        lemma_dec_len(b / 10);
        assert(spec_dec(b).len() >= 2);
    } else if a >= 10 && b < 10 {
        lemma_dec_len(a / 10);
        assert(spec_dec(a).len() >= 2);
    } else {
        let la = spec_dec(a / 10);
        let lb = spec_dec(b / 10);
        assert(spec_dec(a) == la + seq![digit_char(a % 10)]);
        assert(spec_dec(b) == lb + seq![digit_char(b % 10)]);
        if a % 10 != b % 10 {
            lemma_digit_char_injective(a % 10, b % 10);
            if spec_dec(a) == spec_dec(b) {
                assert(spec_dec(a).last() == digit_char(a % 10));
                assert(spec_dec(b).last() == digit_char(b % 10));
            }
        } else {
            assert(a / 10 != b / 10);
            lemma_dec_injective(a / 10, b / 10);
            if spec_dec(a) == spec_dec(b) {
                assert(la.len() + 1 == lb.len() + 1);
                assert(la =~= spec_dec(a).subrange(0, spec_dec(a).len() - 1));
                assert(lb =~= spec_dec(b).subrange(0, spec_dec(b).len() - 1));
            }
        }
    }
}

} // verus!
