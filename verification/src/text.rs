//! Character and string primitives: white space, trimming, prefix and
//! substring tests, case folding and small numeric parsing. Everything the
//! rest of the crate states about free-text names bottoms out here.

use vstd::prelude::*;

verus! {

/// The fixed set of white-space characters recognized by `trim`, written out
/// as the Unicode `White_Space` code points.
pub open spec fn is_ws(c: char) -> bool {
    let u = c as u32;
    (0x09 <= u && u <= 0x0d) || u == 0x20 || u == 0x85 || u == 0xa0 || u == 0x1680
        || (0x2000 <= u && u <= 0x200a) || u == 0x2028 || u == 0x2029 || u == 0x202f
        || u == 0x205f || u == 0x3000
}

pub fn is_ws_char(c: char) -> (b: bool)
    ensures
        b == is_ws(c),
{
    let u = c as u32;
    (0x09 <= u && u <= 0x0d) || u == 0x20 || u == 0x85 || u == 0xa0 || u == 0x1680
        || (0x2000 <= u && u <= 0x200a) || u == 0x2028 || u == 0x2029 || u == 0x202f
        || u == 0x205f || u == 0x3000
}

/// What remains of `s` after dropping leading white space.
pub open spec fn trim_start_s(s: Seq<char>) -> Seq<char>
    decreases s.len(),
{
    if s.len() > 0 && is_ws(s[0]) {
        trim_start_s(s.drop_first())
    } else {
        s
    }
}

/// What remains of `s` after dropping trailing white space.
pub open spec fn trim_end_s(s: Seq<char>) -> Seq<char>
    decreases s.len(),
{
    if s.len() > 0 && is_ws(s.last()) {
        trim_end_s(s.drop_last())
    } else {
        s
    }
}

/// What remains of `s` after dropping leading and trailing white space.
pub open spec fn trim_s(s: Seq<char>) -> Seq<char> {
    trim_end_s(trim_start_s(s))
}

proof fn lemma_trim_start_at(s: Seq<char>, i: int)
    requires
        0 <= i <= s.len(),
        forall|k: int| 0 <= k < i ==> is_ws(s[k]),
        i < s.len() ==> !is_ws(s[i]),
    ensures
        trim_start_s(s) =~= s.subrange(i, s.len() as int),
    decreases i,
{
    if i == 0 {
        assert(trim_start_s(s) =~= s.subrange(0, s.len() as int));
    } else {
        let t = s.drop_first();
        assert(forall|k: int| 0 <= k < i - 1 ==> is_ws(t[k]));
        lemma_trim_start_at(t, i - 1);
        assert(t.subrange(i - 1, t.len() as int) =~= s.subrange(i, s.len() as int));
    }
}

proof fn lemma_trim_end_at(s: Seq<char>, j: int)
    requires
        0 <= j <= s.len(),
        forall|k: int| j <= k < s.len() ==> is_ws(s[k]),
        j > 0 ==> !is_ws(s[j - 1]),
    ensures
        trim_end_s(s) =~= s.subrange(0, j),
    decreases s.len() - j,
{
    if j == s.len() {
        assert(trim_end_s(s) =~= s.subrange(0, s.len() as int));
    } else {
        let t = s.drop_last();
        assert(forall|k: int| j <= k < t.len() ==> is_ws(t[k]));
        lemma_trim_end_at(t, j);
        assert(t.subrange(0, j) =~= s.subrange(0, j));
    }
}

/// Exact executable counterpart of `trim_s`.
pub fn trim_str<'a>(s: &'a str) -> (r: &'a str)
    ensures
        r@ == trim_s(s@),
{
    let n = s.unicode_len();
    let mut i: usize = 0;
    while i < n && is_ws_char(s.get_char(i))
        invariant
            0 <= i <= n,
            n == s@.len(),
            forall|k: int| 0 <= k < i ==> is_ws(s@[k]),
        decreases n - i,
    {
        i += 1;
    }
    let mut j: usize = n;
    while j > i && is_ws_char(s.get_char(j - 1))
        invariant
            i <= j <= n,
            n == s@.len(),
            forall|k: int| 0 <= k < i ==> is_ws(s@[k]),
            forall|k: int| j <= k < n ==> is_ws(s@[k]),
        decreases j,
    {
        j -= 1;
    }
    proof {
        let st = trim_start_s(s@);
        lemma_trim_start_at(s@, i as int);
        if j == i {
            lemma_trim_end_at(st, 0);
        } else {
            lemma_trim_end_at(st, j - i);
        }
        assert(st.subrange(0, j - i) =~= s@.subrange(i as int, j as int));
    }
    s.substring_char(i, j)
}

/// Collects the characters of a string slice into a vector.
pub fn chars_vec(s: &str) -> (v: Vec<char>)
    ensures
        v@ == s@,
{
    let n = s.unicode_len();
    let mut v: Vec<char> = Vec::new();
    let mut i: usize = 0;
    while i < n
        invariant
            0 <= i <= n,
            n == s@.len(),
            v@ =~= s@.subrange(0, i as int),
        decreases n - i,
    {
        v.push(s.get_char(i));
        proof {
            assert(v@ =~= s@.subrange(0, i + 1));
        }
        i += 1;
    }
    proof {
        assert(v@ =~= s@);
    }
    v
}

/// Character-for-character equality of two string slices.
pub fn str_eq(a: &str, b: &str) -> (r: bool)
    ensures
        r == (a@ == b@),
{
    let n = a.unicode_len();
    let m = b.unicode_len();
    if n != m {
        return false;
    }
    let mut i: usize = 0;
    while i < n
        invariant
            0 <= i <= n,
            n == a@.len(),
            n == b@.len(),
            forall|k: int| 0 <= k < i ==> a@[k] == b@[k],
        decreases n - i,
    {
        if a.get_char(i) != b.get_char(i) {
            return false;
        }
        i += 1;
    }
    proof {
        assert(a@ =~= b@);
    }
    true
}

/// The character sequences of a sequence of strings.
pub open spec fn views_of(v: Seq<String>) -> Seq<Seq<char>> {
    Seq::new(v.len(), |i: int| v[i]@)
}

/// Relies on `core::iter::Iterator::collect` for `String`: the collected
/// string holds exactly the characters of the source, in order.
#[verifier::external_body]
pub fn string_from_chars(v: &Vec<char>) -> (s: String)
    ensures
        s@ == v@,
{
    v.iter().collect()
}

/// The lower-case equivalent of a character sequence, as `str::to_lowercase`
/// computes it; named here because spelling out the Unicode case mapping is
/// not practical.
pub uninterp spec fn lower_of(s: Seq<char>) -> Seq<char>;

/// The upper-case equivalent of a character sequence, as `str::to_uppercase`
/// computes it.
pub uninterp spec fn upper_of(s: Seq<char>) -> Seq<char>;

/// Relies on `str::to_lowercase`: the result depends on the characters alone.
#[verifier::external_body]
pub fn lowercase(s: &str) -> (r: String)
    ensures
        r@ == lower_of(s@),
{
    s.to_lowercase()
}

/// Relies on `str::to_uppercase`: the result depends on the characters alone.
#[verifier::external_body]
pub fn uppercase(s: &str) -> (r: String)
    ensures
        r@ == upper_of(s@),
{
    s.to_uppercase()
}

/// `p` is a prefix of `s`.
pub open spec fn has_prefix(s: Seq<char>, p: Seq<char>) -> bool {
    s.len() >= p.len() && s.subrange(0, p.len() as int) == p
}

/// Exact executable counterpart of `has_prefix`.
pub fn starts_with_str(s: &str, p: &str) -> (r: bool)
    ensures
        r == has_prefix(s@, p@),
{
    let n = s.unicode_len();
    let m = p.unicode_len();
    if n < m {
        proof {
            assert(!has_prefix(s@, p@));
        }
        return false;
    }
    let mut i: usize = 0;
    while i < m
        invariant
            0 <= i <= m,
            m == p@.len(),
            n == s@.len(),
            n >= m,
            forall|k: int| 0 <= k < i ==> s@[k] == p@[k],
        decreases m - i,
    {
        if s.get_char(i) != p.get_char(i) {
            proof {
                assert(s@.subrange(0, m as int)[i as int] != p@[i as int]);
            }
            return false;
        }
        i += 1;
    }
    proof {
        assert(s@.subrange(0, m as int) =~= p@);
    }
    true
}

/// `sub` occurs somewhere in `s`.
pub open spec fn has_substring(s: Seq<char>, sub: Seq<char>) -> bool {
    exists|i: int|
        0 <= i <= s.len() - sub.len() && #[trigger] s.subrange(i, i + sub.len() as int) == sub
}

/// Exact executable counterpart of `has_substring`.
pub fn contains_str(s: &str, sub: &str) -> (r: bool)
    ensures
        r == has_substring(s@, sub@),
{
    let n = s.unicode_len();
    let m = sub.unicode_len();
    if m > n {
        return false;
    }
    if m == 0 {
        proof {
            assert(s@.subrange(0, 0 + sub@.len() as int) =~= sub@);
        }
        return true;
    }
    let mut i: usize = 0;
    while i <= n - m
        invariant
            0 <= i <= n - m + 1,
            1 <= m <= n,
            n == s@.len(),
            m == sub@.len(),
            forall|k: int| 0 <= k < i ==> #[trigger] s@.subrange(k, k + m as int) != sub@,
        decreases n + 1 - m - i,
    {
        let mut j: usize = 0;
        let mut hit = true;
        while j < m
            invariant
                0 <= j <= m,
                i + m <= n,
                n == s@.len(),
                m == sub@.len(),
                hit ==> forall|k: int| 0 <= k < j ==> s@[i + k] == sub@[k],
                !hit ==> s@.subrange(i as int, i + m as int) != sub@,
            decreases m - j,
        {
            if s.get_char(i + j) != sub.get_char(j) {
                proof {
                    assert(s@.subrange(i as int, i + m as int)[j as int] != sub@[j as int]);
                }
                hit = false;
                j = m;
            } else {
                j += 1;
            }
        }
        if hit {
            proof {
                assert(s@.subrange(i as int, i + m as int) =~= sub@);
            }
            return true;
        }
        i += 1;
    }
    false
}

/// The length of the longest white-space-free prefix of `s`.
pub open spec fn nonws_run(s: Seq<char>) -> nat
    decreases s.len(),
{
    if s.len() == 0 || is_ws(s[0]) {
        0
    } else {
        (1 + nonws_run(s.drop_first())) as nat
    }
}

pub proof fn lemma_nonws_run_bounds(s: Seq<char>)
    ensures
        nonws_run(s) <= s.len(),
        s.len() > 0 && !is_ws(s[0]) ==> nonws_run(s) >= 1,
        forall|k: int| 0 <= k < nonws_run(s) ==> !is_ws(s[k]),
        nonws_run(s) < s.len() ==> is_ws(s[nonws_run(s) as int]),
    decreases s.len(),
{
    if s.len() > 0 && !is_ws(s[0]) {
        let t = s.drop_first();
        lemma_nonws_run_bounds(t);
        assert forall|k: int| 0 <= k < nonws_run(s) implies !is_ws(s[k]) by {
            if k > 0 {
                assert(s[k] == t[k - 1]);
            }
        }
        if nonws_run(s) < s.len() {
            assert(s[nonws_run(s) as int] == t[nonws_run(t) as int]);
        }
    }
}

/// The white-space-separated tokens of `s`, in order.
pub open spec fn tokens_ws(s: Seq<char>) -> Seq<Seq<char>>
    decreases s.len(),
    via tokens_ws_dec
{
    if s.len() == 0 {
        Seq::empty()
    } else if is_ws(s[0]) {
        tokens_ws(s.drop_first())
    } else {
        seq![s.subrange(0, nonws_run(s) as int)] + tokens_ws(
            s.subrange(nonws_run(s) as int, s.len() as int),
        )
    }
}

#[via_fn]
proof fn tokens_ws_dec(s: Seq<char>) {
    lemma_nonws_run_bounds(s);
}

/// Skipping one leading white-space character drops no token.
proof fn lemma_tokens_ws_skip(s: Seq<char>, i: int)
    requires
        0 <= i < s.len(),
        is_ws(s[i]),
    ensures
        tokens_ws(s.subrange(i, s.len() as int)) == tokens_ws(s.subrange(i + 1, s.len() as int)),
{
    let a = s.subrange(i, s.len() as int);
    assert(a.drop_first() =~= s.subrange(i + 1, s.len() as int));
}

/// A maximal non-white-space run starting at `i` is the next token.
proof fn lemma_tokens_ws_run(s: Seq<char>, i: int, j: int)
    requires
        0 <= i < j <= s.len(),
        forall|k: int| i <= k < j ==> !is_ws(s[k]),
        j < s.len() ==> is_ws(s[j]),
    ensures
        tokens_ws(s.subrange(i, s.len() as int)) == seq![s.subrange(i, j)] + tokens_ws(
            s.subrange(j, s.len() as int),
        ),
{
    let a = s.subrange(i, s.len() as int);
    assert(!is_ws(a[0]));
    lemma_nonws_run_at(a, j - i);
    assert(a.subrange(0, j - i) =~= s.subrange(i, j));
    assert(a.subrange(j - i, a.len() as int) =~= s.subrange(j, s.len() as int));
}

/// Pins down `nonws_run` from the run's end.
proof fn lemma_nonws_run_at(s: Seq<char>, j: int)
    requires
        0 < j <= s.len(),
        forall|k: int| 0 <= k < j ==> !is_ws(s[k]),
        j < s.len() ==> is_ws(s[j]),
    ensures
        nonws_run(s) == j,
    decreases j,
{
    if j == 1 {
        if s.len() > 1 {
            assert(is_ws(s.drop_first()[0]));
            assert(nonws_run(s.drop_first()) == 0);
        } else {
            assert(s.drop_first().len() == 0);
            assert(nonws_run(s.drop_first()) == 0);
        }
        assert(nonws_run(s) == 1);
    } else {
        let t = s.drop_first();
        assert forall|k: int| 0 <= k < j - 1 implies !is_ws(t[k]) by {
            assert(t[k] == s[k + 1]);
        }
        assert(j - 1 < t.len() ==> is_ws(t[j - 1]));
        lemma_nonws_run_at(t, j - 1);
    }
}

/// Exact executable counterpart of `tokens_ws`: the white-space-separated
/// tokens of `s`, each as its own string.
pub fn split_ws_str(s: &str) -> (r: Vec<String>)
    ensures
        views_of(r@) == tokens_ws(s@),
{
    let n = s.unicode_len();
    let mut out: Vec<String> = Vec::new();
    let mut i: usize = 0;
    proof {
        assert(s@.subrange(0, n as int) =~= s@);
        assert(views_of(out@) =~= Seq::<Seq<char>>::empty());
    }
    while i < n
        invariant
            0 <= i <= n,
            n == s@.len(),
            tokens_ws(s@) =~= views_of(out@) + tokens_ws(s@.subrange(i as int, n as int)),
        decreases n - i,
    {
        if is_ws_char(s.get_char(i)) {
            proof {
                lemma_tokens_ws_skip(s@, i as int);
            }
            i += 1;
        } else {
            let mut j: usize = i + 1;
            while j < n && !is_ws_char(s.get_char(j))
                invariant
                    i < j <= n,
                    n == s@.len(),
                    forall|k: int| i <= k < j ==> !is_ws(s@[k]),
                decreases n - j,
            {
                j += 1;
            }
            let tok = s.substring_char(i, j).to_owned();
            let ghost prev = out@;
            out.push(tok);
            proof {
                lemma_tokens_ws_run(s@, i as int, j as int);
                assert(views_of(out@) =~= views_of(prev) + seq![s@.subrange(i as int, j as int)]);
                assert(tokens_ws(s@) =~= views_of(out@) + tokens_ws(
                    s@.subrange(j as int, n as int),
                ));
            }
            i = j;
        }
    }
    proof {
        assert(s@.subrange(n as int, n as int).len() == 0);
        assert(views_of(out@) =~= tokens_ws(s@));
    }
    out
}

/// The first position at or after `i` holding the character `c`, or the end.
pub open spec fn until_char(s: Seq<char>, i: int, c: char) -> int
    decreases s.len() - i,
{
    if i < 0 || i >= s.len() || s[i] == c {
        i
    } else {
        until_char(s, i + 1, c)
    }
}

pub proof fn lemma_until_char_bounds(s: Seq<char>, i: int, c: char)
    requires
        0 <= i <= s.len(),
    ensures
        i <= until_char(s, i, c) <= s.len(),
        forall|k: int| i <= k < until_char(s, i, c) ==> s[k] != c,
        until_char(s, i, c) < s.len() ==> s[until_char(s, i, c)] == c,
    decreases s.len() - i,
{
    if i < s.len() && s[i] != c {
        lemma_until_char_bounds(s, i + 1, c);
    }
}

/// The numeric value of a sequence of decimal digits, most significant first.
pub open spec fn digits_value(s: Seq<char>) -> int
    decreases s.len(),
{
    if s.len() == 0 {
        0
    } else {
        digits_value(s.drop_last()) * 10 + (s.last() as int - '0' as int)
    }
}

/// Every character is a decimal digit.
pub open spec fn all_digits(s: Seq<char>) -> bool {
    forall|k: int| 0 <= k < s.len() ==> '0' <= #[trigger] s[k] && s[k] <= '9'
}

/// What parsing a 16-bit decimal number yields: the digits' value when the
/// text is one or more decimal digits whose value fits, nothing otherwise.
pub open spec fn parse_u16_s(s: Seq<char>) -> Option<u16> {
    if s.len() > 0 && all_digits(s) && digits_value(s) <= u16::MAX {
        Some(digits_value(s) as u16)
    } else {
        None
    }
}

/// Exact executable counterpart of `parse_u16_s`.
pub fn parse_u16_str(s: &str) -> (r: Option<u16>)
    ensures
        r == parse_u16_s(s@),
{
    let n = s.unicode_len();
    if n == 0 {
        return None;
    }
    let mut val: u16 = 0;
    let mut i: usize = 0;
    while i < n
        invariant
            0 <= i <= n,
            n == s@.len(),
            n > 0,
            all_digits(s@.subrange(0, i as int)),
            val == digits_value(s@.subrange(0, i as int)),
        decreases n - i,
    {
        let c = s.get_char(i);
        if c < '0' || c > '9' {
            proof {
                lemma_digit_break(s@, i as int);
            }
            return None;
        }
        let d: u16 = (c as u32 - '0' as u32) as u16;
        if val > 6553 || (val == 6553 && d > 5) {
            proof {
                lemma_digits_grow(s@, i as int);
            }
            return None;
        }
        val = val * 10 + d;
        proof {
            assert(s@.subrange(0, i + 1).drop_last() =~= s@.subrange(0, i as int));
            assert(all_digits(s@.subrange(0, i + 1)));
        }
        i += 1;
    }
    proof {
        assert(s@.subrange(0, n as int) =~= s@);
    }
    Some(val)
}

proof fn lemma_digit_break(s: Seq<char>, i: int)
    requires
        0 <= i < s.len(),
        !('0' <= s[i] && s[i] <= '9'),
    ensures
        parse_u16_s(s) is None,
{
    assert(!all_digits(s));
}

/// Once the accumulated prefix value exceeds what one more digit could keep
/// within `u16::MAX`, the whole digit string's value is out of range.
proof fn lemma_digits_grow(s: Seq<char>, i: int)
    requires
        0 <= i < s.len(),
        all_digits(s.subrange(0, i)),
        '0' <= s[i] && s[i] <= '9',
        digits_value(s.subrange(0, i)) * 10 + (s[i] as int - '0' as int) > u16::MAX,
    ensures
        all_digits(s) ==> digits_value(s) > u16::MAX,
    decreases s.len() - i,
{
    if all_digits(s) {
        lemma_digits_nonneg_mono(s, i + 1);
        assert(s.subrange(0, i + 1).drop_last() =~= s.subrange(0, i));
        assert(digits_value(s.subrange(0, i + 1)) > u16::MAX);
    }
}

/// The value of a digit string is at least the value of any of its prefixes.
proof fn lemma_digits_nonneg_mono(s: Seq<char>, i: int)
    requires
        0 <= i <= s.len(),
        all_digits(s),
    ensures
        digits_value(s) >= digits_value(s.subrange(0, i)) >= 0,
    decreases s.len(),
{
    if s.len() == 0 {
        assert(s.subrange(0, i) =~= s);
    } else if i == s.len() {
        assert(s.subrange(0, i) =~= s);
        lemma_digits_nonneg_mono(s.drop_last(), 0);
        assert(s.drop_last().subrange(0, 0) =~= Seq::<char>::empty());
    } else {
        let t = s.drop_last();
        assert(all_digits(t));
        assert(t.subrange(0, i) =~= s.subrange(0, i));
        lemma_digits_nonneg_mono(t, i);
    }
}


/// Trimming is idempotent: a trimmed text neither starts nor ends with white
/// space.
pub proof fn lemma_trim_idempotent(s: Seq<char>)
    ensures
        trim_s(trim_s(s)) == trim_s(s),
{
    lemma_trim_start_props(s);
    let a = trim_start_s(s);
    lemma_trim_end_props(a);
    let t = trim_s(s);
    if t.len() > 0 {
        assert(!is_ws(t[0]));
        lemma_trim_start_at(t, 0);
        assert(trim_start_s(t) =~= t);
        assert(!is_ws(t.last()));
        lemma_trim_end_at(t, t.len() as int);
        assert(trim_end_s(t) =~= t);
    } else {
        assert(trim_start_s(t) == t);
        assert(trim_end_s(t) == t);
    }
}

proof fn lemma_trim_start_props(s: Seq<char>)
    ensures
        trim_start_s(s).len() > 0 ==> !is_ws(trim_start_s(s)[0]),
    decreases s.len(),
{
    if s.len() > 0 && is_ws(s[0]) {
        lemma_trim_start_props(s.drop_first());
    }
}

proof fn lemma_trim_end_props(s: Seq<char>)
    ensures
        trim_end_s(s).len() > 0 ==> !is_ws(trim_end_s(s).last()),
        s.len() > 0 && !is_ws(s[0]) && trim_end_s(s).len() > 0 ==> !is_ws(trim_end_s(s)[0]),
        s.len() > 0 && !is_ws(s[0]) ==> (trim_end_s(s).len() > 0 || s.len() == 0),
        s.len() > 0 && !is_ws(s[0]) ==> trim_end_s(s).len() > 0,
    decreases s.len(),
{
    if s.len() > 0 && is_ws(s.last()) {
        lemma_trim_end_props(s.drop_last());
        if s.len() > 0 && !is_ws(s[0]) {
            assert(s.drop_last().len() > 0);
            assert(s.drop_last()[0] == s[0]);
        }
    }
}

/// What precedes the first occurrence of `c` in `s` (all of `s` when there
/// is none); exact executable counterpart of the `until_char` prefix.
pub fn cut_at_char(s: &str, c: char) -> (r: String)
    ensures
        r@ == s@.subrange(0, until_char(s@, 0, c)),
{
    let n = s.unicode_len();
    let mut k: usize = 0;
    while k < n && s.get_char(k) != c
        invariant
            0 <= k <= n,
            n == s@.len(),
            until_char(s@, 0, c) == until_char(s@, k as int, c),
        decreases n - k,
    {
        k += 1;
    }
    proof {
        assert(until_char(s@, 0, c) == k as int);
    }
    s.substring_char(0, k).to_owned()
}

/// The concatenation of the texts from `i` on.
pub open spec fn concat_at(ts: Seq<Seq<char>>, i: int) -> Seq<char>
    decreases ts.len() - i,
{
    if i < 0 || i >= ts.len() {
        Seq::empty()
    } else {
        ts[i] + concat_at(ts, i + 1)
    }
}

/// Concatenates a list of strings; exact counterpart of `concat_at` from
/// position zero.
#[verifier::loop_isolation(false)]
pub fn concat_strings(v: &Vec<String>) -> (r: String)
    ensures
        r@ == concat_at(views_of(v@), 0),
{
    let ghost tsv = views_of(v@);
    let n = v.len();
    let mut out = String::new();
    let mut i: usize = 0;
    while i < n
        invariant
            0 <= i <= n,
            out@ + concat_at(tsv, i as int) =~= concat_at(tsv, 0),
        decreases n - i,
    {
        proof {
            assert(tsv[i as int] == v@[i as int]@);
        }
        out.append(v[i].as_str());
        i += 1;
    }
    proof {
        assert(out@ =~= concat_at(tsv, 0));
    }
    out
}

/// Whether a character counts as alphabetic, as `char::is_alphabetic`
/// decides it; named here because spelling out the Unicode property is not
/// practical.
pub uninterp spec fn is_alpha_char(c: char) -> bool;

/// Relies on `char::is_alphabetic`: the result depends on the character
/// alone.
#[verifier::external_body]
pub fn char_is_alphabetic(c: char) -> (r: bool)
    ensures
        r == is_alpha_char(c),
{
    c.is_alphabetic()
}

/// The alphabetic characters of `s` from `i` on, in order.
pub open spec fn alpha_at(s: Seq<char>, i: int) -> Seq<char>
    decreases s.len() - i,
{
    if i < 0 || i >= s.len() {
        Seq::empty()
    } else {
        (if is_alpha_char(s[i]) {
            seq![s[i]]
        } else {
            Seq::empty()
        }) + alpha_at(s, i + 1)
    }
}

/// Keeps only the alphabetic characters; exact counterpart of `alpha_at`
/// from position zero.
#[verifier::loop_isolation(false)]
pub fn alpha_only(s: &str) -> (r: String)
    ensures
        r@ == alpha_at(s@, 0),
{
    let n = s.unicode_len();
    let mut out: Vec<char> = Vec::new();
    let mut i: usize = 0;
    while i < n
        invariant
            0 <= i <= n,
            out@ + alpha_at(s@, i as int) =~= alpha_at(s@, 0),
        decreases n - i,
    {
        let c = s.get_char(i);
        if char_is_alphabetic(c) {
            out.push(c);
        }
        i += 1;
    }
    let r = string_from_chars(&out);
    proof {
        assert(out@ =~= alpha_at(s@, 0));
    }
    r
}

} // verus!
