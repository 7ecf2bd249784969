//! The canonical identifier of a territory, derived deterministically from a
//! display name: trim, lower-case, cut at the first comma, then replace
//! spaces and dashes with underscores.

use vstd::prelude::*;
use crate::text::{
    chars_vec, lemma_until_char_bounds, lower_of, lowercase, string_from_chars, trim_s, trim_str,
    until_char,
};

verus! {

/// What precedes the first comma of `s` (all of `s` when it has none).
pub open spec fn cut_comma_s(s: Seq<char>) -> Seq<char> {
    s.subrange(0, until_char(s, 0, ','))
}

/// `s` with every space and dash replaced by an underscore.
pub open spec fn underscored(s: Seq<char>) -> Seq<char> {
    Seq::new(s.len(), |i: int| if s[i] == ' ' || s[i] == '-' {
        '_'
    } else {
        s[i]
    })
}

/// The comma-cut and separator-replacement stages of canonicalization.
pub open spec fn canon_tail(s: Seq<char>) -> Seq<char> {
    underscored(cut_comma_s(s))
}

/// The canonical form of a display name: trimmed, lower-cased, cut at the
/// first comma, spaces and dashes replaced by underscores, in that order.
pub open spec fn canon_of(s: Seq<char>) -> Seq<char> {
    canon_tail(lower_of(trim_s(s)))
}

/// The comma-cut and separator-replacement stages are idempotent: their
/// result holds no comma, no space and no dash, so applying them again
/// changes nothing. (The full canonicalization also trims and lower-cases
/// first, and those two stages are not covered here: a white-space character
/// other than a space that survives just before the first comma is trimmed
/// only by a second application.)
pub proof fn lemma_canon_tail_idempotent(s: Seq<char>)
    ensures
        canon_tail(canon_tail(s)) == canon_tail(s),
{
    let t = canon_tail(s);
    lemma_until_char_bounds(s, 0, ',');
    assert forall|k: int| 0 <= k < t.len() implies t[k] != ',' && t[k] != ' ' && t[k] != '-' by {
        assert(cut_comma_s(s)[k] == s[k]);
        assert(s[k] != ',');
    }
    lemma_until_char_bounds(t, 0, ',');
    assert(until_char(t, 0, ',') == t.len() as int) by {
        if until_char(t, 0, ',') < t.len() {
            assert(t[until_char(t, 0, ',')] == ',');
        }
    }
    assert(cut_comma_s(t) =~= t);
    assert(underscored(t) =~= t);
}

/// The canonical key for a territory.
pub struct Identifier(pub String);

impl View for Identifier {
    type V = Seq<char>;

    open spec fn view(&self) -> Seq<char> {
        self.0@
    }
}

impl Clone for Identifier {
    fn clone(&self) -> (r: Self)
        ensures
            r == *self,
    {
        Identifier(self.0.clone())
    }
}

impl Identifier {
    /// Derives the canonical identifier from a display name; exact
    /// counterpart of `canon_of`.
    pub fn new(exonym: &str) -> (r: Identifier)
        ensures
            r@ == canon_of(exonym@),
    {
        let t = trim_str(exonym);
        let lc = lowercase(t);
        let v = chars_vec(lc.as_str());
        let n = v.len();
        let ghost sv = lc@;
        let mut k: usize = 0;
        while k < n && v[k] != ','
            invariant
                0 <= k <= n,
                n == sv.len(),
                v@ == sv,
                until_char(sv, 0, ',') == until_char(sv, k as int, ','),
            decreases n - k,
        {
            k += 1;
        }
        proof {
            assert(until_char(sv, 0, ',') == k as int);
        }
        let mut out: Vec<char> = Vec::new();
        let mut i: usize = 0;
        while i < k
            invariant
                0 <= i <= k <= n,
                n == sv.len(),
                v@ == sv,
                out@.len() == i,
                forall|q: int|
                    0 <= q < i ==> out@[q] == (if sv[q] == ' ' || sv[q] == '-' {
                        '_'
                    } else {
                        sv[q]
                    }),
            decreases k - i,
        {
            let c = v[i];
            if c == ' ' || c == '-' {
                out.push('_');
            } else {
                out.push(c);
            }
            i += 1;
        }
        let s = string_from_chars(&out);
        proof {
            assert(cut_comma_s(sv) =~= sv.subrange(0, k as int));
            assert(s@ =~= underscored(cut_comma_s(sv)));
        }
        Identifier(s)
    }

    /// The identifier's text.
    pub fn as_str(&self) -> (r: &str)
        ensures
            r@ == self@,
    {
        self.0.as_str()
    }

    /// Whether two identifiers are the same key.
    pub fn same(&self, other: &Identifier) -> (r: bool)
        ensures
            r == (self@ == other@),
    {
        crate::text::str_eq(self.0.as_str(), other.0.as_str())
    }
}

} // verus!
