//! What every per-fact builder shares: the error classes, the shape of a
//! per-row outcome, and small helpers over scanned row records.

use vstd::prelude::*;
use crate::scan::{FoundG, RowG, ScanError};

verus! {

/// Why a builder failed as a whole. Row-level problems (an unresolved name, a
/// duplicate key for a unique-per-key fact) skip the row instead and never
/// appear here.
#[derive(Debug, Clone, Copy, PartialEq, Eq, Structural)]
pub enum BuildError {
    /// The document holds no table at all.
    NoTables,
    /// A configured column selector is malformed.
    BadSelector,
    /// A structurally required column held an unexpected shape.
    SchemaShape,
    /// A required field's value is structurally impossible.
    BadField,
    /// An upstream input that must not be empty was empty.
    EmptyInput,
    /// Two rows produced the same key where keys must be unique.
    DuplicateKey,
}

/// A scan failure seen as a builder failure.
pub open spec fn of_scan(e: ScanError) -> BuildError {
    match e {
        ScanError::NoTables => BuildError::NoTables,
        ScanError::BadSelector => BuildError::BadSelector,
    }
}

/// What one scanned row contributes to a build: a fatal error, nothing, or a
/// value to merge.
pub enum RowOut<T> {
    Fatal(BuildError),
    Skip,
    Take(T),
}

/// The record's entry for column `j`: present only when the row has such a
/// cell and the schema put a rule on it.
pub open spec fn col_of(m: RowG, j: int) -> Option<FoundG> {
    if 0 <= j < m.len() {
        m[j]
    } else {
        None
    }
}

/// A key occurs among the accumulated pairs.
pub open spec fn pairs_has_key<T>(s: Seq<(Seq<char>, T)>, k: Seq<char>) -> bool {
    exists|i: int| 0 <= i < s.len() && (#[trigger] s[i]).0 == k
}

/// The views of a registry's entries, key text first.
pub open spec fn reg_views<V: View>(items: Seq<(crate::ident::Identifier, V)>) -> Seq<
    (Seq<char>, V::V),
> {
    Seq::new(items.len(), |i: int| (items[i].0@, items[i].1@))
}

/// The first at most two entries, each trimmed.
pub open spec fn take2_trimmed(ts: Seq<Seq<char>>) -> Seq<Seq<char>> {
    if ts.len() >= 2 {
        seq![crate::text::trim_s(ts[0]), crate::text::trim_s(ts[1])]
    } else if ts.len() == 1 {
        seq![crate::text::trim_s(ts[0])]
    } else {
        Seq::empty()
    }
}

/// The entry at `k`, if the sequence is that long.
pub open spec fn nth_opt(ts: Seq<Seq<char>>, k: int) -> Option<Seq<char>> {
    if 0 <= k < ts.len() {
        Some(ts[k])
    } else {
        None
    }
}

/// Trims each of the first at most two strings; exact counterpart of
/// `take2_trimmed`.
pub fn take2_trim(ts: &Vec<String>) -> (r: Vec<String>)
    ensures
        crate::text::views_of(r@) == take2_trimmed(crate::text::views_of(ts@)),
{
    let mut out: Vec<String> = Vec::new();
    if ts.len() >= 1 {
        out.push(crate::text::trim_str(ts[0].as_str()).to_owned());
    }
    if ts.len() >= 2 {
        out.push(crate::text::trim_str(ts[1].as_str()).to_owned());
    }
    proof {
        assert(crate::text::views_of(out@) =~= take2_trimmed(crate::text::views_of(ts@)));
    }
    out
}

/// The `k`-th string, if the list is that long; exact counterpart of
/// `nth_opt`.
pub fn nth_str(v: &Vec<String>, k: usize) -> (r: Option<&String>)
    ensures
        r is Some <==> nth_opt(crate::text::views_of(v@), k as int) is Some,
        r matches Some(s) ==> nth_opt(crate::text::views_of(v@), k as int) == Some(s@),
{
    if k < v.len() {
        proof {
            assert(crate::text::views_of(v@)[k as int] == v@[k as int]@);
        }
        Some(&v[k])
    } else {
        None
    }
}

/// A registry holds a key exactly when its entry views do.
pub proof fn lemma_has_key_views<V: View>(items: Seq<(crate::ident::Identifier, V)>, k: Seq<char>)
    ensures
        crate::registry::has_key(items, k) <==> pairs_has_key(reg_views(items), k),
{
    crate::registry::lemma_find_at_bounds(items, k, 0);
    if crate::registry::has_key(items, k) {
        match crate::registry::find_at(items, k, 0) {
            Some(j) => {
                assert((reg_views(items)[j]).0 == k);
            },
            None => {
            },
        }
    }
    if pairs_has_key(reg_views(items), k) {
        let i = choose|i: int| 0 <= i < reg_views(items).len() && (#[trigger] reg_views(items)[i]).0
            == k;
        assert(items[i].0@ == k);
    }
}

/// Copies a list of strings, keeping every entry equal.
pub fn clone_strings(v: &Vec<String>) -> (r: Vec<String>)
    ensures
        r@ == v@,
{
    let n = v.len();
    let mut out: Vec<String> = Vec::new();
    let mut i: usize = 0;
    while i < n
        invariant
            0 <= i <= n,
            n == v@.len(),
            out@ =~= v@.subrange(0, i as int),
        decreases n - i,
    {
        out.push(v[i].clone());
        proof {
            assert(out@ =~= v@.subrange(0, i + 1));
        }
        i += 1;
    }
    proof {
        assert(out@ =~= v@);
    }
    out
}

/// Copies a list of identifiers, keeping every entry equal.
pub fn clone_idents(v: &Vec<crate::ident::Identifier>) -> (r: Vec<crate::ident::Identifier>)
    ensures
        r@ == v@,
{
    let n = v.len();
    let mut out: Vec<crate::ident::Identifier> = Vec::new();
    let mut i: usize = 0;
    while i < n
        invariant
            0 <= i <= n,
            n == v@.len(),
            out@ =~= v@.subrange(0, i as int),
        decreases n - i,
    {
        out.push(v[i].clone());
        proof {
            assert(out@ =~= v@.subrange(0, i + 1));
        }
        i += 1;
    }
    proof {
        assert(out@ =~= v@);
    }
    out
}


/// The first position at or after `i` among the accumulated pairs whose key
/// is `k`.
pub open spec fn pairs_find_at<T>(s: Seq<(Seq<char>, T)>, k: Seq<char>, i: int) -> Option<int>
    decreases s.len() - i,
{
    if i < 0 || i >= s.len() {
        None
    } else if s[i].0 == k {
        Some(i)
    } else {
        pairs_find_at(s, k, i + 1)
    }
}

/// Insert-or-replace on the accumulated pairs: an existing key's entry is
/// replaced in place, a new key is appended.
pub open spec fn pairs_set<T>(s: Seq<(Seq<char>, T)>, k: Seq<char>, v: T) -> Seq<(Seq<char>, T)> {
    match pairs_find_at(s, k, 0) {
        Some(i) => s.update(i, (k, v)),
        None => s.push((k, v)),
    }
}

/// Key lookup agrees between a registry's entries and their views.
pub proof fn lemma_find_views<V: View>(
    items: Seq<(crate::ident::Identifier, V)>,
    k: Seq<char>,
    i: int,
)
    ensures
        pairs_find_at(reg_views(items), k, i) == crate::registry::find_at(items, k, i),
    decreases items.len() - i,
{
    if 0 <= i < items.len() {
        assert(reg_views(items)[i] == (items[i].0@, items[i].1@));
        lemma_find_views(items, k, i + 1);
    }
}


pub proof fn lemma_pairs_find_bounds<T>(s: Seq<(Seq<char>, T)>, k: Seq<char>, i: int)
    requires
        0 <= i <= s.len(),
    ensures
        pairs_find_at(s, k, i) matches Some(j) ==> (i <= j < s.len() && s[j].0 == k),
    decreases s.len() - i,
{
    if i < s.len() && s[i].0 != k {
        lemma_pairs_find_bounds(s, k, i + 1);
    }
}


/// The first raw entry from `i` on whose trimmed length is exactly `l`.
pub open spec fn first_trim_len_at(ts: Seq<Seq<char>>, l: int, i: int) -> Option<Seq<char>>
    decreases ts.len() - i,
{
    if i < 0 || i >= ts.len() {
        None
    } else if crate::text::trim_s(ts[i]).len() == l {
        Some(ts[i])
    } else {
        first_trim_len_at(ts, l, i + 1)
    }
}

/// Exact executable counterpart of `first_trim_len_at` from position zero.
#[verifier::loop_isolation(false)]
pub fn first_trim_len(v: &Vec<String>, l: usize) -> (r: Option<&String>)
    ensures
        r is Some <==> first_trim_len_at(crate::text::views_of(v@), l as int, 0) is Some,
        r matches Some(s) ==> first_trim_len_at(crate::text::views_of(v@), l as int, 0) == Some(
            s@,
        ),
{
    let ghost tsv = crate::text::views_of(v@);
    let n = v.len();
    let mut i: usize = 0;
    while i < n
        invariant
            0 <= i <= n,
            first_trim_len_at(tsv, l as int, 0) == first_trim_len_at(tsv, l as int, i as int),
        decreases n - i,
    {
        proof {
            assert(tsv[i as int] == v@[i as int]@);
        }
        if crate::text::trim_str(v[i].as_str()).unicode_len() == l {
            return Some(&v[i]);
        }
        i += 1;
    }
    None
}

/// The first entry from `i` on whose trimmed text parses as a 16-bit decimal
/// number: that number.
pub open spec fn first_parse_u16_at(ts: Seq<Seq<char>>, i: int) -> Option<u16>
    decreases ts.len() - i,
{
    if i < 0 || i >= ts.len() {
        None
    } else {
        match crate::text::parse_u16_s(crate::text::trim_s(ts[i])) {
            Some(u) => Some(u),
            None => first_parse_u16_at(ts, i + 1),
        }
    }
}

/// Exact executable counterpart of `first_parse_u16_at` from position zero.
#[verifier::loop_isolation(false)]
pub fn first_parse_u16(v: &Vec<String>) -> (r: Option<u16>)
    ensures
        r == first_parse_u16_at(crate::text::views_of(v@), 0),
{
    let ghost tsv = crate::text::views_of(v@);
    let n = v.len();
    let mut i: usize = 0;
    while i < n
        invariant
            0 <= i <= n,
            first_parse_u16_at(tsv, 0) == first_parse_u16_at(tsv, i as int),
        decreases n - i,
    {
        proof {
            assert(tsv[i as int] == v@[i as int]@);
        }
        match crate::text::parse_u16_str(crate::text::trim_str(v[i].as_str())) {
            Some(u) => {
                return Some(u);
            },
            None => {
            },
        }
        i += 1;
    }
    None
}

} // verus!
