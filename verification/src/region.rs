//! Territorial entries: the ISO-3166-style codes with their fixed-shape
//! invariants, the `Region` entity, and the entity resolver that maps a
//! free-text display name to an already-known region.

use vstd::prelude::*;
use crate::builders::BuildError;
use crate::ident::Identifier;
use crate::registry::{alias_match_at, find_at, AliasTable, Registry};
use crate::text::{has_prefix, lower_of, trim_s, upper_of};

verus! {

/// The two-letter, three-letter and numeric territorial codes.
pub struct Iso3166_1 {
    pub a2: String,
    pub a3: String,
    pub num: u16,
}

/// The mathematical shape of an `Iso3166_1`.
pub struct Iso1G {
    pub a2: Seq<char>,
    pub a3: Seq<char>,
    pub num: u16,
}

impl View for Iso3166_1 {
    type V = Iso1G;

    open spec fn view(&self) -> Iso1G {
        (Iso1G { a2: self.a2@, a3: self.a3@, num: self.num })
    }
}

impl Clone for Iso3166_1 {
    fn clone(&self) -> (r: Self)
        ensures
            r == *self,
    {
        Iso3166_1 { a2: self.a2.clone(), a3: self.a3.clone(), num: self.num }
    }
}

impl Iso3166_1 {
    /// Accepts exactly a two-character code, a three-character code and a
    /// numeric code of at most three digits.
    pub fn new(a2: String, a3: String, num: u16) -> (r: Result<Self, BuildError>)
        ensures
            r is Ok <==> (a2@.len() == 2 && a3@.len() == 3 && num <= 999),
            r matches Ok(v) ==> (v.a2@ == a2@ && v.a3@ == a3@ && v.num == num),
            r matches Err(e) ==> e == BuildError::BadField,
    {
        if a2.as_str().unicode_len() != 2 {
            return Err(BuildError::BadField);
        }
        if a3.as_str().unicode_len() != 3 {
            return Err(BuildError::BadField);
        }
        if num > 999 {
            return Err(BuildError::BadField);
        }
        Ok(Self { a2, a3, num })
    }
}

/// The subdivision-standard reference, a fixed eleven-character prefix plus a
/// two-letter suffix.
pub struct Iso3166_2(pub String);

impl View for Iso3166_2 {
    type V = Seq<char>;

    open spec fn view(&self) -> Seq<char> {
        self.0@
    }
}

impl Clone for Iso3166_2 {
    fn clone(&self) -> (r: Self)
        ensures
            r == *self,
    {
        Iso3166_2(self.0.clone())
    }
}

impl Iso3166_2 {
    /// Accepts exactly the trimmed, upper-cased text when it starts with
    /// `ISO 3166-2:` and is thirteen characters long, and keeps that form.
    pub fn new(s: String) -> (r: Result<Self, BuildError>)
        ensures
            r is Ok <==> (has_prefix(upper_of(trim_s(s@)), "ISO 3166-2:"@) && upper_of(
                trim_s(s@),
            ).len() == 13),
            r matches Ok(v) ==> v.0@ == upper_of(trim_s(s@)),
            r matches Err(e) ==> e == BuildError::BadField,
    {
        let clean = crate::text::uppercase(crate::text::trim_str(s.as_str()));
        if crate::text::starts_with_str(clean.as_str(), "ISO 3166-2:") && clean.as_str()
            .unicode_len() == 13 {
            Ok(Self(clean))
        } else {
            Err(BuildError::BadField)
        }
    }
}

/// Cleaning the domain entries from `i` on: each trimmed and lower-cased
/// entry must be a three-character `.xx` form; nothing when one is not.
pub open spec fn tld_clean_at(vs: Seq<Seq<char>>, i: int) -> Option<Seq<Seq<char>>>
    decreases vs.len() - i,
{
    if i < 0 || i >= vs.len() {
        Some(Seq::empty())
    } else {
        let c = lower_of(trim_s(vs[i]));
        if has_prefix(c, "."@) && c.len() == 3 {
            match tld_clean_at(vs, i + 1) {
                None => None,
                Some(rest) => Some(seq![c] + rest),
            }
        } else {
            None
        }
    }
}

/// The top-level domains of a territory: a non-empty list, each entry a
/// three-character `.xx` form.
pub struct Tld(pub Vec<String>);

impl View for Tld {
    type V = Seq<Seq<char>>;

    open spec fn view(&self) -> Seq<Seq<char>> {
        crate::text::views_of(self.0@)
    }
}

impl Clone for Tld {
    fn clone(&self) -> (r: Self)
        ensures
            r@ == self@,
    {
        Tld(crate::builders::clone_strings(&self.0))
    }
}

impl Tld {
    /// Trims and lower-cases every entry, accepting the list only when it is
    /// non-empty and every entry then matches the `.xx` form; exact
    /// counterpart of `tld_clean_at` from position zero on a non-empty list.
    pub fn new(v: Vec<String>) -> (r: Result<Self, BuildError>)
        ensures
            r is Ok <==> (v@.len() > 0 && tld_clean_at(crate::text::views_of(v@), 0) is Some),
            r matches Ok(t) ==> tld_clean_at(crate::text::views_of(v@), 0) == Some(t@),
            r matches Err(e) ==> e == BuildError::BadField,
    {
        let ghost vs = crate::text::views_of(v@);
        let n = v.len();
        if n == 0 {
            return Err(BuildError::BadField);
        }
        let mut out: Vec<String> = Vec::new();
        let mut i: usize = 0;
        while i < n
            invariant
                0 <= i <= n,
                n == v@.len(),
                vs == crate::text::views_of(v@),
                crate::text::views_of(out@).len() == i,
                tld_clean_at(vs, 0) == (match tld_clean_at(vs, i as int) {
                    None => None::<Seq<Seq<char>>>,
                    Some(rest) => Some(crate::text::views_of(out@) + rest),
                }),
            decreases n - i,
        {
            proof {
                assert(vs[i as int] == v@[i as int]@);
            }
            let ghost outprev = crate::text::views_of(out@);
            let clean = crate::text::lowercase(crate::text::trim_str(v[i].as_str()));
            if crate::text::starts_with_str(clean.as_str(), ".") && clean.as_str().unicode_len()
                == 3 {
                let ghost cv = clean@;
                out.push(clean);
                proof {
                    assert(crate::text::views_of(out@) =~= outprev + seq![cv]);
                    match tld_clean_at(vs, i + 1) {
                        Some(rest) => {
                            assert((outprev + (seq![cv] + rest)) =~= ((outprev + seq![cv]) + rest));
                        },
                        None => {
                        },
                    }
                }
            } else {
                proof {
                    assert(tld_clean_at(vs, i as int) is None);
                }
                return Err(BuildError::BadField);
            }
            i += 1;
        }
        proof {
            assert(tld_clean_at(vs, n as int) == Some(Seq::<Seq<char>>::empty()));
            match tld_clean_at(vs, 0) {
                Some(c) => {
                    assert(c =~= crate::text::views_of(out@));
                },
                None => {
                },
            }
        }
        Ok(Self(out))
    }
}

/// One territorial entry, keyed by the identifier derived from its
/// two-letter code.
pub struct Region {
    pub name: String,
    pub state_name: String,
    pub un_member: bool,
    pub sovereignity: Identifier,
    pub iso_3166_1: Iso3166_1,
    pub iso_3166_2: Iso3166_2,
    pub tld: Tld,
}

/// The mathematical shape of a `Region`.
pub struct RegionG {
    pub name: Seq<char>,
    pub state_name: Seq<char>,
    pub un_member: bool,
    pub sovereignity: Seq<char>,
    pub iso_3166_1: Iso1G,
    pub iso_3166_2: Seq<char>,
    pub tld: Seq<Seq<char>>,
}

impl View for Region {
    type V = RegionG;

    open spec fn view(&self) -> RegionG {
        (RegionG {
            name: self.name@,
            state_name: self.state_name@,
            un_member: self.un_member,
            sovereignity: self.sovereignity@,
            iso_3166_1: self.iso_3166_1@,
            iso_3166_2: self.iso_3166_2@,
            tld: self.tld@,
        })
    }
}

impl Clone for Region {
    fn clone(&self) -> (r: Self)
        ensures
            r@ == self@,
    {
        Region {
            name: self.name.clone(),
            state_name: self.state_name.clone(),
            un_member: self.un_member,
            sovereignity: self.sovereignity.clone(),
            iso_3166_1: self.iso_3166_1.clone(),
            iso_3166_2: self.iso_3166_2.clone(),
            tld: self.tld.clone(),
        }
    }
}

impl Region {
    /// Plain constructor; every field is kept as given.
    pub fn new(
        name: String,
        state_name: String,
        sovereignity: Identifier,
        un_member: bool,
        iso_3166_1: Iso3166_1,
        iso_3166_2: Iso3166_2,
        tld: Tld,
    ) -> (r: Self)
        ensures
            r.name@ == name@,
            r.state_name@ == state_name@,
            r.sovereignity@ == sovereignity@,
            r.un_member == un_member,
            r.iso_3166_1 == iso_3166_1,
            r.iso_3166_2 == iso_3166_2,
            r.tld == tld,
    {
        Self { name, state_name, un_member, sovereignity, iso_3166_1, iso_3166_2, tld }
    }
}

/// Why a name could not be resolved: no registry entry matched any supplied
/// candidate, or no candidate was supplied at all (a caller bug).
#[derive(Debug, Clone, Copy, PartialEq, Eq, Structural)]
pub enum ResolveError {
    NotFound,
    InvalidArguments,
}

/// The first region at or after `i` whose name or official state name
/// lower-cases to `target`.
pub open spec fn reg_match_at(
    items: Seq<(Identifier, Region)>,
    target: Seq<char>,
    i: int,
) -> Option<int>
    decreases items.len() - i,
{
    if i < 0 || i >= items.len() {
        None
    } else if lower_of(items[i].1.name@) == target || lower_of(items[i].1.state_name@)
        == target {
        Some(i)
    } else {
        reg_match_at(items, target, i + 1)
    }
}

/// Resolving one candidate name: first the registry entries' two name
/// fields, then the alias table (whose hit must name a registry key), each
/// case-insensitively against the trimmed candidate; the result is the index
/// of the resolved registry entry.
pub open spec fn try_opt_s(
    cand: Option<Seq<char>>,
    aliases: Option<Seq<(Identifier, Vec<String>)>>,
    items: Seq<(Identifier, Region)>,
) -> Option<int> {
    match cand {
        None => None,
        Some(c) => {
            let target = lower_of(trim_s(c));
            match reg_match_at(items, target, 0) {
                Some(i) => Some(i),
                None => match aliases {
                    None => None,
                    Some(al) => match alias_match_at(al, target, 0) {
                        Some(j) => find_at(items, al[j].0@, 0),
                        None => None,
                    },
                },
            }
        },
    }
}

/// Resolution order for up to two candidate names: the first name through
/// both steps, then the second; `InvalidArguments` when neither was given,
/// `NotFound` when at least one was given and none matched.
pub open spec fn region_by_opt_s(
    items: Seq<(Identifier, Region)>,
    aliases: Option<Seq<(Identifier, Vec<String>)>>,
    first: Option<Seq<char>>,
    second: Option<Seq<char>>,
) -> Result<int, ResolveError> {
    if first is None && second is None {
        Err(ResolveError::InvalidArguments)
    } else {
        match try_opt_s(first, aliases, items) {
            Some(i) => Ok(i),
            None => match try_opt_s(second, aliases, items) {
                Some(i) => Ok(i),
                None => Err(ResolveError::NotFound),
            },
        }
    }
}

#[verifier::loop_isolation(false)]
fn try_opt(
    opt: Option<&String>,
    countries: Option<&AliasTable>,
    regions: &Registry<Region>,
) -> (r: Option<(Identifier, Region)>)
    ensures
        r is Some <==> try_opt_s(
            (match opt {
                Some(c) => Some(c@),
                None => None,
            }),
            (match countries {
                Some(a) => Some(a.items@),
                None => None,
            }),
            regions.items@,
        ) is Some,
        r matches Some((id, reg)) ==> (try_opt_s(
            (match opt {
                Some(c) => Some(c@),
                None => None,
            }),
            (match countries {
                Some(a) => Some(a.items@),
                None => None,
            }),
            regions.items@,
        ) matches Some(i) && 0 <= i < regions.items@.len() && id@ == regions.items@[i].0@ && reg@
            == regions.items@[i].1@),
{
    let c = match opt {
        Some(c) => c,
        None => {
            return None;
        },
    };
    let target = crate::text::lowercase(crate::text::trim_str(c.as_str()));
    let n = regions.items.len();
    let mut i: usize = 0;
    while i < n
        invariant
            0 <= i <= n,
            n == regions.items@.len(),
            target@ == lower_of(trim_s(c@)),
            reg_match_at(regions.items@, target@, 0) == reg_match_at(
                regions.items@,
                target@,
                i as int,
            ),
        decreases n - i,
    {
        let entry = &regions.items[i];
        let ln = crate::text::lowercase(entry.1.name.as_str());
        let ls = crate::text::lowercase(entry.1.state_name.as_str());
        if crate::text::str_eq(ln.as_str(), target.as_str()) || crate::text::str_eq(
            ls.as_str(),
            target.as_str(),
        ) {
            return Some((entry.0.clone(), entry.1.clone()));
        }
        i += 1;
    }
    let al = match countries {
        Some(a) => a,
        None => {
            return None;
        },
    };
    match al.find_alias(target.as_str()) {
        Some(j) => {
            let id = &al.items[j].0;
            match regions.find(id.as_str()) {
                Some(k) => {
                    proof {
                        crate::registry::lemma_find_at_bounds(regions.items@, id@, 0);
                    }
                    let entry = &regions.items[k];
                    Some((entry.0.clone(), entry.1.clone()))
                },
                None => None,
            }
        },
        None => None,
    }
}

/// Resolves up to two candidate display names against the region registry
/// and the optional alias table; exact counterpart of `region_by_opt_s`,
/// yielding the resolved entry's key and a copy of the entry.
pub fn region_by_opt(
    regions: &Registry<Region>,
    countries: Option<&AliasTable>,
    first: Option<&String>,
    second: Option<&String>,
) -> (r: Result<(Identifier, Region), ResolveError>)
    ensures
        r matches Ok((id, reg)) ==> (region_by_opt_s(
            regions.items@,
            (match countries {
                Some(a) => Some(a.items@),
                None => None,
            }),
            (match first {
                Some(c) => Some(c@),
                None => None,
            }),
            (match second {
                Some(c) => Some(c@),
                None => None,
            }),
        ) matches Ok(i) && 0 <= i < regions.items@.len() && id@ == regions.items@[i].0@ && reg@
            == regions.items@[i].1@),
        r matches Err(e) ==> region_by_opt_s(
            regions.items@,
            (match countries {
                Some(a) => Some(a.items@),
                None => None,
            }),
            (match first {
                Some(c) => Some(c@),
                None => None,
            }),
            (match second {
                Some(c) => Some(c@),
                None => None,
            }),
        ) == Err::<int, ResolveError>(e),
        (first is None && second is None) ==> r == Err::<(Identifier, Region), ResolveError>(
            ResolveError::InvalidArguments,
        ),
{
    if first.is_none() && second.is_none() {
        return Err(ResolveError::InvalidArguments);
    }
    if let Some(t) = try_opt(first, countries, regions) {
        return Ok(t);
    }
    if let Some(t) = try_opt(second, countries, regions) {
        return Ok(t);
    }
    Err(ResolveError::NotFound)
}


/// The first sovereign entry at or after `i` whose chosen name field
/// lower-cases to `target`.
pub open spec fn sov_by_name_at(
    sovs: Seq<(Identifier, crate::sovereign_state::SovereignState)>,
    target: Seq<char>,
    long: bool,
    i: int,
) -> Option<int>
    decreases sovs.len() - i,
{
    if i < 0 || i >= sovs.len() {
        None
    } else if (if long {
        lower_of(sovs[i].1.name_long@)
    } else {
        lower_of(sovs[i].1.name_short@)
    }) == target {
        Some(i)
    } else {
        sov_by_name_at(sovs, target, long, i + 1)
    }
}

/// Looking a display name up among the sovereign states: the whole registry
/// by short name first, then the whole registry by long name.
pub open spec fn sov_lookup(
    sovs: Seq<(Identifier, crate::sovereign_state::SovereignState)>,
    target: Seq<char>,
) -> Option<int> {
    match sov_by_name_at(sovs, target, false, 0) {
        Some(i) => Some(i),
        None => sov_by_name_at(sovs, target, true, 0),
    }
}

#[verifier::loop_isolation(false)]
fn sov_lookup_x(
    sovs: &Registry<crate::sovereign_state::SovereignState>,
    target_lc: &str,
) -> (r: Option<usize>)
    ensures
        r is Some <==> sov_lookup(sovs.items@, target_lc@) is Some,
        r matches Some(i) ==> (sov_lookup(sovs.items@, target_lc@) == Some(i as int) && i
            < sovs.items@.len()),
{
    let n = sovs.items.len();
    let mut i: usize = 0;
    while i < n
        invariant
            0 <= i <= n,
            sov_by_name_at(sovs.items@, target_lc@, false, 0) == sov_by_name_at(
                sovs.items@,
                target_lc@,
                false,
                i as int,
            ),
        decreases n - i,
    {
        let ln = crate::text::lowercase(sovs.items[i].1.name_short.as_str());
        if crate::text::str_eq(ln.as_str(), target_lc) {
            return Some(i);
        }
        i += 1;
    }
    let mut j: usize = 0;
    while j < n
        invariant
            0 <= j <= n,
            sov_by_name_at(sovs.items@, target_lc@, false, 0) is None,
            sov_by_name_at(sovs.items@, target_lc@, true, 0) == sov_by_name_at(
                sovs.items@,
                target_lc@,
                true,
                j as int,
            ),
        decreases n - j,
    {
        let ln = crate::text::lowercase(sovs.items[j].1.name_long.as_str());
        if crate::text::str_eq(ln.as_str(), target_lc) {
            return Some(j);
        }
        j += 1;
    }
    None
}

/// The column schema of the territorial-code table: nine header cells and
/// exactly eight data cells per row, name and reference columns matched for
/// links, the sovereignty cell passed through whole, the three code columns
/// matched for linked spans.
pub open spec fn reg_schema_g() -> crate::scan::IncludeG {
    (crate::scan::IncludeG::Exact {
        th_count: 9,
        rules: seq![
            crate::scan::SelectG::Matching("a"@),
            crate::scan::SelectG::Matching("a"@),
            crate::scan::SelectG::TdElement,
            crate::scan::SelectG::Matching("a > span"@),
            crate::scan::SelectG::Matching("a > span"@),
            crate::scan::SelectG::Matching("a > span"@),
            crate::scan::SelectG::Matching("a"@),
            crate::scan::SelectG::Matching("a"@),
        ],
    })
}

/// How the sovereignty cell decides a row: a UN-member marker resolves the
/// row's own name against the sovereign states (the territory is the
/// state); otherwise a sovereign-state reference resolves its link text;
/// otherwise the row is undecidable and skipped.
pub open spec fn sovereignty_of(
    e: crate::dom::Elem,
    name: Seq<char>,
    sovs: Seq<(Identifier, crate::sovereign_state::SovereignState)>,
) -> Option<(int, bool)> {
    let anchors = crate::dom::descs_of(e, crate::dom::simple_tag("a"@));
    let member_link = crate::extract::any_el_text_contains(anchors, "un member"@);
    let member_str = crate::extract::any_text_contains_ci(crate::dom::texts_of(e), "un member"@);
    let state_ref = crate::extract::first_text_at(anchors, "#"@, 0);
    if member_link || member_str {
        match sov_lookup(sovs, lower_of(name)) {
            Some(i) => Some((i, true)),
            None => None,
        }
    } else {
        match state_ref {
            Some(s) => match sov_lookup(sovs, lower_of(s)) {
                Some(i) => Some((i, false)),
                None => None,
            },
            None => None,
        }
    }
}

/// What one scanned row contributes: the key derived from the two-letter
/// code and the assembled territorial entry. A row whose sovereignty cannot
/// be decided is skipped; a missing or malformed required field is fatal,
/// and a repeated key is fatal.
pub open spec fn reg_row_s(
    m: crate::scan::RowG,
    sovs: Seq<(Identifier, crate::sovereign_state::SovereignState)>,
    acc: Seq<(Seq<char>, RegionG)>,
) -> crate::builders::RowOut<(Seq<char>, RegionG)> {
    match crate::builders::col_of(m, 0) {
        Some(crate::scan::FoundG::Children(v0)) => match crate::extract::first_title_at(
            v0,
            "/wiki/"@,
            0,
        ) {
            None => crate::builders::RowOut::Fatal(crate::builders::BuildError::SchemaShape),
            Some(name) => match crate::builders::col_of(m, 2) {
                Some(crate::scan::FoundG::Parent(e)) => match sovereignty_of(e, name, sovs) {
                    None => crate::builders::RowOut::Skip,
                    Some((si, unm)) => reg_row_fields(m, name, sovs[si].0@, unm, acc),
                },
                Some(_) => crate::builders::RowOut::Fatal(crate::builders::BuildError::SchemaShape),
                None => crate::builders::RowOut::Fatal(crate::builders::BuildError::SchemaShape),
            },
        },
        Some(_) => crate::builders::RowOut::Fatal(crate::builders::BuildError::SchemaShape),
        None => crate::builders::RowOut::Fatal(crate::builders::BuildError::SchemaShape),
    }
}

/// The remaining field columns of a decided row, in reading order: official
/// state name, the three codes, the subdivision reference and the domains.
pub open spec fn reg_row_fields(
    m: crate::scan::RowG,
    name: Seq<char>,
    sov_id: Seq<char>,
    unm: bool,
    acc: Seq<(Seq<char>, RegionG)>,
) -> crate::builders::RowOut<(Seq<char>, RegionG)> {
    match crate::builders::col_of(m, 1) {
        Some(crate::scan::FoundG::Children(v1)) => match crate::extract::first_el_first_text_s(
            v1,
        ) {
            None => crate::builders::RowOut::Fatal(crate::builders::BuildError::SchemaShape),
            Some(t1) => {
                let state_name = trim_s(t1);
                match crate::builders::col_of(m, 3) {
                    Some(crate::scan::FoundG::Children(v3)) => match
                        crate::extract::first_el_first_text_s(v3) {
                        None => crate::builders::RowOut::Fatal(
                            crate::builders::BuildError::SchemaShape,
                        ),
                        Some(t3) => {
                            let a2 = upper_of(trim_s(t3));
                            if a2.len() != 2 {
                                crate::builders::RowOut::Fatal(
                                    crate::builders::BuildError::BadField,
                                )
                            } else {
                                match crate::builders::col_of(m, 4) {
                                    Some(crate::scan::FoundG::Children(v4)) => match
                                        crate::extract::first_el_first_text_s(v4) {
                                        None => crate::builders::RowOut::Fatal(
                                            crate::builders::BuildError::SchemaShape,
                                        ),
                                        Some(t4) => {
                                            let a3 = upper_of(trim_s(t4));
                                            if a3.len() != 3 {
                                                crate::builders::RowOut::Fatal(
                                                    crate::builders::BuildError::BadField,
                                                )
                                            } else {
                                                reg_row_nums(m, name, sov_id, unm, state_name, a2, a3, acc)
                                            }
                                        },
                                    },
                                    Some(_) => crate::builders::RowOut::Fatal(
                                        crate::builders::BuildError::SchemaShape,
                                    ),
                                    None => crate::builders::RowOut::Fatal(
                                        crate::builders::BuildError::SchemaShape,
                                    ),
                                }
                            }
                        },
                    },
                    Some(_) => crate::builders::RowOut::Fatal(
                        crate::builders::BuildError::SchemaShape,
                    ),
                    None => crate::builders::RowOut::Fatal(
                        crate::builders::BuildError::SchemaShape,
                    ),
                }
            },
        },
        Some(_) => crate::builders::RowOut::Fatal(crate::builders::BuildError::SchemaShape),
        None => crate::builders::RowOut::Fatal(crate::builders::BuildError::SchemaShape),
    }
}

/// The numeric code, the subdivision reference and the domain columns, then
/// the duplicate-key check and the shape validations.
pub open spec fn reg_row_nums(
    m: crate::scan::RowG,
    name: Seq<char>,
    sov_id: Seq<char>,
    unm: bool,
    state_name: Seq<char>,
    a2: Seq<char>,
    a3: Seq<char>,
    acc: Seq<(Seq<char>, RegionG)>,
) -> crate::builders::RowOut<(Seq<char>, RegionG)> {
    match crate::builders::col_of(m, 5) {
        Some(crate::scan::FoundG::Children(v5)) => match crate::extract::first_el_first_text_s(
            v5,
        ) {
            None => crate::builders::RowOut::Fatal(crate::builders::BuildError::SchemaShape),
            Some(t5) => match crate::text::parse_u16_s(trim_s(t5)) {
                None => crate::builders::RowOut::Fatal(crate::builders::BuildError::BadField),
                Some(num) => if num > 999 {
                    crate::builders::RowOut::Fatal(crate::builders::BuildError::BadField)
                } else {
                    match crate::builders::col_of(m, 6) {
                        Some(crate::scan::FoundG::Children(v6)) => match
                            crate::extract::first_title_at(v6, "/wiki/"@, 0) {
                            None => crate::builders::RowOut::Fatal(
                                crate::builders::BuildError::SchemaShape,
                            ),
                            Some(iso2raw) => match crate::builders::col_of(m, 7) {
                                Some(crate::scan::FoundG::Children(v7)) => {
                                    let tld_raw = crate::extract::all_titles_at(v7, "/wiki/"@, 0);
                                    let key = crate::ident::canon_of(a2);
                                    if crate::builders::pairs_has_key(acc, key) {
                                        crate::builders::RowOut::Fatal(
                                            crate::builders::BuildError::DuplicateKey,
                                        )
                                    } else {
                                        let iso2 = upper_of(trim_s(iso2raw));
                                        if !(has_prefix(iso2, "ISO 3166-2:"@) && iso2.len()
                                            == 13) {
                                            crate::builders::RowOut::Fatal(
                                                crate::builders::BuildError::BadField,
                                            )
                                        } else if tld_raw.len() == 0 {
                                            crate::builders::RowOut::Fatal(
                                                crate::builders::BuildError::BadField,
                                            )
                                        } else {
                                            match tld_clean_at(tld_raw, 0) {
                                                None => crate::builders::RowOut::Fatal(
                                                    crate::builders::BuildError::BadField,
                                                ),
                                                Some(tld) => crate::builders::RowOut::Take(
                                                    (
                                                        key,
                                                        (RegionG {
                                                            name: name,
                                                            state_name: state_name,
                                                            un_member: unm,
                                                            sovereignity: sov_id,
                                                            iso_3166_1: (Iso1G {
                                                                a2: a2,
                                                                a3: a3,
                                                                num: num,
                                                            }),
                                                            iso_3166_2: iso2,
                                                            tld: tld,
                                                        }),
                                                    ),
                                                ),
                                            }
                                        }
                                    }
                                },
                                Some(_) => crate::builders::RowOut::Fatal(
                                    crate::builders::BuildError::SchemaShape,
                                ),
                                None => crate::builders::RowOut::Fatal(
                                    crate::builders::BuildError::SchemaShape,
                                ),
                            },
                        },
                        Some(_) => crate::builders::RowOut::Fatal(
                            crate::builders::BuildError::SchemaShape,
                        ),
                        None => crate::builders::RowOut::Fatal(
                            crate::builders::BuildError::SchemaShape,
                        ),
                    }
                },
            },
        },
        Some(_) => crate::builders::RowOut::Fatal(crate::builders::BuildError::SchemaShape),
        None => crate::builders::RowOut::Fatal(crate::builders::BuildError::SchemaShape),
    }
}

/// Folding the territorial rows from `i` on.
pub open spec fn reg_fold(
    rows: Seq<crate::scan::RowG>,
    i: int,
    acc: Seq<(Seq<char>, RegionG)>,
    sovs: Seq<(Identifier, crate::sovereign_state::SovereignState)>,
) -> Result<Seq<(Seq<char>, RegionG)>, BuildError>
    decreases rows.len() - i,
{
    if i < 0 || i >= rows.len() {
        Ok(acc)
    } else {
        match reg_row_s(rows[i], sovs, acc) {
            crate::builders::RowOut::Fatal(e) => Err(e),
            crate::builders::RowOut::Skip => reg_fold(rows, i + 1, acc, sovs),
            crate::builders::RowOut::Take(p) => reg_fold(rows, i + 1, acc.push(p), sovs),
        }
    }
}

/// What building the territorial entries from a document yields.
pub open spec fn reg_from_html_s(
    doc: crate::dom::Elem,
    sovs: Seq<(Identifier, crate::sovereign_state::SovereignState)>,
) -> Result<Seq<(Seq<char>, RegionG)>, BuildError> {
    match crate::scan::scan_spec(doc, reg_schema_g(), None) {
        Err(e) => Err(crate::builders::of_scan(e)),
        Ok(rows) => reg_fold(rows, 0, Seq::empty(), sovs),
    }
}


impl Region {
    /// Scans the territorial-code table and assembles the region registry,
    /// resolving each row's sovereignty against the sovereign states; exact
    /// counterpart of `reg_from_html_s`. A row whose sovereignty is
    /// undecidable is skipped; a malformed required field or a repeated
    /// two-letter code fails the whole build.
    #[verifier::loop_isolation(false)]
    pub fn from_html(
        html: &crate::dom::Elem,
        sovereign_states: &Registry<crate::sovereign_state::SovereignState>,
    ) -> (r: Result<Registry<Region>, BuildError>)
        ensures
            r matches Ok(reg) ==> (reg_from_html_s(*html, sovereign_states.items@) == Ok::<
                _,
                BuildError,
            >(crate::builders::reg_views(reg.items@)) && crate::registry::keys_unique(reg.items@)),
            r matches Err(e) ==> reg_from_html_s(*html, sovereign_states.items@) == Err::<
                Seq<(Seq<char>, RegionG)>,
                BuildError,
            >(e),
    {
        let mut cols: Vec<crate::scan::Select> = Vec::new();
        cols.push(crate::scan::Select::Matching("a".to_owned()));
        cols.push(crate::scan::Select::Matching("a".to_owned()));
        cols.push(crate::scan::Select::TdElement);
        cols.push(crate::scan::Select::Matching("a > span".to_owned()));
        cols.push(crate::scan::Select::Matching("a > span".to_owned()));
        cols.push(crate::scan::Select::Matching("a > span".to_owned()));
        cols.push(crate::scan::Select::Matching("a".to_owned()));
        cols.push(crate::scan::Select::Matching("a".to_owned()));
        let collect = crate::scan::Include::Exact { th_count: 9, rules: cols };
        proof {
            match collect@ {
                crate::scan::IncludeG::Exact { th_count, rules } => {
                    assert(rules =~= (seq![
                        crate::scan::SelectG::Matching("a"@),
                        crate::scan::SelectG::Matching("a"@),
                        crate::scan::SelectG::TdElement,
                        crate::scan::SelectG::Matching("a > span"@),
                        crate::scan::SelectG::Matching("a > span"@),
                        crate::scan::SelectG::Matching("a > span"@),
                        crate::scan::SelectG::Matching("a"@),
                        crate::scan::SelectG::Matching("a"@),
                    ]));
                },
                crate::scan::IncludeG::Sparse { .. } => {
                    assert(false);
                },
            }
            assert(collect@ == reg_schema_g());
        }
        let rows = match crate::scan::map_from_table_data(html, &collect, None) {
            Ok(rows) => rows,
            Err(e) => {
                return Err(match e {
                    crate::scan::ScanError::NoTables => BuildError::NoTables,
                    crate::scan::ScanError::BadSelector => BuildError::BadSelector,
                });
            },
        };
        let ghost rowsv = crate::scan::rows_views(rows@);
        let n = rows.len();
        let mut items: Registry<Region> = Registry::new();
        let mut i: usize = 0;
        proof {
            assert(crate::builders::reg_views(items.items@) =~= Seq::<
                (Seq<char>, RegionG),
            >::empty());
        }
        while i < n
            invariant
                0 <= i <= n,
                crate::registry::keys_unique(items.items@),
                reg_fold(rowsv, 0, Seq::empty(), sovereign_states.items@) == reg_fold(
                    rowsv,
                    i as int,
                    crate::builders::reg_views(items.items@),
                    sovereign_states.items@,
                ),
            decreases n - i,
        {
            proof {
                assert(rowsv[i as int] == rows@[i as int]@);
            }
            let row = &rows[i];
            let ghost accv = crate::builders::reg_views(items.items@);
            let name = match row.get(0) {
                Some(crate::scan::Found::Children(v0)) => {
                    match crate::extract::first_link_title("/wiki/", v0) {
                        Some(name) => name,
                        None => {
                            return Err(BuildError::SchemaShape);
                        },
                    }
                },
                _ => {
                    return Err(BuildError::SchemaShape);
                },
            };
            let ghost namev = name@;
            let cell = match row.get(2) {
                Some(crate::scan::Found::Parent(e)) => *e,
                _ => {
                    return Err(BuildError::SchemaShape);
                },
            };
            let anchors = crate::dom::descendants_tagged(cell, "a");
            let member_link = crate::extract::any_elem_contains_ci(&anchors, "un member");
            let cell_texts = cell.texts();
            let member_str = crate::extract::any_string_contains_ci(&cell_texts, "un member");
            let lookup_res: Option<(usize, bool)> = if member_link || member_str {
                let lname = crate::text::lowercase(name.as_str());
                match sov_lookup_x(sovereign_states, lname.as_str()) {
                    Some(si) => Some((si, true)),
                    None => None,
                }
            } else {
                match crate::extract::first_link_text("#", &anchors) {
                    Some(s) => {
                        let ls = crate::text::lowercase(s.as_str());
                        match sov_lookup_x(sovereign_states, ls.as_str()) {
                            Some(si) => Some((si, false)),
                            None => None,
                        }
                    },
                    None => None,
                }
            };
            proof {
                match lookup_res {
                    Some((si, unm)) => {
                        assert(sovereignty_of(*cell, namev, sovereign_states.items@) == Some(
                            (si as int, unm),
                        ));
                    },
                    None => {
                        assert(sovereignty_of(*cell, namev, sovereign_states.items@) is None);
                    },
                }
            }
            match lookup_res {
                None => {
                },
                Some((si, unm)) => {
                    let iso_id = sovereign_states.items[si].0.clone();
                    let ghost sovidv = iso_id@;
                    let state_name = match row.get(1) {
                        Some(crate::scan::Found::Children(v1)) => {
                            match crate::extract::first_el_first_text(v1) {
                                Some(t1) => crate::text::trim_str(t1.as_str()).to_owned(),
                                None => {
                                    return Err(BuildError::SchemaShape);
                                },
                            }
                        },
                        _ => {
                            return Err(BuildError::SchemaShape);
                        },
                    };
                    let ghost statev = state_name@;
                    let a2 = match row.get(3) {
                        Some(crate::scan::Found::Children(v3)) => {
                            match crate::extract::first_el_first_text(v3) {
                                Some(t3) => crate::text::uppercase(
                                    crate::text::trim_str(t3.as_str()),
                                ),
                                None => {
                                    return Err(BuildError::SchemaShape);
                                },
                            }
                        },
                        _ => {
                            return Err(BuildError::SchemaShape);
                        },
                    };
                    if a2.as_str().unicode_len() != 2 {
                        return Err(BuildError::BadField);
                    }
                    let ghost a2v = a2@;
                    let a3 = match row.get(4) {
                        Some(crate::scan::Found::Children(v4)) => {
                            match crate::extract::first_el_first_text(v4) {
                                Some(t4) => crate::text::uppercase(
                                    crate::text::trim_str(t4.as_str()),
                                ),
                                None => {
                                    return Err(BuildError::SchemaShape);
                                },
                            }
                        },
                        _ => {
                            return Err(BuildError::SchemaShape);
                        },
                    };
                    if a3.as_str().unicode_len() != 3 {
                        return Err(BuildError::BadField);
                    }
                    let ghost a3v = a3@;
                    let num = match row.get(5) {
                        Some(crate::scan::Found::Children(v5)) => {
                            match crate::extract::first_el_first_text(v5) {
                                Some(t5) => {
                                    match crate::text::parse_u16_str(
                                        crate::text::trim_str(t5.as_str()),
                                    ) {
                                        Some(u) => u,
                                        None => {
                                            return Err(BuildError::BadField);
                                        },
                                    }
                                },
                                None => {
                                    return Err(BuildError::SchemaShape);
                                },
                            }
                        },
                        _ => {
                            return Err(BuildError::SchemaShape);
                        },
                    };
                    if num > 999 {
                        return Err(BuildError::BadField);
                    }
                    let iso2raw = match row.get(6) {
                        Some(crate::scan::Found::Children(v6)) => {
                            match crate::extract::first_link_title("/wiki/", v6) {
                                Some(t) => t,
                                None => {
                                    return Err(BuildError::SchemaShape);
                                },
                            }
                        },
                        _ => {
                            return Err(BuildError::SchemaShape);
                        },
                    };
                    let ghost iso2rawv = iso2raw@;
                    let tld_titles = match row.get(7) {
                        Some(crate::scan::Found::Children(v7)) => crate::extract::all_link_titles(
                            "/wiki/",
                            v7,
                        ),
                        _ => {
                            return Err(BuildError::SchemaShape);
                        },
                    };
                    let id = Identifier::new(a2.as_str());
                    let ghost idv = id@;
                    proof {
                        crate::builders::lemma_has_key_views(items.items@, idv);
                    }
                    if items.contains_key(&id) {
                        return Err(BuildError::DuplicateKey);
                    }
                    let iso1 = match Iso3166_1::new(a2, a3, num) {
                        Ok(x) => x,
                        Err(_) => {
                            // Unreachable: both code lengths and the numeric
                            // range were checked above.
                            proof {
                                assert(false);
                            }
                            return Err(BuildError::BadField);
                        },
                    };
                    let iso2 = match Iso3166_2::new(iso2raw) {
                        Ok(x) => x,
                        Err(e) => {
                            return Err(e);
                        },
                    };
                    let tld = match Tld::new(tld_titles) {
                        Ok(x) => x,
                        Err(e) => {
                            return Err(e);
                        },
                    };
                    let region = Region::new(
                        name,
                        state_name,
                        iso_id,
                        unm,
                        iso1,
                        iso2,
                        tld,
                    );
                    let ghost rgv = region@;
                    proof {
                        assert(rgv == (RegionG {
                            name: namev,
                            state_name: statev,
                            un_member: unm,
                            sovereignity: sovidv,
                            iso_3166_1: (Iso1G { a2: a2v, a3: a3v, num: num }),
                            iso_3166_2: upper_of(trim_s(iso2rawv)),
                            tld: (match tld_clean_at(
                                crate::extract::all_titles_at(
                                    (match rowsv[i as int][7] {
                                        Some(crate::scan::FoundG::Children(v7g)) => v7g,
                                        _ => Seq::empty(),
                                    }),
                                    "/wiki/"@,
                                    0,
                                ),
                                0,
                            ) {
                                Some(t) => t,
                                None => Seq::empty(),
                            }),
                        }));
                        crate::registry::lemma_push_keeps_unique(items.items@, id, region);
                    }
                    items.push_new(id, region);
                    proof {
                        assert(crate::builders::reg_views(items.items@) =~= accv.push(
                            (idv, rgv),
                        ));
                    }
                },
            }
            proof {
                assert(reg_fold(rowsv, i as int, accv, sovereign_states.items@) == reg_fold(
                    rowsv,
                    i + 1,
                    crate::builders::reg_views(items.items@),
                    sovereign_states.items@,
                ));
            }
            i += 1;
        }
        proof {
            assert(reg_fold(
                rowsv,
                n as int,
                crate::builders::reg_views(items.items@),
                sovereign_states.items@,
            ) == Ok::<_, BuildError>(crate::builders::reg_views(items.items@)));
        }
        Ok(items)
    }
}

} // verus!
