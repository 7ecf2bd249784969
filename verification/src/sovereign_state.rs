//! The sovereign-state builder: the first build stage. Each row of the
//! sovereign-state table yields one entity keyed by a canonical identifier
//! taken from the UN member list, the seed alias table, or, as a last
//! resort, derived from the display name itself.

use vstd::prelude::*;
use crate::builders::{col_of, of_scan, pairs_has_key, reg_views, BuildError, RowOut};
use crate::dom::Elem;
use crate::extract::first_pair_at;
use crate::ident::{canon_of, cut_comma_s, Identifier};
use crate::registry::{alias_match2_at, keys_unique, AliasTable, Registry};
use crate::scan::{
    map_from_table_data, rows_views, scan_spec, FoundG, Include, IncludeG, RowG, Select, SelectG,
};
use crate::text::{has_substring, lower_of, views_of};
use crate::un_nations::UNMember;

verus! {

/// One sovereign state: short and long display name, UN membership, and
/// whether any territorial dispute is listed.
pub struct SovereignState {
    pub name_short: String,
    pub name_long: String,
    pub un_member: bool,
    pub disputed: bool,
}

/// The mathematical shape of a `SovereignState`.
pub struct SovereignG {
    pub name_short: Seq<char>,
    pub name_long: Seq<char>,
    pub un_member: bool,
    pub disputed: bool,
}

impl View for SovereignState {
    type V = SovereignG;

    open spec fn view(&self) -> SovereignG {
        (SovereignG {
            name_short: self.name_short@,
            name_long: self.name_long@,
            un_member: self.un_member,
            disputed: self.disputed,
        })
    }
}

impl Clone for SovereignState {
    fn clone(&self) -> (r: Self)
        ensures
            r == *self,
    {
        SovereignState {
            name_short: self.name_short.clone(),
            name_long: self.name_long.clone(),
            un_member: self.un_member,
            disputed: self.disputed,
        }
    }
}

/// The column schema of the sovereign-state table: four header cells, the
/// name cell matched for links, two marker cells read as inner text, one
/// column ignored.
pub open spec fn sov_schema_g() -> IncludeG {
    (IncludeG::Sparse {
        th_count: 4,
        rules: seq![
            Some(SelectG::Matching("a"@)),
            Some(SelectG::InnerAsText),
            Some(SelectG::InnerAsText),
            None,
        ],
    })
}

/// The identifier of the first UN member at or after `i` that has one and
/// whose name lower-cases to either target.
pub open spec fn un_id_at(uns: Seq<UNMember>, t1: Seq<char>, t2: Seq<char>, i: int) -> Option<
    Seq<char>,
>
    decreases uns.len() - i,
{
    if i < 0 || i >= uns.len() {
        None
    } else {
        let u = uns[i]@;
        if u.iso_3166 is Some && (lower_of(u.name) == t1 || lower_of(u.name) == t2) {
            u.iso_3166
        } else {
            un_id_at(uns, t1, t2, i + 1)
        }
    }
}

/// A marker text claims UN membership: it contains the member phrase
/// case-insensitively and is shorter than twenty-five characters.
pub open spec fn member_marker_s(ts: Seq<Seq<char>>) -> bool {
    exists|i: int|
        0 <= i < ts.len() && has_substring(lower_of(#[trigger] ts[i]), "un member state"@) && ts[
            i
        ].len() < 25
}

/// The key a sovereign-state row resolves to: the UN list first, the seed
/// alias table second, the canonicalized display name last.
pub open spec fn sov_key(
    name: Seq<char>,
    name_long: Seq<char>,
    uns: Seq<UNMember>,
    countries: Seq<(Identifier, Vec<String>)>,
) -> Seq<char> {
    match un_id_at(uns, lower_of(name), lower_of(name_long), 0) {
        Some(idv) => idv,
        None => match alias_match2_at(countries, lower_of(name), lower_of(name_long), 0) {
            Some(j) => countries[j].0@,
            None => canon_of(name),
        },
    }
}

/// What one scanned row contributes: the resolved key and the entity, with
/// the short name cut at the first comma. A row whose key is already taken
/// is skipped; a missing name link or a wrong column shape is fatal.
pub open spec fn sov_row_s(
    m: RowG,
    uns: Seq<UNMember>,
    countries: Seq<(Identifier, Vec<String>)>,
    acc: Seq<(Seq<char>, SovereignG)>,
) -> RowOut<(Seq<char>, SovereignG)> {
    match col_of(m, 0) {
        Some(FoundG::Children(c)) => match first_pair_at(c, "/wiki/"@, 0) {
            None => RowOut::Fatal(BuildError::SchemaShape),
            Some((name, name_long)) => {
                let id = sov_key(name, name_long, uns, countries);
                match col_of(m, 1) {
                    Some(FoundG::InnerText(c1)) => {
                        let member = member_marker_s(c1);
                        match col_of(m, 2) {
                            Some(FoundG::InnerText(c2)) => {
                                let dispute = !crate::extract::any_text_contains_ci(c2, "none"@);
                                if pairs_has_key(acc, id) {
                                    RowOut::Skip
                                } else {
                                    RowOut::Take(
                                        (
                                            id,
                                            (SovereignG {
                                                name_short: cut_comma_s(name),
                                                name_long: name_long,
                                                un_member: member,
                                                disputed: dispute,
                                            }),
                                        ),
                                    )
                                }
                            },
                            Some(_) => RowOut::Fatal(BuildError::SchemaShape),
                            None => RowOut::Fatal(BuildError::SchemaShape),
                        }
                    },
                    Some(_) => RowOut::Fatal(BuildError::SchemaShape),
                    None => RowOut::Fatal(BuildError::SchemaShape),
                }
            },
        },
        Some(_) => RowOut::Fatal(BuildError::SchemaShape),
        None => RowOut::Fatal(BuildError::SchemaShape),
    }
}

/// Folding the rows from `i` on onto the accumulated entries.
pub open spec fn sov_fold(
    rows: Seq<RowG>,
    i: int,
    acc: Seq<(Seq<char>, SovereignG)>,
    uns: Seq<UNMember>,
    countries: Seq<(Identifier, Vec<String>)>,
) -> Result<Seq<(Seq<char>, SovereignG)>, BuildError>
    decreases rows.len() - i,
{
    if i < 0 || i >= rows.len() {
        Ok(acc)
    } else {
        match sov_row_s(rows[i], uns, countries, acc) {
            RowOut::Fatal(e) => Err(e),
            RowOut::Skip => sov_fold(rows, i + 1, acc, uns, countries),
            RowOut::Take(p) => sov_fold(rows, i + 1, acc.push(p), uns, countries),
        }
    }
}

/// What building the sovereign states from a document yields.
pub open spec fn sov_from_html_s(
    doc: Elem,
    uns: Seq<UNMember>,
    countries: Seq<(Identifier, Vec<String>)>,
) -> Result<Seq<(Seq<char>, SovereignG)>, BuildError> {
    match scan_spec(doc, sov_schema_g(), None) {
        Err(e) => Err(of_scan(e)),
        Ok(rows) => sov_fold(rows, 0, Seq::empty(), uns, countries),
    }
}

fn member_marker_x(v: &Vec<String>) -> (r: bool)
    ensures
        r == member_marker_s(views_of(v@)),
{
    let ghost tsv = views_of(v@);
    let n = v.len();
    let mut i: usize = 0;
    while i < n
        invariant
            0 <= i <= n,
            n == v@.len(),
            tsv == views_of(v@),
            forall|k: int|
                0 <= k < i ==> !(has_substring(lower_of(#[trigger] tsv[k]), "un member state"@)
                    && tsv[k].len() < 25),
        decreases n - i,
    {
        proof {
            assert(tsv[i as int] == v@[i as int]@);
        }
        let lc = crate::text::lowercase(v[i].as_str());
        if crate::text::contains_str(lc.as_str(), "un member state") && v[i].as_str().unicode_len()
            < 25 {
            return true;
        }
        i += 1;
    }
    false
}

fn un_id_x(uns: &Vec<UNMember>, l1: &str, l2: &str) -> (r: Option<Identifier>)
    ensures
        r is Some <==> un_id_at(uns@, l1@, l2@, 0) is Some,
        r matches Some(id) ==> un_id_at(uns@, l1@, l2@, 0) == Some(id@),
{
    let n = uns.len();
    let mut i: usize = 0;
    while i < n
        invariant
            0 <= i <= n,
            n == uns@.len(),
            un_id_at(uns@, l1@, l2@, 0) == un_id_at(uns@, l1@, l2@, i as int),
        decreases n - i,
    {
        let u = &uns[i];
        match &u.iso_3166 {
            Some(id) => {
                let ln = crate::text::lowercase(u.name.as_str());
                if crate::text::str_eq(ln.as_str(), l1) || crate::text::str_eq(ln.as_str(), l2) {
                    return Some(id.clone());
                }
            },
            None => {
            },
        }
        i += 1;
    }
    None
}

impl SovereignState {
    /// Plain constructor; every field is kept as given.
    pub fn new(name_short: String, name_long: String, un_member: bool, disputed: bool) -> (r: Self)
        ensures
            r.name_short@ == name_short@,
            r.name_long@ == name_long@,
            r.un_member == un_member,
            r.disputed == disputed,
    {
        Self { name_short, name_long, un_member, disputed }
    }

    /// Scans the sovereign-state table and assembles the first registry;
    /// exact counterpart of `sov_from_html_s`.
    #[verifier::loop_isolation(false)]
    pub fn from_html(
        html: &Elem,
        un_nations: &Vec<UNMember>,
        countries: &AliasTable,
    ) -> (r: Result<Registry<SovereignState>, BuildError>)
        ensures
            r matches Ok(reg) ==> (sov_from_html_s(*html, un_nations@, countries.items@) == Ok::<
                _,
                BuildError,
            >(reg_views(reg.items@)) && keys_unique(reg.items@)),
            r matches Err(e) ==> sov_from_html_s(*html, un_nations@, countries.items@) == Err::<
                Seq<(Seq<char>, SovereignG)>,
                BuildError,
            >(e),
    {
        let mut cols: Vec<Option<Select>> = Vec::new();
        cols.push(Some(Select::Matching("a".to_owned())));
        cols.push(Some(Select::InnerAsText));
        cols.push(Some(Select::InnerAsText));
        cols.push(None);
        let collect = Include::Sparse { th_count: 4, rules: cols };
        proof {
            match collect@ {
                IncludeG::Sparse { th_count, rules } => {
                    assert(rules =~= (seq![
                        Some(SelectG::Matching("a"@)),
                        Some(SelectG::InnerAsText),
                        Some(SelectG::InnerAsText),
                        None,
                    ]));
                },
                IncludeG::Exact { .. } => {
                    assert(false);
                },
            }
            assert(collect@ == sov_schema_g());
        }
        let rows = match map_from_table_data(html, &collect, None) {
            Ok(rows) => rows,
            Err(e) => {
                return Err(match e {
                    crate::scan::ScanError::NoTables => BuildError::NoTables,
                    crate::scan::ScanError::BadSelector => BuildError::BadSelector,
                });
            },
        };
        let ghost rowsv = rows_views(rows@);
        let n = rows.len();
        let mut items: Registry<SovereignState> = Registry::new();
        let mut i: usize = 0;
        proof {
            assert(reg_views(items.items@) =~= Seq::<(Seq<char>, SovereignG)>::empty());
        }
        while i < n
            invariant
                0 <= i <= n,
                keys_unique(items.items@),
                sov_fold(rowsv, 0, Seq::empty(), un_nations@, countries.items@) == sov_fold(
                    rowsv,
                    i as int,
                    reg_views(items.items@),
                    un_nations@,
                    countries.items@,
                ),
            decreases n - i,
        {
            proof {
                assert(rowsv[i as int] == rows@[i as int]@);
            }
            let row = &rows[i];
            let ghost accv = reg_views(items.items@);
            match row.get(0) {
                Some(crate::scan::Found::Children(c)) => {
                    match crate::extract::first_link_pair("/wiki/", c) {
                        Some((name, name_long)) => {
                            let lname = crate::text::lowercase(name.as_str());
                            let llong = crate::text::lowercase(name_long.as_str());
                            let id: Identifier = match un_id_x(
                                un_nations,
                                lname.as_str(),
                                llong.as_str(),
                            ) {
                                Some(id) => id,
                                None => {
                                    match countries.find_alias_either(
                                        lname.as_str(),
                                        llong.as_str(),
                                    ) {
                                        Some(j) => countries.items[j].0.clone(),
                                        None => Identifier::new(name.as_str()),
                                    }
                                },
                            };
                            proof {
                                assert(id@ == sov_key(
                                    name@,
                                    name_long@,
                                    un_nations@,
                                    countries.items@,
                                ));
                            }
                            let name_short = crate::text::cut_at_char(name.as_str(), ',');
                            match row.get(1) {
                                Some(crate::scan::Found::InnerText(c1)) => {
                                    let member = member_marker_x(c1);
                                    match row.get(2) {
                                        Some(crate::scan::Found::InnerText(c2)) => {
                                            let dispute = !crate::extract::any_string_contains_ci(
                                                c2,
                                                "none",
                                            );
                                            proof {
                                                crate::builders::lemma_has_key_views(
                                                    items.items@,
                                                    id@,
                                                );
                                            }
                                            if !items.contains_key(&id) {
                                                let sv = SovereignState::new(
                                                    name_short,
                                                    name_long,
                                                    member,
                                                    dispute,
                                                );
                                                let ghost idv = id@;
                                                let ghost svv = sv@;
                                                proof {
                                                    crate::registry::lemma_push_keeps_unique(
                                                        items.items@,
                                                        id,
                                                        sv,
                                                    );
                                                }
                                                items.push_new(id, sv);
                                                proof {
                                                    assert(reg_views(items.items@) =~= accv.push(
                                                        (idv, svv),
                                                    ));
                                                }
                                            }
                                        },
                                        _ => {
                                            return Err(BuildError::SchemaShape);
                                        },
                                    }
                                },
                                _ => {
                                    return Err(BuildError::SchemaShape);
                                },
                            }
                        },
                        None => {
                            return Err(BuildError::SchemaShape);
                        },
                    }
                },
                _ => {
                    return Err(BuildError::SchemaShape);
                },
            }
            proof {
                assert(sov_fold(rowsv, i as int, accv, un_nations@, countries.items@) == sov_fold(
                    rowsv,
                    i + 1,
                    reg_views(items.items@),
                    un_nations@,
                    countries.items@,
                ));
            }
            i += 1;
        }
        proof {
            assert(sov_fold(rowsv, n as int, reg_views(items.items@), un_nations@, countries.items@)
                == Ok::<_, BuildError>(reg_views(items.items@)));
        }
        Ok(items)
    }
}

} // verus!
