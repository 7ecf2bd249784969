//! The capital builder: the exonym of each territory's capital plus its
//! native-language renderings, keyed by the territory's identifier. An
//! endonym identical to the exonym after case and white-space normalization
//! is excluded; an empty remaining list becomes "no endonyms".

use vstd::prelude::*;
use crate::builders::{
    col_of, of_scan, pairs_set, reg_views, BuildError, RowOut,
};
use crate::dom::{texts_of, Elem};
use crate::extract::{first_text_at, first_title_at};
use crate::ident::Identifier;
use crate::region::{region_by_opt, region_by_opt_s, Region};
use crate::registry::{keys_unique, AliasTable, Registry};
use crate::scan::{
    map_from_table_data, rows_views, scan_spec, FoundG, Include, IncludeG, RowG, Select, SelectG,
};
use crate::text::{lower_of, trim_s, views_of};

verus! {

/// One capital: its exonym and the endonyms that differ from it.
pub struct Capital {
    pub name: String,
    pub endonyms: Option<Vec<String>>,
}

/// The mathematical shape of a `Capital`.
pub struct CapitalG {
    pub name: Seq<char>,
    pub endonyms: Option<Seq<Seq<char>>>,
}

impl View for Capital {
    type V = CapitalG;

    open spec fn view(&self) -> CapitalG {
        (CapitalG {
            name: self.name@,
            endonyms: match &self.endonyms {
                Some(v) => Some(views_of(v@)),
                None => None,
            },
        })
    }
}

impl Clone for Capital {
    fn clone(&self) -> (r: Self)
        ensures
            r@ == self@,
    {
        Capital {
            name: self.name.clone(),
            endonyms: match &self.endonyms {
                Some(v) => Some(crate::builders::clone_strings(v)),
                None => None,
            },
        }
    }
}

/// The column schema of the capitals table: five header cells; country and
/// capital cells matched for links, the endonym cell matched for
/// language-tagged spans, two columns ignored.
pub open spec fn cap_schema_g() -> IncludeG {
    (IncludeG::Sparse {
        th_count: 5,
        rules: seq![
            Some(SelectG::Matching("a"@)),
            Some(SelectG::Matching("a"@)),
            None,
            Some(SelectG::Matching("span[lang]"@)),
            None,
        ],
    })
}

/// The endonyms taken from the matched spans from `i` on: each span's first
/// text node, trimmed, kept only when it differs from the exonym after case
/// and white-space normalization.
pub open spec fn endonyms_at(es: Seq<Elem>, name: Seq<char>, i: int) -> Seq<Seq<char>>
    decreases es.len() - i,
{
    if i < 0 || i >= es.len() {
        Seq::empty()
    } else {
        (if texts_of(es[i]).len() > 0 && lower_of(trim_s(texts_of(es[i])[0])) != lower_of(
            trim_s(name),
        ) {
            seq![trim_s(texts_of(es[i])[0])]
        } else {
            Seq::empty()
        }) + endonyms_at(es, name, i + 1)
    }
}

/// What one scanned row contributes: the resolved territory's key and the
/// capital. An unresolved country or a capital cell without link text skips
/// the row; a wrong column shape is fatal. A later row for the same
/// territory replaces the earlier entry.
pub open spec fn cap_row_s(
    m: RowG,
    items: Seq<(Identifier, Region)>,
    aliases: Option<Seq<(Identifier, Vec<String>)>>,
) -> RowOut<(Seq<char>, CapitalG)> {
    match col_of(m, 0) {
        Some(FoundG::Children(v)) => {
            let title = first_title_at(v, "/wiki/"@, 0);
            let text = first_text_at(v, "/wiki/"@, 0);
            match region_by_opt_s(items, aliases, title, text) {
                Err(_) => RowOut::Skip,
                Ok(i) => {
                    let key = items[i].0@;
                    match col_of(m, 1) {
                        Some(FoundG::Children(v1)) => match first_text_at(v1, "/wiki/"@, 0) {
                            None => RowOut::Skip,
                            Some(name) => match col_of(m, 3) {
                                Some(FoundG::Children(v3)) => {
                                    let endo = endonyms_at(v3, name, 0);
                                    RowOut::Take(
                                        (
                                            key,
                                            (CapitalG {
                                                name: name,
                                                endonyms: if endo.len() == 0 {
                                                    None
                                                } else {
                                                    Some(endo)
                                                },
                                            }),
                                        ),
                                    )
                                },
                                Some(_) => RowOut::Fatal(BuildError::SchemaShape),
                                None => RowOut::Fatal(BuildError::SchemaShape),
                            },
                        },
                        Some(_) => RowOut::Fatal(BuildError::SchemaShape),
                        None => RowOut::Fatal(BuildError::SchemaShape),
                    }
                },
            }
        },
        Some(_) => RowOut::Fatal(BuildError::SchemaShape),
        None => RowOut::Fatal(BuildError::SchemaShape),
    }
}

/// Folding the rows from `i` on onto the accumulated entries, replacing on a
/// repeated key.
pub open spec fn cap_fold(
    rows: Seq<RowG>,
    i: int,
    acc: Seq<(Seq<char>, CapitalG)>,
    items: Seq<(Identifier, Region)>,
    aliases: Option<Seq<(Identifier, Vec<String>)>>,
) -> Result<Seq<(Seq<char>, CapitalG)>, BuildError>
    decreases rows.len() - i,
{
    if i < 0 || i >= rows.len() {
        Ok(acc)
    } else {
        match cap_row_s(rows[i], items, aliases) {
            RowOut::Fatal(e) => Err(e),
            RowOut::Skip => cap_fold(rows, i + 1, acc, items, aliases),
            RowOut::Take((k, v)) => cap_fold(rows, i + 1, pairs_set(acc, k, v), items, aliases),
        }
    }
}

/// What building the capitals from a document yields.
pub open spec fn cap_from_html_s(
    doc: Elem,
    items: Seq<(Identifier, Region)>,
    aliases: Option<Seq<(Identifier, Vec<String>)>>,
) -> Result<Seq<(Seq<char>, CapitalG)>, BuildError> {
    match scan_spec(doc, cap_schema_g(), None) {
        Err(e) => Err(of_scan(e)),
        Ok(rows) => cap_fold(rows, 0, Seq::empty(), items, aliases),
    }
}

/// Collects the endonyms; exact counterpart of `endonyms_at` from position
/// zero.
#[verifier::loop_isolation(false)]
fn endonyms_x(els: &Vec<&Elem>, name: &str) -> (r: Vec<String>)
    ensures
        views_of(r@) == endonyms_at(crate::dom::derefs_of(els@), name@, 0),
{
    let ghost esv = crate::dom::derefs_of(els@);
    let name_lc = crate::text::lowercase(crate::text::trim_str(name));
    let n = els.len();
    let mut out: Vec<String> = Vec::new();
    let mut j: usize = 0;
    proof {
        assert(views_of(out@) =~= Seq::<Seq<char>>::empty());
        assert(views_of(out@) + endonyms_at(esv, name@, 0) =~= endonyms_at(esv, name@, 0));
    }
    while j < n
        invariant
            0 <= j <= n,
            views_of(out@) + endonyms_at(esv, name@, j as int) == endonyms_at(esv, name@, 0),
        decreases n - j,
    {
        proof {
            assert(esv[j as int] == *els@[j as int]);
        }
        let ts = els[j].texts();
        let ghost prev = views_of(out@);
        if ts.len() > 0 {
            proof {
                assert(views_of(ts@)[0] == ts@[0]@);
            }
            let t = crate::text::trim_str(ts[0].as_str());
            let t_lc = crate::text::lowercase(t);
            if !crate::text::str_eq(t_lc.as_str(), name_lc.as_str()) {
                let tv = t.to_owned();
                let ghost tvv = tv@;
                out.push(tv);
                proof {
                    assert(views_of(out@) =~= prev.push(tvv));
                    assert((prev + (seq![tvv] + endonyms_at(esv, name@, j + 1))) =~= (prev.push(
                        tvv,
                    ) + endonyms_at(esv, name@, j + 1)));
                }
            }
        } else {
            proof {
                assert(views_of(ts@).len() == 0);
            }
        }
        j += 1;
    }
    proof {
        assert(endonyms_at(esv, name@, n as int).len() == 0);
        assert(views_of(out@) =~= endonyms_at(esv, name@, 0));
    }
    out
}

impl Capital {
    /// Plain constructor; both fields are kept as given.
    pub fn new(name: String, endonyms: Option<Vec<String>>) -> (r: Self)
        ensures
            r.name@ == name@,
            r@.endonyms == (match endonyms {
                Some(v) => Some(views_of(v@)),
                None => None::<Seq<Seq<char>>>,
            }),
    {
        Self { name, endonyms }
    }

    /// Scans the capitals table and attaches each row's capital to its
    /// resolved territory; exact counterpart of `cap_from_html_s`.
    #[verifier::loop_isolation(false)]
    pub fn from_html(
        html: &Elem,
        regions: &Registry<Region>,
        countries: Option<&AliasTable>,
    ) -> (r: Result<Registry<Capital>, BuildError>)
        ensures
            r matches Ok(reg) ==> (cap_from_html_s(
                *html,
                regions.items@,
                (match countries {
                    Some(a) => Some(a.items@),
                    None => None,
                }),
            ) == Ok::<_, BuildError>(reg_views(reg.items@)) && keys_unique(reg.items@)),
            r matches Err(e) ==> cap_from_html_s(
                *html,
                regions.items@,
                (match countries {
                    Some(a) => Some(a.items@),
                    None => None,
                }),
            ) == Err::<Seq<(Seq<char>, CapitalG)>, BuildError>(e),
    {
        let ghost alv: Option<Seq<(Identifier, Vec<String>)>> = match countries {
            Some(a) => Some(a.items@),
            None => None,
        };
        let mut cols: Vec<Option<Select>> = Vec::new();
        cols.push(Some(Select::Matching("a".to_owned())));
        cols.push(Some(Select::Matching("a".to_owned())));
        cols.push(None);
        cols.push(Some(Select::Matching("span[lang]".to_owned())));
        cols.push(None);
        let collect = Include::Sparse { th_count: 5, rules: cols };
        proof {
            match collect@ {
                IncludeG::Sparse { th_count, rules } => {
                    assert(rules =~= (seq![
                        Some(SelectG::Matching("a"@)),
                        Some(SelectG::Matching("a"@)),
                        None,
                        Some(SelectG::Matching("span[lang]"@)),
                        None,
                    ]));
                },
                IncludeG::Exact { .. } => {
                    assert(false);
                },
            }
            assert(collect@ == cap_schema_g());
        }
        let rows = match map_from_table_data(html, &collect, None) {
            Ok(rows) => rows,
            Err(e) => {
                return Err(match e {
                    crate::scan::ScanError::NoTables => BuildError::NoTables,
                    crate::scan::ScanError::BadSelector => BuildError::BadSelector,
                });
            },
        };
        let ghost rowsv = rows_views(rows@);
        let n = rows.len();
        let mut items: Registry<Capital> = Registry::new();
        let mut i: usize = 0;
        proof {
            assert(reg_views(items.items@) =~= Seq::<(Seq<char>, CapitalG)>::empty());
        }
        while i < n
            invariant
                0 <= i <= n,
                keys_unique(items.items@),
                cap_fold(rowsv, 0, Seq::empty(), regions.items@, alv) == cap_fold(
                    rowsv,
                    i as int,
                    reg_views(items.items@),
                    regions.items@,
                    alv,
                ),
            decreases n - i,
        {
            proof {
                assert(rowsv[i as int] == rows@[i as int]@);
            }
            let row = &rows[i];
            let ghost accv = reg_views(items.items@);
            match row.get(0) {
                Some(crate::scan::Found::Children(v)) => {
                    let (title, text) = crate::extract::link_title_and_text_opt_if("/wiki/", v);
                    match region_by_opt(regions, countries, title.as_ref(), text.as_ref()) {
                        Ok((id, _region)) => {
                            match row.get(1) {
                                Some(crate::scan::Found::Children(v1)) => {
                                    match crate::extract::first_link_text("/wiki/", v1) {
                                        Some(name) => {
                                            match row.get(3) {
                                                Some(crate::scan::Found::Children(v3)) => {
                                                    let endo = endonyms_x(v3, name.as_str());
                                                    let cap = Capital::new(
                                                        name,
                                                        if endo.len() == 0 {
                                                            None
                                                        } else {
                                                            Some(endo)
                                                        },
                                                    );
                                                    let ghost idv = id@;
                                                    let ghost cvv = cap@;
                                                    proof {
                                                        crate::builders::lemma_find_views(
                                                            items.items@,
                                                            idv,
                                                            0,
                                                        );
                                                        crate::builders::lemma_pairs_find_bounds(
                                                            accv,
                                                            idv,
                                                            0,
                                                        );
                                                    }
                                                    items.set_entry(id, cap);
                                                    proof {
                                                        match crate::builders::pairs_find_at(
                                                            accv,
                                                            idv,
                                                            0,
                                                        ) {
                                                            Some(pi) => {
                                                                assert(reg_views(items.items@)
                                                                    =~= accv.update(
                                                                    pi,
                                                                    (idv, cvv),
                                                                ));
                                                            },
                                                            None => {
                                                                assert(reg_views(items.items@)
                                                                    =~= accv.push((idv, cvv)));
                                                            },
                                                        }
                                                        assert(reg_views(items.items@)
                                                            == pairs_set(accv, idv, cvv));
                                                    }
                                                },
                                                _ => {
                                                    return Err(BuildError::SchemaShape);
                                                },
                                            }
                                        },
                                        None => {
                                        },
                                    }
                                },
                                _ => {
                                    return Err(BuildError::SchemaShape);
                                },
                            }
                        },
                        Err(_) => {
                        },
                    }
                },
                _ => {
                    return Err(BuildError::SchemaShape);
                },
            }
            proof {
                assert(cap_fold(rowsv, i as int, accv, regions.items@, alv) == cap_fold(
                    rowsv,
                    i + 1,
                    reg_views(items.items@),
                    regions.items@,
                    alv,
                ));
            }
            i += 1;
        }
        proof {
            assert(cap_fold(rowsv, n as int, reg_views(items.items@), regions.items@, alv)
                == Ok::<_, BuildError>(reg_views(items.items@)));
        }
        Ok(items)
    }
}

} // verus!
