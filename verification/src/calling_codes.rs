//! The calling-code builder: one dialing-prefix string per territory, keyed
//! by the territory's identifier; a second row resolving to an
//! already-populated key is discarded.

use vstd::prelude::*;
use crate::builders::{
    col_of, nth_opt, of_scan, pairs_has_key, reg_views, take2_trimmed, BuildError, RowOut,
};
use crate::dom::{texts_of, Elem};
use crate::extract::first_text_at;
use crate::ident::Identifier;
use crate::region::{region_by_opt, region_by_opt_s, Region};
use crate::registry::{keys_unique, AliasTable, Registry};
use crate::scan::{
    map_from_table_data, rows_views, scan_spec, FoundG, Include, IncludeG, RowG, Select, SelectG,
};

verus! {

/// One territory's dialing prefix.
pub struct CallingCode(pub String);

impl View for CallingCode {
    type V = Seq<char>;

    open spec fn view(&self) -> Seq<char> {
        self.0@
    }
}

impl Clone for CallingCode {
    fn clone(&self) -> (r: Self)
        ensures
            r == *self,
    {
        CallingCode(self.0.clone())
    }
}

/// The column schema of the calling-code table: five header cells, the
/// country cell passed through whole, the code cell matched for links, two
/// trailing columns ignored.
pub open spec fn cc_schema_g() -> IncludeG {
    (IncludeG::Sparse {
        th_count: 5,
        rules: seq![
            Some(SelectG::TdElement),
            Some(SelectG::Matching("a"@)),
            None,
            None,
        ],
    })
}

/// What one scanned row contributes: the resolved territory's key and the
/// code's link text. A row whose code cell has no reference link text, whose
/// country cannot be resolved, or whose territory already carries a code is
/// skipped; a structurally wrong column shape is fatal.
pub open spec fn cc_row_s(
    m: RowG,
    items: Seq<(Identifier, Region)>,
    aliases: Option<Seq<(Identifier, Vec<String>)>>,
    acc: Seq<(Seq<char>, Seq<char>)>,
) -> RowOut<(Seq<char>, Seq<char>)> {
    match col_of(m, 1) {
        Some(FoundG::Children(v)) => match first_text_at(v, "/wiki/"@, 0) {
            None => RowOut::Skip,
            Some(code) => match col_of(m, 0) {
                Some(FoundG::Parent(e)) => {
                    let vals = take2_trimmed(texts_of(e));
                    match region_by_opt_s(items, aliases, nth_opt(vals, 0), nth_opt(vals, 1)) {
                        Ok(i) => {
                            let k = items[i].0@;
                            if pairs_has_key(acc, k) {
                                RowOut::Skip
                            } else {
                                RowOut::Take((k, code))
                            }
                        },
                        Err(_) => RowOut::Skip,
                    }
                },
                Some(_) => RowOut::Fatal(BuildError::SchemaShape),
                None => RowOut::Fatal(BuildError::SchemaShape),
            },
        },
        Some(_) => RowOut::Fatal(BuildError::SchemaShape),
        None => RowOut::Fatal(BuildError::SchemaShape),
    }
}

/// Folding the rows from `i` on onto the accumulated entries.
pub open spec fn cc_fold(
    rows: Seq<RowG>,
    i: int,
    acc: Seq<(Seq<char>, Seq<char>)>,
    items: Seq<(Identifier, Region)>,
    aliases: Option<Seq<(Identifier, Vec<String>)>>,
) -> Result<Seq<(Seq<char>, Seq<char>)>, BuildError>
    decreases rows.len() - i,
{
    if i < 0 || i >= rows.len() {
        Ok(acc)
    } else {
        match cc_row_s(rows[i], items, aliases, acc) {
            RowOut::Fatal(e) => Err(e),
            RowOut::Skip => cc_fold(rows, i + 1, acc, items, aliases),
            RowOut::Take(p) => cc_fold(rows, i + 1, acc.push(p), items, aliases),
        }
    }
}

/// What building the calling codes from a document yields: the scan's error,
/// or the fold of every scanned row.
pub open spec fn cc_from_html_s(
    doc: Elem,
    items: Seq<(Identifier, Region)>,
    aliases: Option<Seq<(Identifier, Vec<String>)>>,
) -> Result<Seq<(Seq<char>, Seq<char>)>, BuildError> {
    match scan_spec(doc, cc_schema_g(), None) {
        Err(e) => Err(of_scan(e)),
        Ok(rows) => cc_fold(rows, 0, Seq::empty(), items, aliases),
    }
}

impl CallingCode {
    /// Plain constructor; the code text is kept as given.
    pub fn new(code: String) -> (r: Self)
        ensures
            r.0@ == code@,
    {
        Self(code)
    }

    /// Scans the calling-code table and attaches each row's code to its
    /// resolved territory, first row per territory winning; exact
    /// counterpart of `cc_from_html_s`.
    #[verifier::loop_isolation(false)]
    pub fn from_html(
        html: &Elem,
        iso_3166: &Registry<Region>,
        countries: Option<&AliasTable>,
    ) -> (r: Result<Registry<CallingCode>, BuildError>)
        ensures
            r matches Ok(reg) ==> (cc_from_html_s(
                *html,
                iso_3166.items@,
                (match countries {
                    Some(a) => Some(a.items@),
                    None => None,
                }),
            ) == Ok::<_, BuildError>(reg_views(reg.items@)) && keys_unique(reg.items@)),
            r matches Err(e) ==> cc_from_html_s(
                *html,
                iso_3166.items@,
                (match countries {
                    Some(a) => Some(a.items@),
                    None => None,
                }),
            ) == Err::<Seq<(Seq<char>, Seq<char>)>, BuildError>(e),
    {
        let ghost alv: Option<Seq<(Identifier, Vec<String>)>> = match countries {
            Some(a) => Some(a.items@),
            None => None,
        };
        let mut cols: Vec<Option<Select>> = Vec::new();
        cols.push(Some(Select::TdElement));
        cols.push(Some(Select::Matching("a".to_owned())));
        cols.push(None);
        cols.push(None);
        let collect = Include::Sparse { th_count: 5, rules: cols };
        proof {
            match collect@ {
                IncludeG::Sparse { th_count, rules } => {
                    assert(rules =~= (seq![
                        Some(SelectG::TdElement),
                        Some(SelectG::Matching("a"@)),
                        None,
                        None,
                    ]));
                },
                IncludeG::Exact { .. } => {
                    assert(false);
                },
            }
            assert(collect@ == cc_schema_g());
        }
        let rows = match map_from_table_data(html, &collect, None) {
            Ok(rows) => rows,
            Err(e) => {
                return Err(match e {
                    crate::scan::ScanError::NoTables => BuildError::NoTables,
                    crate::scan::ScanError::BadSelector => BuildError::BadSelector,
                });
            },
        };
        let ghost rowsv = rows_views(rows@);
        let n = rows.len();
        let mut items: Registry<CallingCode> = Registry::new();
        let mut i: usize = 0;
        proof {
            assert(reg_views(items.items@) =~= Seq::<(Seq<char>, Seq<char>)>::empty());
        }
        while i < n
            invariant
                0 <= i <= n,
                keys_unique(items.items@),
                cc_fold(rowsv, 0, Seq::empty(), iso_3166.items@, alv) == cc_fold(
                    rowsv,
                    i as int,
                    reg_views(items.items@),
                    iso_3166.items@,
                    alv,
                ),
            decreases n - i,
        {
            proof {
                assert(rowsv[i as int] == rows@[i as int]@);
            }
            let row = &rows[i];
            let ghost accv = reg_views(items.items@);
            match row.get(1) {
                Some(f1) => {
                    match f1 {
                        crate::scan::Found::Children(v) => {
                            match crate::extract::first_link_text("/wiki/", v) {
                                Some(code) => {
                                    match row.get(0) {
                                        Some(f0) => {
                                            match f0 {
                                                crate::scan::Found::Parent(e) => {
                                                    let texts = e.texts();
                                                    let vals = crate::builders::take2_trim(&texts);
                                                    let r0 = crate::builders::nth_str(&vals, 0);
                                                    let r1 = crate::builders::nth_str(&vals, 1);
                                                    match region_by_opt(iso_3166, countries, r0, r1)
                                                     {
                                                        Ok((id, _region)) => {
                                                            proof {
                                                                crate::builders::lemma_has_key_views(
                                                                    items.items@,
                                                                    id@,
                                                                );
                                                            }
                                                            if !items.contains_key(&id) {
                                                                let cv = CallingCode::new(code);
                                                                let ghost idv = id@;
                                                                let ghost cvv = cv@;
                                                                proof {
                                                                    crate::registry::lemma_push_keeps_unique(
                                                                        items.items@,
                                                                        id,
                                                                        cv,
                                                                    );
                                                                }
                                                                items.push_new(id, cv);
                                                                proof {
                                                                    assert(reg_views(items.items@)
                                                                        =~= accv.push(
                                                                        (idv, cvv),
                                                                    ));
                                                                }
                                                            }
                                                        },
                                                        Err(_) => {
                                                        },
                                                    }
                                                },
                                                _ => {
                                                    proof {
                                                        assert(cc_row_s(
                                                            rowsv[i as int],
                                                            iso_3166.items@,
                                                            alv,
                                                            accv,
                                                        ) == RowOut::<(Seq<char>, Seq<char>)>::Fatal(
                                                            BuildError::SchemaShape,
                                                        ));
                                                    }
                                                    return Err(BuildError::SchemaShape);
                                                },
                                            }
                                        },
                                        None => {
                                            return Err(BuildError::SchemaShape);
                                        },
                                    }
                                },
                                None => {
                                },
                            }
                        },
                        _ => {
                            return Err(BuildError::SchemaShape);
                        },
                    }
                },
                None => {
                    return Err(BuildError::SchemaShape);
                },
            }
            proof {
                assert(cc_fold(rowsv, i as int, accv, iso_3166.items@, alv) == cc_fold(
                    rowsv,
                    i + 1,
                    reg_views(items.items@),
                    iso_3166.items@,
                    alv,
                ));
            }
            i += 1;
        }
        proof {
            assert(cc_fold(rowsv, n as int, reg_views(items.items@), iso_3166.items@, alv)
                == Ok::<_, BuildError>(reg_views(items.items@)));
        }
        Ok(items)
    }
}

} // verus!
