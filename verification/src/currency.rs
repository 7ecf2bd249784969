//! The currency builder: one entity per settlement code. Distinct rows
//! describing the same code are merged by appending the new row's territory
//! to the existing entity's region list, never by creating a duplicate.

use vstd::prelude::*;
use crate::builders::{
    col_of, of_scan, pairs_find_at, reg_views, BuildError,
};
use crate::dom::Elem;
use crate::extract::{first_text_at, first_title_at, inner_first_at};
use crate::ident::{canon_of, Identifier};
use crate::region::{region_by_opt, region_by_opt_s, Region};
use crate::registry::{keys_unique, AliasTable, Registry};
use crate::scan::{
    map_from_table_data, rows_views, scan_spec, FoundG, Include, IncludeG, RowG, Select, SelectG,
};
use crate::text::until_char;

verus! {

/// A currency's subunit: its name and how many make one base unit.
pub struct Fraction {
    pub name: String,
    pub basic: u16,
}

/// The mathematical shape of a `Fraction`.
pub struct FractionG {
    pub name: Seq<char>,
    pub basic: u16,
}

impl View for Fraction {
    type V = FractionG;

    open spec fn view(&self) -> FractionG {
        (FractionG { name: self.name@, basic: self.basic })
    }
}

impl Clone for Fraction {
    fn clone(&self) -> (r: Self)
        ensures
            r == *self,
    {
        Fraction { name: self.name.clone(), basic: self.basic }
    }
}

impl Fraction {
    /// Plain constructor; both fields are kept as given.
    pub fn new(name: String, basic: u16) -> (r: Self)
        ensures
            r.name@ == name@,
            r.basic == basic,
    {
        Self { name, basic }
    }
}

/// One circulating currency and the territories it circulates in.
pub struct Currency {
    pub name: String,
    pub symbol: String,
    pub fraction: Fraction,
    pub regions: Vec<Identifier>,
}

/// The mathematical shape of a `Currency`.
pub struct CurrencyG {
    pub name: Seq<char>,
    pub symbol: Seq<char>,
    pub fraction: FractionG,
    pub regions: Seq<Seq<char>>,
}

/// The views of a list of identifiers.
pub open spec fn ids_views(v: Seq<Identifier>) -> Seq<Seq<char>> {
    Seq::new(v.len(), |i: int| v[i]@)
}

impl View for Currency {
    type V = CurrencyG;

    open spec fn view(&self) -> CurrencyG {
        (CurrencyG {
            name: self.name@,
            symbol: self.symbol@,
            fraction: self.fraction@,
            regions: ids_views(self.regions@),
        })
    }
}

impl Clone for Currency {
    fn clone(&self) -> (r: Self)
        ensures
            r@ == self@,
    {
        let r = Currency {
            name: self.name.clone(),
            symbol: self.symbol.clone(),
            fraction: self.fraction.clone(),
            regions: crate::builders::clone_idents(&self.regions),
        };
        proof {
            assert(r@.regions =~= self@.regions);
        }
        r
    }
}

/// The column schema of the currency table: six header cells, every column
/// mapped, link matches for country, name and subunit, inner text for
/// symbol, code and ratio.
pub open spec fn cur_schema_g() -> IncludeG {
    (IncludeG::Exact {
        th_count: 6,
        rules: seq![
            SelectG::Matching("a"@),
            SelectG::Matching("a"@),
            SelectG::InnerAsText,
            SelectG::InnerAsText,
            SelectG::Matching("a"@),
            SelectG::InnerAsText,
        ],
    })
}

/// What one scanned currency row contributes.
pub enum CurRow {
    Fatal(BuildError),
    Skip,
    Merge(int, Seq<char>),
    Take((Seq<char>, CurrencyG)),
}

/// What one scanned row contributes: a new currency keyed by its settlement
/// code, or, when the code is already present, the resolved territory to
/// append to the existing entity's region list. Rows without a three-letter
/// code, with an unresolved country, or with a missing field are skipped; a
/// structurally wrong column shape is fatal.
pub open spec fn cur_row_s(
    m: RowG,
    items: Seq<(Identifier, Region)>,
    aliases: Option<Seq<(Identifier, Vec<String>)>>,
    acc: Seq<(Seq<char>, CurrencyG)>,
) -> CurRow {
    match col_of(m, 3) {
        None => CurRow::Skip,
        Some(FoundG::InnerText(v3)) => match crate::builders::first_trim_len_at(v3, 3, 0) {
            None => CurRow::Skip,
            Some(code) => {
                let iso = canon_of(code);
                match col_of(m, 0) {
                    Some(FoundG::Children(v0)) => {
                        let title = first_title_at(v0, "/wiki/"@, 0);
                        let text = first_text_at(v0, "/wiki/"@, 0);
                        match region_by_opt_s(items, aliases, title, text) {
                            Err(_) => CurRow::Skip,
                            Ok(ri) => {
                                let rid = items[ri].0@;
                                match pairs_find_at(acc, iso, 0) {
                                    Some(ci) => CurRow::Merge(ci, rid),
                                    None => match col_of(m, 1) {
                                        Some(FoundG::Children(v1)) => match first_text_at(
                                            v1,
                                            "/wiki/"@,
                                            0,
                                        ) {
                                            None => CurRow::Skip,
                                            Some(name) => match col_of(m, 2) {
                                                Some(FoundG::InnerText(v2)) => match inner_first_at(
                                                    1,
                                                    None,
                                                    v2,
                                                    0,
                                                ) {
                                                    None => CurRow::Skip,
                                                    Some(sym) => {
                                                        let symbol = sym.subrange(
                                                            0,
                                                            until_char(sym, 0, ' '),
                                                        );
                                                        match col_of(m, 4) {
                                                            Some(FoundG::Children(v4)) => match
                                                                first_text_at(v4, "/wiki/"@, 0) {
                                                                None => CurRow::Skip,
                                                                Some(fname) => match col_of(m, 5) {
                                                                    Some(
                                                                        FoundG::InnerText(v5),
                                                                    ) => match
                                                                        crate::builders::first_parse_u16_at(
                                                                        v5,
                                                                        0,
                                                                    ) {
                                                                        None => CurRow::Skip,
                                                                        Some(basic) => CurRow::Take(
                                                                            (
                                                                                iso,
                                                                                (CurrencyG {
                                                                                    name,
                                                                                    symbol,
                                                                                    fraction: (
                                                                                    FractionG {
                                                                                        name: fname,
                                                                                        basic,
                                                                                    }),
                                                                                    regions: seq![
                                                                                        rid,
                                                                                    ],
                                                                                }),
                                                                            ),
                                                                        ),
                                                                    },
                                                                    Some(_) => CurRow::Fatal(
                                                                        BuildError::SchemaShape,
                                                                    ),
                                                                    None => CurRow::Skip,
                                                                },
                                                            },
                                                            Some(_) => CurRow::Fatal(
                                                                BuildError::SchemaShape,
                                                            ),
                                                            None => CurRow::Skip,
                                                        }
                                                    },
                                                },
                                                Some(_) => CurRow::Fatal(BuildError::SchemaShape),
                                                None => CurRow::Skip,
                                            },
                                        },
                                        Some(_) => CurRow::Fatal(BuildError::SchemaShape),
                                        None => CurRow::Skip,
                                    },
                                }
                            },
                        }
                    },
                    Some(_) => CurRow::Fatal(BuildError::SchemaShape),
                    None => CurRow::Fatal(BuildError::SchemaShape),
                }
            },
        },
        Some(_) => CurRow::Fatal(BuildError::SchemaShape),
    }
}

/// One merged entry: the existing pair with the territory appended to its
/// region list.
pub open spec fn cur_merge(acc: Seq<(Seq<char>, CurrencyG)>, ci: int, rid: Seq<char>) -> Seq<
    (Seq<char>, CurrencyG),
> {
    acc.update(
        ci,
        (
            acc[ci].0,
            (CurrencyG {
                name: acc[ci].1.name,
                symbol: acc[ci].1.symbol,
                fraction: acc[ci].1.fraction,
                regions: acc[ci].1.regions.push(rid),
            }),
        ),
    )
}

/// Folding the currency rows from `i` on.
pub open spec fn cur_fold(
    rows: Seq<RowG>,
    i: int,
    acc: Seq<(Seq<char>, CurrencyG)>,
    items: Seq<(Identifier, Region)>,
    aliases: Option<Seq<(Identifier, Vec<String>)>>,
) -> Result<Seq<(Seq<char>, CurrencyG)>, BuildError>
    decreases rows.len() - i,
{
    if i < 0 || i >= rows.len() {
        Ok(acc)
    } else {
        match cur_row_s(rows[i], items, aliases, acc) {
            CurRow::Fatal(e) => Err(e),
            CurRow::Skip => cur_fold(rows, i + 1, acc, items, aliases),
            CurRow::Merge(ci, rid) => cur_fold(
                rows,
                i + 1,
                cur_merge(acc, ci, rid),
                items,
                aliases,
            ),
            CurRow::Take(p) => cur_fold(rows, i + 1, acc.push(p), items, aliases),
        }
    }
}

/// What building the currencies from a document yields.
pub open spec fn cur_from_html_s(
    doc: Elem,
    items: Seq<(Identifier, Region)>,
    aliases: Option<Seq<(Identifier, Vec<String>)>>,
) -> Result<Seq<(Seq<char>, CurrencyG)>, BuildError> {
    match scan_spec(doc, cur_schema_g(), None) {
        Err(e) => Err(of_scan(e)),
        Ok(rows) => cur_fold(rows, 0, Seq::empty(), items, aliases),
    }
}

impl Currency {
    /// Plain constructor: the region list holds the given territory, or
    /// nothing.
    pub fn new(name: String, symbol: String, fraction: Fraction, region: Option<Identifier>) -> (r:
        Self)
        ensures
            r.name@ == name@,
            r.symbol@ == symbol@,
            r.fraction == fraction,
            r@.regions == (match region {
                Some(c) => seq![c@],
                None => Seq::<Seq<char>>::empty(),
            }),
    {
        let regions: Vec<Identifier> = match region {
            Some(c) => {
                let mut v = Vec::new();
                v.push(c);
                v
            },
            None => Vec::new(),
        };
        let r = Self { name, symbol, fraction, regions };
        proof {
            assert(r@.regions =~= (match region {
                Some(c) => seq![c@],
                None => Seq::<Seq<char>>::empty(),
            }));
        }
        r
    }

    /// Scans the currency table, resolving each row's territory; a row whose
    /// settlement code is already present appends its territory to the
    /// existing entity instead of creating a second one; exact counterpart
    /// of `cur_from_html_s`.
    #[verifier::loop_isolation(false)]
    pub fn from_html(
        html: &Elem,
        regions: &Registry<Region>,
        countries: Option<&AliasTable>,
    ) -> (r: Result<Registry<Currency>, BuildError>)
        ensures
            r matches Ok(reg) ==> (cur_from_html_s(
                *html,
                regions.items@,
                (match countries {
                    Some(a) => Some(a.items@),
                    None => None,
                }),
            ) == Ok::<_, BuildError>(reg_views(reg.items@)) && keys_unique(reg.items@)),
            r matches Err(e) ==> cur_from_html_s(
                *html,
                regions.items@,
                (match countries {
                    Some(a) => Some(a.items@),
                    None => None,
                }),
            ) == Err::<Seq<(Seq<char>, CurrencyG)>, BuildError>(e),
    {
        let ghost alv: Option<Seq<(Identifier, Vec<String>)>> = match countries {
            Some(a) => Some(a.items@),
            None => None,
        };
        let mut cols: Vec<Select> = Vec::new();
        cols.push(Select::Matching("a".to_owned()));
        cols.push(Select::Matching("a".to_owned()));
        cols.push(Select::InnerAsText);
        cols.push(Select::InnerAsText);
        cols.push(Select::Matching("a".to_owned()));
        cols.push(Select::InnerAsText);
        let collect = Include::Exact { th_count: 6, rules: cols };
        proof {
            match collect@ {
                IncludeG::Exact { th_count, rules } => {
                    assert(rules =~= (seq![
                        SelectG::Matching("a"@),
                        SelectG::Matching("a"@),
                        SelectG::InnerAsText,
                        SelectG::InnerAsText,
                        SelectG::Matching("a"@),
                        SelectG::InnerAsText,
                    ]));
                },
                IncludeG::Sparse { .. } => {
                    assert(false);
                },
            }
            assert(collect@ == cur_schema_g());
        }
        let rows = match map_from_table_data(html, &collect, None) {
            Ok(rows) => rows,
            Err(e) => {
                return Err(match e {
                    crate::scan::ScanError::NoTables => BuildError::NoTables,
                    crate::scan::ScanError::BadSelector => BuildError::BadSelector,
                });
            },
        };
        let ghost rowsv = rows_views(rows@);
        let n = rows.len();
        let mut items: Registry<Currency> = Registry::new();
        let mut i: usize = 0;
        proof {
            assert(reg_views(items.items@) =~= Seq::<(Seq<char>, CurrencyG)>::empty());
        }
        while i < n
            invariant
                0 <= i <= n,
                keys_unique(items.items@),
                cur_fold(rowsv, 0, Seq::empty(), regions.items@, alv) == cur_fold(
                    rowsv,
                    i as int,
                    reg_views(items.items@),
                    regions.items@,
                    alv,
                ),
            decreases n - i,
        {
            proof {
                assert(rowsv[i as int] == rows@[i as int]@);
            }
            let row = &rows[i];
            let ghost accv = reg_views(items.items@);
            match row.get(3) {
                Some(crate::scan::Found::InnerText(v3)) => {
                    match crate::builders::first_trim_len(v3, 3) {
                        Some(code) => {
                            let iso = Identifier::new(code.as_str());
                            match row.get(0) {
                                Some(crate::scan::Found::Children(v0)) => {
                                    let (title, text) = crate::extract::link_title_and_text_opt_if(
                                        "/wiki/",
                                        v0,
                                    );
                                    match region_by_opt(
                                        regions,
                                        countries,
                                        title.as_ref(),
                                        text.as_ref(),
                                    ) {
                                        Ok((rid, _region)) => {
                                            proof {
                                                crate::builders::lemma_find_views(
                                                    items.items@,
                                                    iso@,
                                                    0,
                                                );
                                                crate::builders::lemma_pairs_find_bounds(
                                                    accv,
                                                    iso@,
                                                    0,
                                                );
                                            }
                                            match items.find(iso.as_str()) {
                                                Some(ci) => {
                                                    let ghost olditems = items.items@;
                                                    let ghost ridv = rid@;
                                                    let pair = items.items.remove(ci);
                                                    let cid = pair.0;
                                                    let mut cur = pair.1;
                                                    cur.regions.push(rid);
                                                    let ghost curg = cur@;
                                                    items.items.insert(ci, (cid, cur));
                                                    proof {
                                                        assert(items.items@ =~= olditems.update(
                                                            ci as int,
                                                            (cid, cur),
                                                        ));
                                                        assert(curg.regions =~= olditems[ci as int]
                                                            .1@.regions.push(ridv));
                                                        crate::registry::lemma_update_keeps_unique(
                                                            olditems,
                                                            ci as int,
                                                            cid,
                                                            cur,
                                                        );
                                                        assert(reg_views(items.items@)
                                                            =~= cur_merge(accv, ci as int, ridv));
                                                    }
                                                },
                                                None => {
                                                    let fname_opt: Option<String>;
                                                    let name_opt: Option<String> = match row.get(1)
                                                     {
                                                        Some(
                                                            crate::scan::Found::Children(v1),
                                                        ) => crate::extract::first_link_text(
                                                            "/wiki/",
                                                            v1,
                                                        ),
                                                        Some(_) => {
                                                            return Err(BuildError::SchemaShape);
                                                        },
                                                        None => None,
                                                    };
                                                    match name_opt {
                                                        Some(name) => {
                                                            let sym_opt: Option<String> = match row
                                                                .get(2) {
                                                                Some(
                                                                    crate::scan::Found::InnerText(
                                                                        v2,
                                                                    ),
                                                                ) => crate::extract::inner_text_first_if(
                                                                    1,
                                                                    None,
                                                                    v2,
                                                                ),
                                                                Some(_) => {
                                                                    return Err(
                                                                        BuildError::SchemaShape,
                                                                    );
                                                                },
                                                                None => None,
                                                            };
                                                            match sym_opt {
                                                                Some(sym) => {
                                                                    let symbol =
                                                                        crate::text::cut_at_char(
                                                                        sym.as_str(),
                                                                        ' ',
                                                                    );
                                                                    fname_opt = match row.get(4) {
                                                                        Some(
                                                                            crate::scan::Found::Children(
                                                                                v4,
                                                                            ),
                                                                        ) => crate::extract::first_link_text(
                                                                            "/wiki/",
                                                                            v4,
                                                                        ),
                                                                        Some(_) => {
                                                                            return Err(
                                                                                BuildError::SchemaShape,
                                                                            );
                                                                        },
                                                                        None => None,
                                                                    };
                                                                    match fname_opt {
                                                                        Some(fname) => {
                                                                            let basic_opt: Option<
                                                                                u16,
                                                                            > = match row.get(5) {
                                                                                Some(
                                                                                    crate::scan::Found::InnerText(
                                                                                        v5,
                                                                                    ),
                                                                                ) => crate::builders::first_parse_u16(
                                                                                    v5,
                                                                                ),
                                                                                Some(_) => {
                                                                                    return Err(
                                                                                        BuildError::SchemaShape,
                                                                                    );
                                                                                },
                                                                                None => None,
                                                                            };
                                                                            match basic_opt {
                                                                                Some(basic) => {
                                                                                    let cv =
                                                                                        Currency::new(
                                                                                        name,
                                                                                        symbol,
                                                                                        Fraction::new(
                                                                                            fname,
                                                                                            basic,
                                                                                        ),
                                                                                        Some(rid),
                                                                                    );
                                                                                    let ghost idv =
                                                                                        iso@;
                                                                                    let ghost cvv =
                                                                                        cv@;
                                                                                    proof {
                                                                                        crate::registry::lemma_push_keeps_unique(
                                                                                            items.items@,
                                                                                            iso,
                                                                                            cv,
                                                                                        );
                                                                                        crate::builders::lemma_has_key_views(
                                                                                            items.items@,
                                                                                            idv,
                                                                                        );
                                                                                    }
                                                                                    items.push_new(
                                                                                        iso,
                                                                                        cv,
                                                                                    );
                                                                                    proof {
                                                                                        assert(
                                                                                        reg_views(
                                                                                            items.items@,
                                                                                        ) =~= accv
                                                                                            .push(
                                                                                            (
                                                                                                idv,
                                                                                                cvv,
                                                                                            ),
                                                                                        ));
                                                                                    }
                                                                                },
                                                                                None => {
                                                                                },
                                                                            }
                                                                        },
                                                                        None => {
                                                                        },
                                                                    }
                                                                },
                                                                None => {
                                                                },
                                                            }
                                                        },
                                                        None => {
                                                        },
                                                    }
                                                },
                                            }
                                        },
                                        Err(_) => {
                                        },
                                    }
                                },
                                _ => {
                                    return Err(BuildError::SchemaShape);
                                },
                            }
                        },
                        None => {
                        },
                    }
                },
                Some(_) => {
                    return Err(BuildError::SchemaShape);
                },
                None => {
                },
            }
            proof {
                assert(cur_fold(rowsv, i as int, accv, regions.items@, alv) == cur_fold(
                    rowsv,
                    i + 1,
                    reg_views(items.items@),
                    regions.items@,
                    alv,
                ));
            }
            i += 1;
        }
        proof {
            assert(cur_fold(rowsv, n as int, reg_views(items.items@), regions.items@, alv)
                == Ok::<_, BuildError>(reg_views(items.items@)));
        }
        Ok(items)
    }
}

} // verus!
