//! The language builder: one entity per language, keyed by its third-set
//! code, and a secondary free-text pass that scans a zones document and
//! attaches territories to the languages named in each cell.

use vstd::prelude::*;
use crate::builders::{col_of, of_scan, pairs_set, reg_views, BuildError, RowOut};
use crate::currency::ids_views;
use crate::dom::{descs_of, simple_tag, texts_of, Elem};
use crate::extract::{
    first_pair_at, first_text_at, first_title_at, link_text_if_s, link_title_if_s,
};
use crate::ident::{canon_of, Identifier};
use crate::region::{region_by_opt, region_by_opt_s, Region};
use crate::registry::{keys_unique, AliasTable, Registry};
use crate::scan::{
    map_from_table_data, rows_views, scan_spec, FoundG, Include, IncludeG, RowG, Select, SelectG,
};
use crate::text::{alpha_at, concat_at, lower_of, tokens_ws};

verus! {

/// The four fixed language sub-codes.
pub struct Iso639 {
    pub set1: String,
    pub set2_t: String,
    pub set2_b: String,
    pub set3: String,
}

/// The mathematical shape of an `Iso639`.
pub struct Iso639G {
    pub set1: Seq<char>,
    pub set2_t: Seq<char>,
    pub set2_b: Seq<char>,
    pub set3: Seq<char>,
}

impl View for Iso639 {
    type V = Iso639G;

    open spec fn view(&self) -> Iso639G {
        (Iso639G {
            set1: self.set1@,
            set2_t: self.set2_t@,
            set2_b: self.set2_b@,
            set3: self.set3@,
        })
    }
}

impl Clone for Iso639 {
    fn clone(&self) -> (r: Self)
        ensures
            r == *self,
    {
        Iso639 {
            set1: self.set1.clone(),
            set2_t: self.set2_t.clone(),
            set2_b: self.set2_b.clone(),
            set3: self.set3.clone(),
        }
    }
}

/// One language: its two display names, its sub-codes, and the territories
/// the zones pass attaches.
pub struct Language {
    pub name_short: String,
    pub name_long: String,
    pub iso639: Iso639,
    pub regions: Vec<Identifier>,
}

/// The mathematical shape of a `Language`.
pub struct LanguageG {
    pub name_short: Seq<char>,
    pub name_long: Seq<char>,
    pub iso639: Iso639G,
    pub regions: Seq<Seq<char>>,
}

impl View for Language {
    type V = LanguageG;

    open spec fn view(&self) -> LanguageG {
        (LanguageG {
            name_short: self.name_short@,
            name_long: self.name_long@,
            iso639: self.iso639@,
            regions: ids_views(self.regions@),
        })
    }
}

impl Clone for Language {
    fn clone(&self) -> (r: Self)
        ensures
            r@ == self@,
    {
        let r = Language {
            name_short: self.name_short.clone(),
            name_long: self.name_long.clone(),
            iso639: self.iso639.clone(),
            regions: crate::builders::clone_idents(&self.regions),
        };
        proof {
            assert(r@.regions =~= self@.regions);
        }
        r
    }
}

/// The column schema of the language-code table: six header cells, the name
/// and reference cells matched for links, the three code cells matched for
/// `code` elements, one column ignored.
pub open spec fn lang_schema_g() -> IncludeG {
    (IncludeG::Sparse {
        th_count: 6,
        rules: seq![
            Some(SelectG::Matching("a"@)),
            Some(SelectG::Matching("a"@)),
            Some(SelectG::Matching("code"@)),
            Some(SelectG::Matching("code"@)),
            Some(SelectG::Matching("code"@)),
            None,
        ],
    })
}

/// The code text of a matched cell: the first matched element's text, taken
/// from its first bold descendant when it has one, concatenated.
pub open spec fn code_text_s(v: Seq<Elem>) -> Option<Seq<char>> {
    if v.len() == 0 {
        None
    } else {
        let bs = descs_of(v[0], simple_tag("b"@));
        if bs.len() > 0 {
            Some(concat_at(texts_of(bs[0]), 0))
        } else {
            Some(concat_at(texts_of(v[0]), 0))
        }
    }
}

/// Exact executable counterpart of `code_text_s`.
fn code_text_x(els: &Vec<&Elem>) -> (r: Option<String>)
    ensures
        r is Some <==> code_text_s(crate::dom::derefs_of(els@)) is Some,
        r matches Some(v) ==> code_text_s(crate::dom::derefs_of(els@)) == Some(v@),
{
    if els.len() == 0 {
        return None;
    }
    proof {
        assert(crate::dom::derefs_of(els@)[0] == *els@[0]);
    }
    let first = els[0];
    let bs = crate::dom::descendants_tagged(first, "b");
    if bs.len() > 0 {
        proof {
            assert(crate::dom::derefs_of(bs@)[0] == *bs@[0]);
        }
        let ts = bs[0].texts();
        Some(crate::text::concat_strings(&ts))
    } else {
        let ts = first.texts();
        Some(crate::text::concat_strings(&ts))
    }
}

/// What one scanned code row contributes: the key derived from the
/// third-set code and the language with its codes; any missing piece is
/// fatal. A repeated key replaces the earlier entry.
pub open spec fn lang_row_s(m: RowG) -> RowOut<(Seq<char>, LanguageG)> {
    match col_of(m, 0) {
        Some(FoundG::Children(v0)) => match first_pair_at(v0, "/wiki/"@, 0) {
            None => RowOut::Fatal(BuildError::SchemaShape),
            Some((name_short, name_long)) => match col_of(m, 1) {
                Some(FoundG::Children(v1)) => match first_text_at(
                    v1,
                    "https://www.loc.gov/standards/iso639-2/"@,
                    0,
                ) {
                    None => RowOut::Fatal(BuildError::SchemaShape),
                    Some(set1) => match col_of(m, 2) {
                        Some(FoundG::Children(v2)) => match code_text_s(v2) {
                            None => RowOut::Fatal(BuildError::SchemaShape),
                            Some(set2_t) => match col_of(m, 3) {
                                Some(FoundG::Children(v3)) => match code_text_s(v3) {
                                    None => RowOut::Fatal(BuildError::SchemaShape),
                                    Some(set2_b) => match col_of(m, 4) {
                                        Some(FoundG::Children(v4)) => match code_text_s(v4) {
                                            None => RowOut::Fatal(BuildError::SchemaShape),
                                            Some(set3) => RowOut::Take(
                                                (
                                                    canon_of(set3),
                                                    (LanguageG {
                                                        name_short,
                                                        name_long,
                                                        iso639: (Iso639G {
                                                            set1,
                                                            set2_t,
                                                            set2_b,
                                                            set3,
                                                        }),
                                                        regions: Seq::empty(),
                                                    }),
                                                ),
                                            ),
                                        },
                                        Some(_) => RowOut::Fatal(BuildError::SchemaShape),
                                        None => RowOut::Fatal(BuildError::SchemaShape),
                                    },
                                },
                                Some(_) => RowOut::Fatal(BuildError::SchemaShape),
                                None => RowOut::Fatal(BuildError::SchemaShape),
                            },
                        },
                        Some(_) => RowOut::Fatal(BuildError::SchemaShape),
                        None => RowOut::Fatal(BuildError::SchemaShape),
                    },
                },
                Some(_) => RowOut::Fatal(BuildError::SchemaShape),
                None => RowOut::Fatal(BuildError::SchemaShape),
            },
        },
        Some(_) => RowOut::Fatal(BuildError::SchemaShape),
        None => RowOut::Fatal(BuildError::SchemaShape),
    }
}

/// Folding the code rows from `i` on, replacing on a repeated key.
pub open spec fn lang_fold(rows: Seq<RowG>, i: int, acc: Seq<(Seq<char>, LanguageG)>) -> Result<
    Seq<(Seq<char>, LanguageG)>,
    BuildError,
>
    decreases rows.len() - i,
{
    if i < 0 || i >= rows.len() {
        Ok(acc)
    } else {
        match lang_row_s(rows[i]) {
            RowOut::Fatal(e) => Err(e),
            RowOut::Skip => lang_fold(rows, i + 1, acc),
            RowOut::Take((k, v)) => lang_fold(rows, i + 1, pairs_set(acc, k, v)),
        }
    }
}

/// What building the languages from the code document yields.
pub open spec fn lang_from_html_s(doc: Elem) -> Result<Seq<(Seq<char>, LanguageG)>, BuildError> {
    match scan_spec(doc, lang_schema_g(), None) {
        Err(e) => Err(of_scan(e)),
        Ok(rows) => lang_fold(rows, 0, Seq::empty()),
    }
}

impl Language {
    /// Plain constructor: the region list is the given one, or empty.
    pub fn new(
        name_short: String,
        name_long: String,
        iso639: Iso639,
        regions: Option<Vec<Identifier>>,
    ) -> (r: Self)
        ensures
            r.name_short@ == name_short@,
            r.name_long@ == name_long@,
            r.iso639 == iso639,
            r@.regions == (match regions {
                Some(v) => ids_views(v@),
                None => Seq::<Seq<char>>::empty(),
            }),
    {
        let rg: Vec<Identifier> = match regions {
            Some(v) => v,
            None => Vec::new(),
        };
        let r = Self { name_short, name_long, iso639, regions: rg };
        proof {
            assert(r@.regions =~= (match regions {
                Some(v) => ids_views(v@),
                None => Seq::<Seq<char>>::empty(),
            }));
        }
        r
    }

    /// Scans the language-code table; exact counterpart of
    /// `lang_from_html_s`.
    #[verifier::loop_isolation(false)]
    pub fn from_html(html: &Elem) -> (r: Result<Registry<Language>, BuildError>)
        ensures
            r matches Ok(reg) ==> (lang_from_html_s(*html) == Ok::<_, BuildError>(
                reg_views(reg.items@),
            ) && keys_unique(reg.items@)),
            r matches Err(e) ==> lang_from_html_s(*html) == Err::<
                Seq<(Seq<char>, LanguageG)>,
                BuildError,
            >(e),
    {
        let mut cols: Vec<Option<Select>> = Vec::new();
        cols.push(Some(Select::Matching("a".to_owned())));
        cols.push(Some(Select::Matching("a".to_owned())));
        cols.push(Some(Select::Matching("code".to_owned())));
        cols.push(Some(Select::Matching("code".to_owned())));
        cols.push(Some(Select::Matching("code".to_owned())));
        cols.push(None);
        let collect = Include::Sparse { th_count: 6, rules: cols };
        proof {
            match collect@ {
                IncludeG::Sparse { th_count, rules } => {
                    assert(rules =~= (seq![
                        Some(SelectG::Matching("a"@)),
                        Some(SelectG::Matching("a"@)),
                        Some(SelectG::Matching("code"@)),
                        Some(SelectG::Matching("code"@)),
                        Some(SelectG::Matching("code"@)),
                        None,
                    ]));
                },
                IncludeG::Exact { .. } => {
                    assert(false);
                },
            }
            assert(collect@ == lang_schema_g());
        }
        let rows = match map_from_table_data(html, &collect, None) {
            Ok(rows) => rows,
            Err(e) => {
                return Err(match e {
                    crate::scan::ScanError::NoTables => BuildError::NoTables,
                    crate::scan::ScanError::BadSelector => BuildError::BadSelector,
                });
            },
        };
        let ghost rowsv = rows_views(rows@);
        let n = rows.len();
        let mut items: Registry<Language> = Registry::new();
        let mut i: usize = 0;
        proof {
            assert(reg_views(items.items@) =~= Seq::<(Seq<char>, LanguageG)>::empty());
        }
        while i < n
            invariant
                0 <= i <= n,
                keys_unique(items.items@),
                lang_fold(rowsv, 0, Seq::empty()) == lang_fold(
                    rowsv,
                    i as int,
                    reg_views(items.items@),
                ),
            decreases n - i,
        {
            proof {
                assert(rowsv[i as int] == rows@[i as int]@);
            }
            let row = &rows[i];
            let ghost accv = reg_views(items.items@);
            let pair = match row.get(0) {
                Some(crate::scan::Found::Children(v0)) => {
                    match crate::extract::first_link_pair("/wiki/", v0) {
                        Some(p) => p,
                        None => {
                            return Err(BuildError::SchemaShape);
                        },
                    }
                },
                _ => {
                    return Err(BuildError::SchemaShape);
                },
            };
            let (name_short, name_long) = pair;
            let set1 = match row.get(1) {
                Some(crate::scan::Found::Children(v1)) => {
                    match crate::extract::first_link_text(
                        "https://www.loc.gov/standards/iso639-2/",
                        v1,
                    ) {
                        Some(s) => s,
                        None => {
                            return Err(BuildError::SchemaShape);
                        },
                    }
                },
                _ => {
                    return Err(BuildError::SchemaShape);
                },
            };
            let set2_t = match row.get(2) {
                Some(crate::scan::Found::Children(v2)) => {
                    match code_text_x(v2) {
                        Some(s) => s,
                        None => {
                            return Err(BuildError::SchemaShape);
                        },
                    }
                },
                _ => {
                    return Err(BuildError::SchemaShape);
                },
            };
            let set2_b = match row.get(3) {
                Some(crate::scan::Found::Children(v3)) => {
                    match code_text_x(v3) {
                        Some(s) => s,
                        None => {
                            return Err(BuildError::SchemaShape);
                        },
                    }
                },
                _ => {
                    return Err(BuildError::SchemaShape);
                },
            };
            let set3 = match row.get(4) {
                Some(crate::scan::Found::Children(v4)) => {
                    match code_text_x(v4) {
                        Some(s) => s,
                        None => {
                            return Err(BuildError::SchemaShape);
                        },
                    }
                },
                _ => {
                    return Err(BuildError::SchemaShape);
                },
            };
            let id = Identifier::new(set3.as_str());
            let lang = Language::new(
                name_short,
                name_long,
                Iso639 { set1, set2_t, set2_b, set3 },
                None,
            );
            let ghost idv = id@;
            let ghost lvv = lang@;
            proof {
                crate::builders::lemma_find_views(items.items@, idv, 0);
                crate::builders::lemma_pairs_find_bounds(accv, idv, 0);
            }
            items.set_entry(id, lang);
            proof {
                match crate::builders::pairs_find_at(accv, idv, 0) {
                    Some(pi) => {
                        assert(reg_views(items.items@) =~= accv.update(pi, (idv, lvv)));
                    },
                    None => {
                        assert(reg_views(items.items@) =~= accv.push((idv, lvv)));
                    },
                }
                assert(reg_views(items.items@) == pairs_set(accv, idv, lvv));
                assert(lang_fold(rowsv, i as int, accv) == lang_fold(
                    rowsv,
                    i + 1,
                    reg_views(items.items@),
                ));
            }
            i += 1;
        }
        proof {
            assert(lang_fold(rowsv, n as int, reg_views(items.items@)) == Ok::<_, BuildError>(
                reg_views(items.items@),
            ));
        }
        Ok(items)
    }
}


/// The fixed stop-word list of the free-text pass: a harvested word whose
/// lower-case form is one of these is never treated as a language name.
pub open spec fn excluded_word(w: Seq<char>) -> bool {
    ||| w == "has"@
    ||| w == "of"@
    ||| w == "de"@
    ||| w == "are"@
    ||| w == "in"@
    ||| w == "their"@
    ||| w == "they"@
    ||| w == "none"@
    ||| w == "and"@
    ||| w == "all"@
    ||| w == "have"@
    ||| w == "languages"@
    ||| w == "ethnic"@
    ||| w == "groups"@
    ||| w == "official"@
    ||| w == "territories"@
    ||| w == "facto"@
    ||| w == "status"@
    ||| w == "spoken"@
    ||| w == "another"@
    ||| w == "native"@
    ||| w == "wherever"@
    ||| w == "predominate"@
    ||| w == "autonomous"@
    ||| w == "republic"@
}

fn excluded_word_x(w: &str) -> (r: bool)
    ensures
        r == excluded_word(w@),
{
    crate::text::str_eq(w, "has") || crate::text::str_eq(w, "of") || crate::text::str_eq(w, "de")
        || crate::text::str_eq(w, "are") || crate::text::str_eq(w, "in") || crate::text::str_eq(
        w,
        "their",
    ) || crate::text::str_eq(w, "they") || crate::text::str_eq(w, "none") || crate::text::str_eq(
        w,
        "and",
    ) || crate::text::str_eq(w, "all") || crate::text::str_eq(w, "have") || crate::text::str_eq(
        w,
        "languages",
    ) || crate::text::str_eq(w, "ethnic") || crate::text::str_eq(w, "groups")
        || crate::text::str_eq(w, "official") || crate::text::str_eq(w, "territories")
        || crate::text::str_eq(w, "facto") || crate::text::str_eq(w, "status")
        || crate::text::str_eq(w, "spoken") || crate::text::str_eq(w, "another")
        || crate::text::str_eq(w, "native") || crate::text::str_eq(w, "wherever")
        || crate::text::str_eq(w, "predominate") || crate::text::str_eq(w, "autonomous")
        || crate::text::str_eq(w, "republic")
}

/// The candidate words of one white-space token list from `i` on: each
/// token's alphabetic characters, kept when at least three remain and the
/// lower-case form is not a stop word.
pub open spec fn words_part(toks: Seq<Seq<char>>, i: int) -> Seq<Seq<char>>
    decreases toks.len() - i,
{
    if i < 0 || i >= toks.len() {
        Seq::empty()
    } else {
        let w = alpha_at(toks[i], 0);
        (if w.len() >= 3 && !excluded_word(lower_of(w)) {
            seq![w]
        } else {
            Seq::empty()
        }) + words_part(toks, i + 1)
    }
}

/// The candidate words of the texts from `i` on, tokenized on white space.
pub open spec fn split_part(ts: Seq<Seq<char>>, i: int) -> Seq<Seq<char>>
    decreases ts.len() - i,
{
    if i < 0 || i >= ts.len() {
        Seq::empty()
    } else {
        words_part(tokens_ws(ts[i]), 0) + split_part(ts, i + 1)
    }
}

/// The candidates taken from list items from `i` on: a reference link's
/// text (and its title, when present), or the item's own words.
pub open spec fn li_part(lis: Seq<Elem>, i: int) -> Seq<Seq<char>>
    decreases lis.len() - i,
{
    if i < 0 || i >= lis.len() {
        Seq::empty()
    } else {
        (match link_text_if_s("/wiki/"@, lis[i]) {
            Some(t) => seq![t] + (match link_title_if_s("/wiki/"@, lis[i]) {
                Some(n) => seq![n],
                None => Seq::empty(),
            }),
            None => split_part(texts_of(lis[i]), 0),
        }) + li_part(lis, i + 1)
    }
}

/// The candidates taken from inline anchors from `i` on: each reference
/// link's text and, when present, its title.
pub open spec fn a_part(anchors: Seq<Elem>, i: int) -> Seq<Seq<char>>
    decreases anchors.len() - i,
{
    if i < 0 || i >= anchors.len() {
        Seq::empty()
    } else {
        (match link_text_if_s("/wiki/"@, anchors[i]) {
            Some(t) => seq![t] + (match link_title_if_s("/wiki/"@, anchors[i]) {
                Some(n) => seq![n],
                None => Seq::empty(),
            }),
            None => Seq::empty(),
        }) + a_part(anchors, i + 1)
    }
}

/// Every language-name candidate harvested from one cell, in order: list
/// items first, inline anchors second, the cell's own words last.
pub open spec fn harvest_s(e: Elem) -> Seq<Seq<char>> {
    li_part(descs_of(e, simple_tag("li"@)), 0) + a_part(descs_of(e, simple_tag("a"@)), 0)
        + split_part(texts_of(e), 0)
}

/// Collects a token list's candidate words; exact counterpart of
/// `words_part` joined over `split_part`.
#[verifier::loop_isolation(false)]
fn push_split_words(ts: &Vec<String>, out: &mut Vec<String>)
    ensures
        crate::text::views_of(final(out)@) == crate::text::views_of(old(out)@) + split_part(
            crate::text::views_of(ts@),
            0,
        ),
{
    let ghost tsv = crate::text::views_of(ts@);
    let n = ts.len();
    let mut i: usize = 0;
    proof {
        assert(crate::text::views_of(out@) + split_part(tsv, 0) =~= crate::text::views_of(
            old(out)@,
        ) + split_part(tsv, 0));
    }
    while i < n
        invariant
            0 <= i <= n,
            crate::text::views_of(out@) + split_part(tsv, i as int) == crate::text::views_of(
                old(out)@,
            ) + split_part(tsv, 0),
        decreases n - i,
    {
        proof {
            assert(tsv[i as int] == ts@[i as int]@);
        }
        let toks = crate::text::split_ws_str(ts[i].as_str());
        let ghost toksv = crate::text::views_of(toks@);
        let m = toks.len();
        let mut j: usize = 0;
        while j < m
            invariant
                0 <= j <= m,
                crate::text::views_of(out@) + words_part(toksv, j as int) + split_part(
                    tsv,
                    i + 1,
                ) == crate::text::views_of(old(out)@) + split_part(tsv, 0),
            decreases m - j,
        {
            proof {
                assert(toksv[j as int] == toks@[j as int]@);
            }
            let w = crate::text::alpha_only(toks[j].as_str());
            let keep = w.as_str().unicode_len() >= 3 && {
                let lw = crate::text::lowercase(w.as_str());
                !excluded_word_x(lw.as_str())
            };
            let ghost prev = crate::text::views_of(out@);
            if keep {
                let ghost wv = w@;
                out.push(w);
                proof {
                    assert(crate::text::views_of(out@) =~= prev.push(wv));
                    assert((prev + (seq![wv] + words_part(toksv, j + 1)) + split_part(tsv, i + 1))
                        =~= (prev.push(wv) + words_part(toksv, j + 1) + split_part(tsv, i + 1)));
                }
            }
            j += 1;
        }
        proof {
            assert(words_part(toksv, m as int).len() == 0);
            assert((crate::text::views_of(out@) + words_part(toksv, m as int) + split_part(
                tsv,
                i + 1,
            )) =~= (crate::text::views_of(out@) + split_part(tsv, i + 1)));
        }
        i += 1;
    }
    proof {
        assert(split_part(tsv, n as int).len() == 0);
        assert((crate::text::views_of(out@) + split_part(tsv, n as int)) =~= crate::text::views_of(
            out@,
        ));
        assert(crate::text::views_of(out@) =~= crate::text::views_of(old(out)@) + split_part(
            tsv,
            0,
        ));
    }
}

/// Harvests every candidate of one cell; exact counterpart of `harvest_s`.
#[verifier::loop_isolation(false)]
fn harvest_x(e: &Elem) -> (r: Vec<String>)
    ensures
        crate::text::views_of(r@) == harvest_s(*e),
{
    let mut out: Vec<String> = Vec::new();
    let lis = crate::dom::descendants_tagged(e, "li");
    let ghost lisv = crate::dom::derefs_of(lis@);
    let nl = lis.len();
    let mut i: usize = 0;
    proof {
        assert(crate::text::views_of(out@) =~= Seq::<Seq<char>>::empty());
        assert(crate::text::views_of(out@) + li_part(lisv, 0) =~= li_part(lisv, 0));
    }
    while i < nl
        invariant
            0 <= i <= nl,
            crate::text::views_of(out@) + li_part(lisv, i as int) == li_part(lisv, 0),
        decreases nl - i,
    {
        proof {
            assert(lisv[i as int] == *lis@[i as int]);
        }
        let li = lis[i];
        let ghost prev = crate::text::views_of(out@);
        match crate::extract::link_text_if("/wiki/", li) {
            Some(t) => {
                let ghost tv = t@;
                out.push(t);
                proof {
                    assert(crate::text::views_of(out@) =~= prev.push(tv));
                }
                let ghost prev2 = crate::text::views_of(out@);
                match crate::extract::link_title_if("/wiki/", li) {
                    Some(n2) => {
                        let ghost nv = n2@;
                        out.push(n2);
                        proof {
                            assert(crate::text::views_of(out@) =~= prev2.push(nv));
                            assert((prev + ((seq![tv] + seq![nv]) + li_part(lisv, i + 1))) =~= (
                            crate::text::views_of(out@) + li_part(lisv, i + 1)));
                        }
                    },
                    None => {
                        proof {
                            assert((prev + ((seq![tv] + Seq::<Seq<char>>::empty()) + li_part(
                                lisv,
                                i + 1,
                            ))) =~= (crate::text::views_of(out@) + li_part(lisv, i + 1)));
                        }
                    },
                }
            },
            None => {
                let ts = li.texts();
                push_split_words(&ts, &mut out);
                proof {
                    assert((prev + (split_part(texts_of(lisv[i as int]), 0) + li_part(
                        lisv,
                        i + 1,
                    ))) =~= (crate::text::views_of(out@) + li_part(lisv, i + 1)));
                }
            },
        }
        i += 1;
    }
    proof {
        assert(li_part(lisv, nl as int).len() == 0);
        assert(crate::text::views_of(out@) =~= li_part(lisv, 0));
    }
    let anchors = crate::dom::descendants_tagged(e, "a");
    let ghost asv = crate::dom::derefs_of(anchors@);
    let na = anchors.len();
    let mut j: usize = 0;
    proof {
        assert(crate::text::views_of(out@) + a_part(asv, 0) =~= li_part(lisv, 0) + a_part(asv, 0));
    }
    while j < na
        invariant
            0 <= j <= na,
            crate::text::views_of(out@) + a_part(asv, j as int) == li_part(lisv, 0) + a_part(
                asv,
                0,
            ),
        decreases na - j,
    {
        proof {
            assert(asv[j as int] == *anchors@[j as int]);
        }
        let a = anchors[j];
        let ghost prev = crate::text::views_of(out@);
        match crate::extract::link_text_if("/wiki/", a) {
            Some(t) => {
                let ghost tv = t@;
                out.push(t);
                proof {
                    assert(crate::text::views_of(out@) =~= prev.push(tv));
                }
                let ghost prev2 = crate::text::views_of(out@);
                match crate::extract::link_title_if("/wiki/", a) {
                    Some(n2) => {
                        let ghost nv = n2@;
                        out.push(n2);
                        proof {
                            assert(crate::text::views_of(out@) =~= prev2.push(nv));
                            assert((prev + ((seq![tv] + seq![nv]) + a_part(asv, j + 1))) =~= (
                            crate::text::views_of(out@) + a_part(asv, j + 1)));
                        }
                    },
                    None => {
                        proof {
                            assert((prev + ((seq![tv] + Seq::<Seq<char>>::empty()) + a_part(
                                asv,
                                j + 1,
                            ))) =~= (crate::text::views_of(out@) + a_part(asv, j + 1)));
                        }
                    },
                }
            },
            None => {
                proof {
                    assert((prev + (Seq::<Seq<char>>::empty() + a_part(asv, j + 1))) =~= (prev
                        + a_part(asv, j + 1)));
                }
            },
        }
        j += 1;
    }
    proof {
        assert(a_part(asv, na as int).len() == 0);
        assert(crate::text::views_of(out@) =~= li_part(lisv, 0) + a_part(asv, 0));
    }
    let ts = e.texts();
    push_split_words(&ts, &mut out);
    proof {
        assert(crate::text::views_of(out@) =~= harvest_s(*e));
    }
    out
}


/// A territory occurs in a region list.
pub open spec fn in_regions(rs: Seq<Seq<char>>, rid: Seq<char>) -> bool {
    exists|k: int| 0 <= k < rs.len() && rs[k] == rid
}

/// The language's short or long name lower-cases to `target`.
pub open spec fn lang_matches(l: LanguageG, target: Seq<char>) -> bool {
    lower_of(l.name_short) == target || lower_of(l.name_long) == target
}

/// One entry after one candidate: a matching language gains the territory
/// unless it carries it already; any other entry is untouched.
pub open spec fn apply_one(
    p: (Seq<char>, LanguageG),
    target: Seq<char>,
    rid: Seq<char>,
) -> (Seq<char>, LanguageG) {
    if lang_matches(p.1, target) && !in_regions(p.1.regions, rid) {
        (
            p.0,
            (LanguageG {
                name_short: p.1.name_short,
                name_long: p.1.name_long,
                iso639: p.1.iso639,
                regions: p.1.regions.push(rid),
            }),
        )
    } else {
        p
    }
}

/// The registry with the candidate applied to its first `upto` entries.
pub open spec fn apply_upto(
    langs: Seq<(Seq<char>, LanguageG)>,
    target: Seq<char>,
    rid: Seq<char>,
    upto: int,
) -> Seq<(Seq<char>, LanguageG)> {
    Seq::new(
        langs.len(),
        |i: int|
            if i < upto {
                apply_one(langs[i], target, rid)
            } else {
                langs[i]
            },
    )
}

/// Applying one candidate: every language whose short or long name matches
/// it case-insensitively gains the territory, unless it carries it already.
pub open spec fn apply_cand(
    langs: Seq<(Seq<char>, LanguageG)>,
    cand: Seq<char>,
    rid: Seq<char>,
) -> Seq<(Seq<char>, LanguageG)> {
    apply_upto(langs, lower_of(cand), rid, langs.len() as int)
}

/// Applying the candidates from `i` on, in order.
pub open spec fn cand_fold(
    langs: Seq<(Seq<char>, LanguageG)>,
    cands: Seq<Seq<char>>,
    i: int,
    rid: Seq<char>,
) -> Seq<(Seq<char>, LanguageG)>
    decreases cands.len() - i,
{
    if i < 0 || i >= cands.len() {
        langs
    } else {
        cand_fold(apply_cand(langs, cands[i], rid), cands, i + 1, rid)
    }
}

/// What processing one cell for one territory does to the language
/// registry: every harvested candidate is applied in order.
pub open spec fn process_cell_s(
    langs: Seq<(Seq<char>, LanguageG)>,
    e: Elem,
    rid: Seq<char>,
) -> Seq<(Seq<char>, LanguageG)> {
    cand_fold(langs, harvest_s(e), 0, rid)
}

/// `b` differs from `a` at most by appended copies of `rid` in region
/// lists: keys and names are identical, and each region list is either kept
/// or extended with `rid`.
pub open spec fn grows_by(
    a: Seq<(Seq<char>, LanguageG)>,
    b: Seq<(Seq<char>, LanguageG)>,
    rid: Seq<char>,
) -> bool {
    &&& a.len() == b.len()
    &&& forall|i: int|
        0 <= i < a.len() ==> ((#[trigger] b[i]).0 == a[i].0 && b[i].1.name_short
            == a[i].1.name_short && b[i].1.name_long == a[i].1.name_long && b[i].1.iso639
            == a[i].1.iso639 && (b[i].1.regions == a[i].1.regions || b[i].1.regions
            == a[i].1.regions.push(rid)))
}

/// Every language matching `target` already carries the territory.
pub open spec fn sat_for(langs: Seq<(Seq<char>, LanguageG)>, target: Seq<char>, rid: Seq<char>) -> bool {
    forall|i: int|
        0 <= i < langs.len() && lang_matches((#[trigger] langs[i]).1, target) ==> in_regions(
            langs[i].1.regions,
            rid,
        )
}

proof fn lemma_apply_cand_grows(
    langs: Seq<(Seq<char>, LanguageG)>,
    cand: Seq<char>,
    rid: Seq<char>,
)
    ensures
        grows_by(langs, apply_cand(langs, cand, rid), rid),
{
    let b = apply_cand(langs, cand, rid);
    assert forall|i: int| 0 <= i < langs.len() implies ((#[trigger] b[i]).0 == langs[i].0
        && b[i].1.name_short == langs[i].1.name_short && b[i].1.name_long == langs[i].1.name_long
        && b[i].1.iso639 == langs[i].1.iso639 && (b[i].1.regions == langs[i].1.regions
        || b[i].1.regions == langs[i].1.regions.push(rid))) by {
        assert(b[i] == apply_one(langs[i], lower_of(cand), rid));
    }
}

/// After one candidate, every language matching it carries the territory.
proof fn lemma_apply_marks(langs: Seq<(Seq<char>, LanguageG)>, cand: Seq<char>, rid: Seq<char>)
    ensures
        sat_for(apply_cand(langs, cand, rid), lower_of(cand), rid),
{
    let t = lower_of(cand);
    let b = apply_cand(langs, cand, rid);
    assert forall|i: int|
        0 <= i < b.len() && lang_matches((#[trigger] b[i]).1, t) implies in_regions(
        b[i].1.regions,
        rid,
    ) by {
        assert(b[i] == apply_one(langs[i], t, rid));
        if !in_regions(langs[i].1.regions, rid) {
            assert(b[i].1.regions == langs[i].1.regions.push(rid));
            assert(b[i].1.regions[langs[i].1.regions.len() as int] == rid);
        } else {
            let k = choose|k: int|
                0 <= k < langs[i].1.regions.len() && langs[i].1.regions[k] == rid;
            assert(b[i].1.regions[k] == rid);
        }
    }
}

/// A saturated target stays saturated when region lists only grow.
proof fn lemma_grows_keeps_sat(
    a: Seq<(Seq<char>, LanguageG)>,
    b: Seq<(Seq<char>, LanguageG)>,
    rid: Seq<char>,
    target: Seq<char>,
)
    requires
        grows_by(a, b, rid),
        sat_for(a, target, rid),
    ensures
        sat_for(b, target, rid),
{
    assert forall|i: int|
        0 <= i < b.len() && lang_matches((#[trigger] b[i]).1, target) implies in_regions(
        b[i].1.regions,
        rid,
    ) by {
        assert(lang_matches(a[i].1, target));
        let k = choose|k: int| 0 <= k < a[i].1.regions.len() && a[i].1.regions[k] == rid;
        if b[i].1.regions == a[i].1.regions.push(rid) {
            assert(b[i].1.regions[k] == rid);
        } else {
            assert(b[i].1.regions[k] == rid);
        }
    }
}

/// Every candidate already applied keeps its saturation through the rest of
/// the fold, so after a whole pass every candidate's matches carry the
/// territory.
proof fn lemma_fold_marks(
    langs: Seq<(Seq<char>, LanguageG)>,
    cands: Seq<Seq<char>>,
    i: int,
    rid: Seq<char>,
)
    requires
        0 <= i <= cands.len(),
        forall|k: int| 0 <= k < i ==> sat_for(langs, lower_of(#[trigger] cands[k]), rid),
    ensures
        forall|k: int|
            0 <= k < cands.len() ==> sat_for(
                cand_fold(langs, cands, i, rid),
                lower_of(#[trigger] cands[k]),
                rid,
            ),
    decreases cands.len() - i,
{
    if i < cands.len() {
        let b = apply_cand(langs, cands[i], rid);
        lemma_apply_cand_grows(langs, cands[i], rid);
        lemma_apply_marks(langs, cands[i], rid);
        assert forall|k: int|
            0 <= k < i + 1 implies sat_for(b, lower_of(#[trigger] cands[k]), rid) by {
            if k < i {
                lemma_grows_keeps_sat(langs, b, rid, lower_of(cands[k]));
            }
        }
        lemma_fold_marks(b, cands, i + 1, rid);
    }
}

/// A fold whose every candidate is already saturated changes nothing.
proof fn lemma_fold_saturated(
    langs: Seq<(Seq<char>, LanguageG)>,
    cands: Seq<Seq<char>>,
    i: int,
    rid: Seq<char>,
)
    requires
        0 <= i <= cands.len(),
        forall|k: int| 0 <= k < cands.len() ==> sat_for(langs, lower_of(#[trigger] cands[k]), rid),
    ensures
        cand_fold(langs, cands, i, rid) == langs,
    decreases cands.len() - i,
{
    if i < cands.len() {
        let b = apply_cand(langs, cands[i], rid);
        assert forall|q: int| 0 <= q < langs.len() implies b[q] == langs[q] by {
            assert(b[q] == apply_one(langs[q], lower_of(cands[i]), rid));
        }
        assert(b =~= langs);
        lemma_fold_saturated(langs, cands, i + 1, rid);
    }
}

/// Processing the same cell twice for the same territory leaves the
/// registry exactly as one pass left it: a territory already attached to a
/// language is never attached a second time.
pub proof fn lemma_zone_pass_idempotent(
    langs: Seq<(Seq<char>, LanguageG)>,
    e: Elem,
    rid: Seq<char>,
)
    ensures
        process_cell_s(process_cell_s(langs, e, rid), e, rid) == process_cell_s(langs, e, rid),
{
    let one = process_cell_s(langs, e, rid);
    lemma_fold_marks(langs, harvest_s(e), 0, rid);
    lemma_fold_saturated(one, harvest_s(e), 0, rid);
}

/// Exact executable counterpart of `in_regions`.
#[verifier::loop_isolation(false)]
fn in_regions_x(v: &Vec<Identifier>, rid: &Identifier) -> (r: bool)
    ensures
        r == in_regions(ids_views(v@), rid@),
{
    let n = v.len();
    let mut i: usize = 0;
    while i < n
        invariant
            0 <= i <= n,
            forall|k: int| 0 <= k < i ==> ids_views(v@)[k] != rid@,
        decreases n - i,
    {
        proof {
            assert(ids_views(v@)[i as int] == v@[i as int]@);
        }
        if v[i].same(rid) {
            return true;
        }
        i += 1;
    }
    false
}

/// Harvests one cell's candidates and applies each to the language
/// registry, attaching the territory to every language a candidate names;
/// exact counterpart of `process_cell_s`.
#[verifier::loop_isolation(false)]
fn process_td_cell(cell: &Elem, languages: &mut Registry<Language>, region: &Identifier)
    ensures
        reg_views(final(languages).items@) == process_cell_s(
            reg_views(old(languages).items@),
            *cell,
            region@,
        ),
        keys_unique(old(languages).items@) ==> keys_unique(final(languages).items@),
{
    let cands = harvest_x(cell);
    let ghost candsv = crate::text::views_of(cands@);
    let ghost langs0 = reg_views(languages.items@);
    let ghost ridv = region@;
    let nc = cands.len();
    let mut j: usize = 0;
    while j < nc
        invariant
            0 <= j <= nc,
            cand_fold(langs0, candsv, 0, ridv) == cand_fold(
                reg_views(languages.items@),
                candsv,
                j as int,
                ridv,
            ),
            keys_unique(old(languages).items@) ==> keys_unique(languages.items@),
        decreases nc - j,
    {
        proof {
            assert(candsv[j as int] == cands@[j as int]@);
        }
        let ghost cur = reg_views(languages.items@);
        let ghost target = lower_of(candsv[j as int]);
        let lc = crate::text::lowercase(cands[j].as_str());
        let n = languages.items.len();
        let mut li: usize = 0;
        proof {
            assert(apply_upto(cur, target, ridv, 0) =~= cur);
        }
        while li < n
            invariant
                0 <= li <= n,
                n == cur.len(),
                languages.items@.len() == n,
                lc@ == target,
                reg_views(languages.items@) == apply_upto(cur, target, ridv, li as int),
                keys_unique(old(languages).items@) ==> keys_unique(languages.items@),
            decreases n - li,
        {
            proof {
                assert(reg_views(languages.items@)[li as int] == (
                    languages.items@[li as int].0@,
                    languages.items@[li as int].1@,
                ));
                assert(reg_views(languages.items@)[li as int] == cur[li as int]);
            }
            let ls = crate::text::lowercase(languages.items[li].1.name_short.as_str());
            let ll = crate::text::lowercase(languages.items[li].1.name_long.as_str());
            let hit = crate::text::str_eq(ls.as_str(), lc.as_str()) || crate::text::str_eq(
                ll.as_str(),
                lc.as_str(),
            );
            if hit && !in_regions_x(&languages.items[li].1.regions, region) {
                let ghost olditems = languages.items@;
                let pair = languages.items.remove(li);
                let lid = pair.0;
                let mut lang = pair.1;
                lang.regions.push(region.clone());
                proof {
                    assert(ids_views(lang.regions@) =~= olditems[li as int].1@.regions.push(
                        ridv,
                    ));
                }
                languages.items.insert(li, (lid, lang));
                proof {
                    assert(languages.items@ =~= olditems.update(li as int, (lid, lang)));
                    if keys_unique(olditems) {
                        crate::registry::lemma_update_keeps_unique(olditems, li as int, lid, lang);
                    }
                    assert forall|q: int|
                        0 <= q < n implies reg_views(languages.items@)[q] == apply_upto(
                        cur,
                        target,
                        ridv,
                        li + 1,
                    )[q] by {
                        assert(reg_views(languages.items@)[q] == (
                            languages.items@[q].0@,
                            languages.items@[q].1@,
                        ));
                        if q == li {
                            assert(languages.items@[q] == (lid, lang));
                            assert(apply_one(cur[q], target, ridv) == (
                                languages.items@[q].0@,
                                languages.items@[q].1@,
                            ));
                        } else {
                            assert(languages.items@[q] == olditems[q]);
                            assert(reg_views(olditems)[q] == (olditems[q].0@, olditems[q].1@));
                            assert(reg_views(olditems)[q] == apply_upto(
                                cur,
                                target,
                                ridv,
                                li as int,
                            )[q]);
                        }
                    }
                    assert(reg_views(languages.items@) =~= apply_upto(
                        cur,
                        target,
                        ridv,
                        li + 1,
                    ));
                }
            } else {
                proof {
                    assert(apply_one(cur[li as int], target, ridv) == cur[li as int]);
                    assert(reg_views(languages.items@) =~= apply_upto(
                        cur,
                        target,
                        ridv,
                        li + 1,
                    ));
                }
            }
            li += 1;
        }
        proof {
            assert(reg_views(languages.items@) == apply_cand(cur, candsv[j as int], ridv));
        }
        j += 1;
    }
    proof {
        assert(cand_fold(reg_views(languages.items@), candsv, nc as int, ridv) == reg_views(
            languages.items@,
        ));
    }
}

/// The column schema of the zones table: six header cells, the territory
/// cell matched for links, the official and regional cells passed through
/// whole, three columns ignored.
pub open spec fn zone_schema_g() -> IncludeG {
    (IncludeG::Sparse {
        th_count: 6,
        rules: seq![
            Some(SelectG::Matching("a"@)),
            Some(SelectG::TdElement),
            Some(SelectG::TdElement),
            None,
            None,
            None,
        ],
    })
}

/// What one scanned zones row does to the language registry: the resolved
/// territory is attached through the official-language cell and then the
/// regional-language cell. An unresolved territory, or a cell of the wrong
/// shape, skips what remains of the row; a missing territory column is
/// fatal.
pub open spec fn zone_row_s(
    m: RowG,
    countries: Seq<(Identifier, Vec<String>)>,
    regs: Seq<(Identifier, Region)>,
    langs: Seq<(Seq<char>, LanguageG)>,
) -> RowOut<Seq<(Seq<char>, LanguageG)>> {
    match col_of(m, 0) {
        None => RowOut::Fatal(BuildError::SchemaShape),
        Some(FoundG::Children(v)) => {
            let title = first_title_at(v, "/wiki/"@, 0);
            let text = first_text_at(v, "/wiki/"@, 0);
            match region_by_opt_s(regs, Some(countries), title, text) {
                Err(_) => RowOut::Skip,
                Ok(ri) => {
                    let rid = regs[ri].0@;
                    match col_of(m, 1) {
                        Some(FoundG::Parent(e1)) => {
                            let l1 = process_cell_s(langs, e1, rid);
                            match col_of(m, 2) {
                                Some(FoundG::Parent(e2)) => RowOut::Take(
                                    process_cell_s(l1, e2, rid),
                                ),
                                _ => RowOut::Take(l1),
                            }
                        },
                        _ => RowOut::Skip,
                    }
                },
            }
        },
        Some(_) => RowOut::Skip,
    }
}

/// Folding the zones rows from `i` on over the language registry.
pub open spec fn zone_fold(
    rows: Seq<RowG>,
    i: int,
    langs: Seq<(Seq<char>, LanguageG)>,
    countries: Seq<(Identifier, Vec<String>)>,
    regs: Seq<(Identifier, Region)>,
) -> Result<Seq<(Seq<char>, LanguageG)>, BuildError>
    decreases rows.len() - i,
{
    if i < 0 || i >= rows.len() {
        Ok(langs)
    } else {
        match zone_row_s(rows[i], countries, regs, langs) {
            RowOut::Fatal(e) => Err(e),
            RowOut::Skip => zone_fold(rows, i + 1, langs, countries, regs),
            RowOut::Take(l) => zone_fold(rows, i + 1, l, countries, regs),
        }
    }
}

/// What the zones pass does to an existing language registry.
pub open spec fn zones_s(
    doc: Elem,
    countries: Seq<(Identifier, Vec<String>)>,
    regs: Seq<(Identifier, Region)>,
    langs0: Seq<(Seq<char>, LanguageG)>,
) -> Result<Seq<(Seq<char>, LanguageG)>, BuildError> {
    match scan_spec(doc, zone_schema_g(), None) {
        Err(e) => Err(of_scan(e)),
        Ok(rows) => zone_fold(rows, 0, langs0, countries, regs),
    }
}

impl Language {
    /// Scans the zones document and attaches each row's resolved territory
    /// to every language its cells name; exact counterpart of `zones_s`
    /// applied to the given registry.
    #[verifier::loop_isolation(false)]
    pub fn zones_from_html(
        html: &Elem,
        countries: &AliasTable,
        regions: &Registry<Region>,
        languages: &mut Registry<Language>,
    ) -> (r: Result<(), BuildError>)
        ensures
            r matches Ok(()) ==> zones_s(
                *html,
                countries.items@,
                regions.items@,
                reg_views(old(languages).items@),
            ) == Ok::<_, BuildError>(reg_views(final(languages).items@)),
            r matches Err(e) ==> zones_s(
                *html,
                countries.items@,
                regions.items@,
                reg_views(old(languages).items@),
            ) == Err::<Seq<(Seq<char>, LanguageG)>, BuildError>(e),
            keys_unique(old(languages).items@) ==> keys_unique(final(languages).items@),
    {
        let mut cols: Vec<Option<Select>> = Vec::new();
        cols.push(Some(Select::Matching("a".to_owned())));
        cols.push(Some(Select::TdElement));
        cols.push(Some(Select::TdElement));
        cols.push(None);
        cols.push(None);
        cols.push(None);
        let collect = Include::Sparse { th_count: 6, rules: cols };
        proof {
            match collect@ {
                IncludeG::Sparse { th_count, rules } => {
                    assert(rules =~= (seq![
                        Some(SelectG::Matching("a"@)),
                        Some(SelectG::TdElement),
                        Some(SelectG::TdElement),
                        None,
                        None,
                        None,
                    ]));
                },
                IncludeG::Exact { .. } => {
                    assert(false);
                },
            }
            assert(collect@ == zone_schema_g());
        }
        let rows = match map_from_table_data(html, &collect, None) {
            Ok(rows) => rows,
            Err(e) => {
                return Err(match e {
                    crate::scan::ScanError::NoTables => BuildError::NoTables,
                    crate::scan::ScanError::BadSelector => BuildError::BadSelector,
                });
            },
        };
        let ghost rowsv = rows_views(rows@);
        let ghost langs0 = reg_views(languages.items@);
        let n = rows.len();
        let mut i: usize = 0;
        while i < n
            invariant
                0 <= i <= n,
                zone_fold(rowsv, 0, langs0, countries.items@, regions.items@) == zone_fold(
                    rowsv,
                    i as int,
                    reg_views(languages.items@),
                    countries.items@,
                    regions.items@,
                ),
                keys_unique(old(languages).items@) ==> keys_unique(languages.items@),
            decreases n - i,
        {
            proof {
                assert(rowsv[i as int] == rows@[i as int]@);
            }
            let row = &rows[i];
            let ghost cur = reg_views(languages.items@);
            match row.get(0) {
                Some(crate::scan::Found::Children(v)) => {
                    let (title, text) = crate::extract::link_title_and_text_opt_if("/wiki/", v);
                    match region_by_opt(regions, Some(countries), title.as_ref(), text.as_ref()) {
                        Ok((rid, _region)) => {
                            match row.get(1) {
                                Some(crate::scan::Found::Parent(e1)) => {
                                    process_td_cell(*e1, languages, &rid);
                                    match row.get(2) {
                                        Some(crate::scan::Found::Parent(e2)) => {
                                            process_td_cell(*e2, languages, &rid);
                                        },
                                        _ => {
                                        },
                                    }
                                },
                                _ => {
                                },
                            }
                        },
                        Err(_) => {
                        },
                    }
                },
                Some(_) => {
                },
                None => {
                    return Err(BuildError::SchemaShape);
                },
            }
            proof {
                assert(zone_fold(rowsv, i as int, cur, countries.items@, regions.items@)
                    == zone_fold(
                    rowsv,
                    i + 1,
                    reg_views(languages.items@),
                    countries.items@,
                    regions.items@,
                ));
            }
            i += 1;
        }
        proof {
            assert(zone_fold(
                rowsv,
                n as int,
                reg_views(languages.items@),
                countries.items@,
                regions.items@,
            ) == Ok::<_, BuildError>(reg_views(languages.items@)));
        }
        Ok(())
    }
}

} // verus!
