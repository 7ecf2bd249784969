//! Flags: the entity tying a sovereign state to the directory its flag
//! images live in, the flag-emoji builder, and the decisions of the flag
//! acquisition path that are plain data: choosing the image reference for a
//! country and validating its form.

use vstd::prelude::*;
use crate::builders::{
    col_of, first_trim_len_at, of_scan, pairs_has_key, reg_views, BuildError, RowOut,
};
use crate::dom::{attr_of, descs_of, simple_tag, Elem};
use crate::extract::first_title_at;
use crate::ident::{canon_of, Identifier};
use crate::region::Region;
use crate::registry::{has_key, keys_unique, Registry};
use crate::scan::{
    map_from_table_data, rows_views, scan_spec, FoundG, Include, IncludeG, RowG, Select, SelectG,
};
use crate::sovereign_state::SovereignState;
use crate::text::has_prefix;

verus! {

/// One flag: the sovereign territory it belongs to and the directory its
/// image files live in.
pub struct Flag {
    pub sovereignity: Identifier,
    pub dir: String,
}

/// The mathematical shape of a `Flag`.
pub struct FlagG {
    pub sovereignity: Seq<char>,
    pub dir: Seq<char>,
}

impl View for Flag {
    type V = FlagG;

    open spec fn view(&self) -> FlagG {
        (FlagG { sovereignity: self.sovereignity@, dir: self.dir@ })
    }
}

impl Clone for Flag {
    fn clone(&self) -> (r: Self)
        ensures
            r == *self,
    {
        Flag { sovereignity: self.sovereignity.clone(), dir: self.dir.clone() }
    }
}

/// The column schema of the emoji table: four header cells, the emoji cell
/// matched for links, the code cell read as inner text, two columns ignored.
pub open spec fn emoji_schema_g() -> IncludeG {
    (IncludeG::Sparse {
        th_count: 4,
        rules: seq![
            Some(SelectG::Matching("a"@)),
            Some(SelectG::InnerAsText),
            None,
            None,
        ],
    })
}

/// What one scanned emoji row contributes: the identifier derived from the
/// two-letter code and the emoji's link title. A code naming no known
/// region, or one already seen, is skipped; a missing title or code is
/// fatal.
pub open spec fn emoji_row_s(
    m: RowG,
    regions: Seq<(Identifier, Region)>,
    acc: Seq<(Seq<char>, Seq<char>)>,
) -> RowOut<(Seq<char>, Seq<char>)> {
    match col_of(m, 0) {
        Some(FoundG::Children(v)) => match first_title_at(v, "/wiki/"@, 0) {
            None => RowOut::Fatal(BuildError::SchemaShape),
            Some(emoji) => match col_of(m, 1) {
                Some(FoundG::InnerText(ts)) => match first_trim_len_at(ts, 2, 0) {
                    None => RowOut::Fatal(BuildError::BadField),
                    Some(s) => {
                        let key = canon_of(s);
                        if !has_key(regions, key) {
                            RowOut::Skip
                        } else if pairs_has_key(acc, key) {
                            RowOut::Skip
                        } else {
                            RowOut::Take((key, emoji))
                        }
                    },
                },
                Some(_) => RowOut::Fatal(BuildError::SchemaShape),
                None => RowOut::Fatal(BuildError::SchemaShape),
            },
        },
        Some(_) => RowOut::Fatal(BuildError::SchemaShape),
        None => RowOut::Fatal(BuildError::SchemaShape),
    }
}

/// Folding the emoji rows from `i` on.
pub open spec fn emoji_fold(
    rows: Seq<RowG>,
    i: int,
    acc: Seq<(Seq<char>, Seq<char>)>,
    regions: Seq<(Identifier, Region)>,
) -> Result<Seq<(Seq<char>, Seq<char>)>, BuildError>
    decreases rows.len() - i,
{
    if i < 0 || i >= rows.len() {
        Ok(acc)
    } else {
        match emoji_row_s(rows[i], regions, acc) {
            RowOut::Fatal(e) => Err(e),
            RowOut::Skip => emoji_fold(rows, i + 1, acc, regions),
            RowOut::Take(p) => emoji_fold(rows, i + 1, acc.push(p), regions),
        }
    }
}

/// What building the flag emojis from a document yields.
pub open spec fn emoji_from_html_s(doc: Elem, regions: Seq<(Identifier, Region)>) -> Result<
    Seq<(Seq<char>, Seq<char>)>,
    BuildError,
> {
    match scan_spec(doc, emoji_schema_g(), None) {
        Err(e) => Err(of_scan(e)),
        Ok(rows) => emoji_fold(rows, 0, Seq::empty(), regions),
    }
}

/// The image references among the document's `img` descendants from `k` on
/// whose `alt` text equals the name (or, with `prefix` set, starts with it)
/// and which carry a source reference.
pub open spec fn img_srcs_at(es: Seq<Elem>, name: Seq<char>, prefix: bool, k: int) -> Seq<
    Seq<char>,
>
    decreases es.len() - k,
{
    if k < 0 || k >= es.len() {
        Seq::empty()
    } else {
        let alt_ok = match attr_of(es[k], "alt"@) {
            Some(a) => if prefix {
                has_prefix(a, name)
            } else {
                a == name
            },
            None => false,
        };
        (match attr_of(es[k], "src"@) {
            Some(s) => if alt_ok {
                seq![s]
            } else {
                Seq::empty()
            },
            None => Seq::empty(),
        }) + img_srcs_at(es, name, prefix, k + 1)
    }
}

/// The flag image reference chosen for a country: the first image whose
/// `alt` equals the short name; failing that, the first whose `alt` equals
/// the long name; failing that, the first whose `alt` starts with the short
/// name; nothing when all three lists are empty.
pub open spec fn flag_url_s(doc: Elem, short: Seq<char>, long: Seq<char>) -> Option<Seq<char>> {
    let imgs = descs_of(doc, simple_tag("img"@));
    let u1 = img_srcs_at(imgs, short, false, 0);
    let u2 = img_srcs_at(imgs, long, false, 0);
    let u3 = img_srcs_at(imgs, short, true, 0);
    if u1.len() > 0 {
        Some(u1[0])
    } else if u2.len() > 0 {
        Some(u2[0])
    } else if u3.len() > 0 {
        Some(u3[0])
    } else {
        None
    }
}

#[verifier::loop_isolation(false)]
fn img_srcs(doc: &Elem, name: &str, prefix: bool) -> (r: Vec<String>)
    ensures
        crate::text::views_of(r@) == img_srcs_at(
            descs_of(*doc, simple_tag("img"@)),
            name@,
            prefix,
            0,
        ),
{
    let imgs = crate::dom::descendants_tagged(doc, "img");
    let ghost esv = crate::dom::derefs_of(imgs@);
    let n = imgs.len();
    let mut out: Vec<String> = Vec::new();
    let mut k: usize = 0;
    proof {
        assert(crate::text::views_of(out@) =~= Seq::<Seq<char>>::empty());
        assert(crate::text::views_of(out@) + img_srcs_at(esv, name@, prefix, 0) =~= img_srcs_at(
            esv,
            name@,
            prefix,
            0,
        ));
    }
    while k < n
        invariant
            0 <= k <= n,
            crate::text::views_of(out@) + img_srcs_at(esv, name@, prefix, k as int) == img_srcs_at(
                esv,
                name@,
                prefix,
                0,
            ),
        decreases n - k,
    {
        proof {
            assert(esv[k as int] == *imgs@[k as int]);
        }
        let e = imgs[k];
        let alt_ok = match e.attr("alt") {
            Some(a) => {
                if prefix {
                    crate::text::starts_with_str(a.as_str(), name)
                } else {
                    crate::text::str_eq(a.as_str(), name)
                }
            },
            None => false,
        };
        let ghost prev = crate::text::views_of(out@);
        match e.attr("src") {
            Some(s) => {
                if alt_ok {
                    let sv = s.clone();
                    let ghost svv = sv@;
                    out.push(sv);
                    proof {
                        assert(crate::text::views_of(out@) =~= prev.push(svv));
                        assert((prev + (seq![svv] + img_srcs_at(esv, name@, prefix, k + 1))) =~= (
                        prev.push(svv) + img_srcs_at(esv, name@, prefix, k + 1)));
                    }
                }
            },
            None => {
            },
        }
        k += 1;
    }
    proof {
        assert(img_srcs_at(esv, name@, prefix, n as int).len() == 0);
        assert(crate::text::views_of(out@) =~= img_srcs_at(esv, name@, prefix, 0));
    }
    out
}

impl Flag {
    /// Plain constructor; both fields are kept as given.
    pub fn new(sovereignity: Identifier, dir: String) -> (r: Self)
        ensures
            r.sovereignity@ == sovereignity@,
            r.dir@ == dir@,
    {
        Self { sovereignity, dir }
    }

    /// Chooses the flag image reference for one country from the gallery
    /// document; exact counterpart of `flag_url_s`.
    pub fn url_from_html(doc: &Elem, country: &SovereignState) -> (r: Option<String>)
        ensures
            r is Some <==> flag_url_s(*doc, country.name_short@, country.name_long@) is Some,
            r matches Some(u) ==> flag_url_s(*doc, country.name_short@, country.name_long@)
                == Some(u@),
    {
        let u1 = img_srcs(doc, country.name_short.as_str(), false);
        if u1.len() > 0 {
            proof {
                assert(crate::text::views_of(u1@)[0] == u1@[0]@);
            }
            return Some(u1[0].clone());
        }
        let u2 = img_srcs(doc, country.name_long.as_str(), false);
        if u2.len() > 0 {
            proof {
                assert(crate::text::views_of(u2@)[0] == u2@[0]@);
            }
            return Some(u2[0].clone());
        }
        let u3 = img_srcs(doc, country.name_short.as_str(), true);
        if u3.len() > 0 {
            proof {
                assert(crate::text::views_of(u3@)[0] == u3@[0]@);
            }
            return Some(u3[0].clone());
        }
        None
    }

    /// Prepends the default scheme to a scheme-relative image reference and
    /// leaves any other reference unchanged.
    pub fn normalize_url(url: &str) -> (r: String)
        ensures
            has_prefix(url@, "//"@) ==> r@ == "https:"@ + url@,
            !has_prefix(url@, "//"@) ==> r@ == url@,
    {
        if crate::text::starts_with_str(url, "//") {
            let mut out = "https:".to_owned();
            out.append(url);
            out
        } else {
            url.to_owned()
        }
    }

    /// Whether the reference names a portable-network-graphics file: it ends
    /// in the four characters `.png`.
    pub fn png_named(url: &str) -> (r: bool)
        ensures
            r == (url@.len() >= 4 && url@.subrange(url@.len() - 4, url@.len() as int) == ".png"@),
    {
        let n = url.unicode_len();
        if n < 4 {
            return false;
        }
        let tail = url.substring_char(n - 4, n);
        crate::text::str_eq(tail, ".png")
    }

    /// Scans the emoji table and attaches each flag emoji to its known
    /// region; exact counterpart of `emoji_from_html_s`.
    #[verifier::loop_isolation(false)]
    pub fn emojis_from_html(html: &Elem, regions: &Registry<Region>) -> (r: Result<
        Registry<String>,
        BuildError,
    >)
        ensures
            r matches Ok(reg) ==> (emoji_from_html_s(*html, regions.items@) == Ok::<_, BuildError>(
                reg_views(reg.items@),
            ) && keys_unique(reg.items@)),
            r matches Err(e) ==> emoji_from_html_s(*html, regions.items@) == Err::<
                Seq<(Seq<char>, Seq<char>)>,
                BuildError,
            >(e),
    {
        let mut cols: Vec<Option<Select>> = Vec::new();
        cols.push(Some(Select::Matching("a".to_owned())));
        cols.push(Some(Select::InnerAsText));
        cols.push(None);
        cols.push(None);
        let collect = Include::Sparse { th_count: 4, rules: cols };
        proof {
            match collect@ {
                IncludeG::Sparse { th_count, rules } => {
                    assert(rules =~= (seq![
                        Some(SelectG::Matching("a"@)),
                        Some(SelectG::InnerAsText),
                        None,
                        None,
                    ]));
                },
                IncludeG::Exact { .. } => {
                    assert(false);
                },
            }
            assert(collect@ == emoji_schema_g());
        }
        let rows = match map_from_table_data(html, &collect, None) {
            Ok(rows) => rows,
            Err(e) => {
                return Err(match e {
                    crate::scan::ScanError::NoTables => BuildError::NoTables,
                    crate::scan::ScanError::BadSelector => BuildError::BadSelector,
                });
            },
        };
        let ghost rowsv = rows_views(rows@);
        let n = rows.len();
        let mut items: Registry<String> = Registry::new();
        let mut i: usize = 0;
        proof {
            assert(reg_views(items.items@) =~= Seq::<(Seq<char>, Seq<char>)>::empty());
        }
        while i < n
            invariant
                0 <= i <= n,
                keys_unique(items.items@),
                emoji_fold(rowsv, 0, Seq::empty(), regions.items@) == emoji_fold(
                    rowsv,
                    i as int,
                    reg_views(items.items@),
                    regions.items@,
                ),
            decreases n - i,
        {
            proof {
                assert(rowsv[i as int] == rows@[i as int]@);
            }
            let row = &rows[i];
            let ghost accv = reg_views(items.items@);
            match row.get(0) {
                Some(crate::scan::Found::Children(v)) => {
                    match crate::extract::first_link_title("/wiki/", v) {
                        Some(emoji) => {
                            match row.get(1) {
                                Some(crate::scan::Found::InnerText(ts)) => {
                                    match crate::builders::first_trim_len(ts, 2) {
                                        Some(code) => {
                                            let id = Identifier::new(code.as_str());
                                            if regions.contains_key(&id) {
                                                proof {
                                                    crate::builders::lemma_has_key_views(
                                                        items.items@,
                                                        id@,
                                                    );
                                                }
                                                if !items.contains_key(&id) {
                                                    let ghost idv = id@;
                                                    let ghost evv = emoji@;
                                                    proof {
                                                        crate::registry::lemma_push_keeps_unique(
                                                            items.items@,
                                                            id,
                                                            emoji,
                                                        );
                                                    }
                                                    items.push_new(id, emoji);
                                                    proof {
                                                        assert(reg_views(items.items@) =~= accv
                                                            .push((idv, evv)));
                                                    }
                                                }
                                            }
                                        },
                                        None => {
                                            return Err(BuildError::BadField);
                                        },
                                    }
                                },
                                _ => {
                                    return Err(BuildError::SchemaShape);
                                },
                            }
                        },
                        None => {
                            return Err(BuildError::SchemaShape);
                        },
                    }
                },
                _ => {
                    return Err(BuildError::SchemaShape);
                },
            }
            proof {
                assert(emoji_fold(rowsv, i as int, accv, regions.items@) == emoji_fold(
                    rowsv,
                    i + 1,
                    reg_views(items.items@),
                    regions.items@,
                ));
            }
            i += 1;
        }
        proof {
            assert(emoji_fold(rowsv, n as int, reg_views(items.items@), regions.items@) == Ok::<
                _,
                BuildError,
            >(reg_views(items.items@)));
        }
        Ok(items)
    }
}

} // verus!
