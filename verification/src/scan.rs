//! The table scanner: given a parsed document and a column schema, finds the
//! qualifying tables, filters their rows by data-cell count, and applies each
//! mapped column's rule, yielding one record per qualifying row.

use vstd::prelude::*;
use crate::dom::{
    descendants_tagged, descs_of, derefs_of, parse_sel_s, select_of, simple_tag, Elem, Selector,
};
use crate::text::views_of;

verus! {

/// How to extract a value from one table cell: by descendant-selector match,
/// by concatenated inner text, or by passing the whole cell through.
pub enum Select {
    Matching(String),
    InnerAsText,
    TdElement,
}

/// The mathematical shape of a `Select`.
pub enum SelectG {
    Matching(Seq<char>),
    InnerAsText,
    TdElement,
}

impl View for Select {
    type V = SelectG;

    open spec fn view(&self) -> SelectG {
        match self {
            Select::Matching(s) => SelectG::Matching(s@),
            Select::InnerAsText => SelectG::InnerAsText,
            Select::TdElement => SelectG::TdElement,
        }
    }
}

/// A column schema. `Exact` requires every row to have exactly one data cell
/// per rule; `Sparse` maps some column indices to no rule (the column is
/// ignored) and accepts rows with at least as many data cells as there are
/// rule-bearing columns.
pub enum Include {
    Exact { th_count: usize, rules: Vec<Select> },
    Sparse { th_count: usize, rules: Vec<Option<Select>> },
}

/// The mathematical shape of an `Include`.
pub enum IncludeG {
    Exact { th_count: int, rules: Seq<SelectG> },
    Sparse { th_count: int, rules: Seq<Option<SelectG>> },
}

impl View for Include {
    type V = IncludeG;

    open spec fn view(&self) -> IncludeG {
        match self {
            Include::Exact { th_count, rules } => (IncludeG::Exact {
                th_count: *th_count as int,
                rules: Seq::new(rules@.len(), |i: int| rules@[i]@),
            }),
            Include::Sparse { th_count, rules } => (IncludeG::Sparse {
                th_count: *th_count as int,
                rules: Seq::new(
                    rules@.len(),
                    |i: int|
                        match rules@[i] {
                            Some(s) => Some(s@),
                            None => None,
                        },
                ),
            }),
        }
    }
}

/// What one applied rule yielded for a cell.
pub enum Found<'a> {
    Children(Vec<&'a Elem>),
    InnerText(Vec<String>),
    Parent(&'a Elem),
}

/// The mathematical shape of a `Found`.
pub enum FoundG {
    Children(Seq<Elem>),
    InnerText(Seq<Seq<char>>),
    Parent(Elem),
}

impl<'a> View for Found<'a> {
    type V = FoundG;

    open spec fn view(&self) -> FoundG {
        match self {
            Found::Children(v) => FoundG::Children(derefs_of(v@)),
            Found::InnerText(ts) => FoundG::InnerText(views_of(ts@)),
            Found::Parent(e) => FoundG::Parent(**e),
        }
    }
}

/// One row record: for each data-cell index, the extracted value if that
/// column carries a rule.
pub struct Row<'a>(pub Vec<Option<Found<'a>>>);

/// The mathematical shape of a row record.
pub type RowG = Seq<Option<FoundG>>;

impl<'a> View for Row<'a> {
    type V = RowG;

    open spec fn view(&self) -> RowG {
        Seq::new(
            self.0@.len(),
            |i: int|
                match self.0@[i] {
                    Some(f) => Some(f@),
                    None => None,
                },
        )
    }
}

impl<'a> Row<'a> {
    /// The extracted value of column `j`, if the row has such a cell and the
    /// schema put a rule on it.
    pub fn get(&self, j: usize) -> (r: Option<&Found<'a>>)
        ensures
            r is Some <==> (j < self@.len() && self@[j as int] is Some),
            r matches Some(f) ==> self@[j as int] == Some(f@),
    {
        if j < self.0.len() {
            self.0[j].as_ref()
        } else {
            None
        }
    }
}

/// The mathematical shapes of a sequence of row records.
pub open spec fn rows_views(v: Seq<Row>) -> Seq<RowG> {
    Seq::new(v.len(), |i: int| v[i]@)
}

/// Why a scan failed: the document holds no table at all, or a configured
/// selector is malformed.
#[derive(Debug, Clone, Copy, PartialEq, Eq, Structural)]
pub enum ScanError {
    NoTables,
    BadSelector,
}

/// The tables of the document, in document order.
pub open spec fn tables_of(doc: Elem) -> Seq<Elem> {
    descs_of(doc, simple_tag("table"@))
}

/// The header-cell count of a table.
pub open spec fn th_count_of(t: Elem) -> int {
    descs_of(t, simple_tag("th"@)).len() as int
}

/// The rows of a table, in document order.
pub open spec fn trs_of(t: Elem) -> Seq<Elem> {
    descs_of(t, simple_tag("tr"@))
}

/// The data cells of a row, in document order.
pub open spec fn tds_of(tr: Elem) -> Seq<Elem> {
    descs_of(tr, simple_tag("td"@))
}

/// The header-cell count the schema requires.
pub open spec fn req_th(c: IncludeG) -> int {
    match c {
        IncludeG::Exact { th_count, .. } => th_count,
        IncludeG::Sparse { th_count, .. } => th_count,
    }
}

/// The rule the schema puts on column `j`, if any.
pub open spec fn rule_at(c: IncludeG, j: int) -> Option<SelectG> {
    match c {
        IncludeG::Exact { rules, .. } => if 0 <= j < rules.len() {
            Some(rules[j])
        } else {
            None
        },
        IncludeG::Sparse { rules, .. } => if 0 <= j < rules.len() {
            rules[j]
        } else {
            None
        },
    }
}

/// How many of the schema's columns from `j` on carry a rule.
pub open spec fn count_rules_at(rules: Seq<Option<SelectG>>, j: int) -> int
    decreases rules.len() - j,
{
    if j < 0 || j >= rules.len() {
        0
    } else {
        (if rules[j] is Some {
            1int
        } else {
            0int
        }) + count_rules_at(rules, j + 1)
    }
}

/// Whether a row with `tds` data cells qualifies under the schema.
pub open spec fn row_qualifies(c: IncludeG, tds: int) -> bool {
    match c {
        IncludeG::Exact { rules, .. } => tds == rules.len(),
        IncludeG::Sparse { rules, .. } => tds >= count_rules_at(rules, 0),
    }
}

/// What applying one rule to one cell yields; nothing when the rule's
/// selector is malformed.
pub open spec fn apply_rule(td: Elem, r: SelectG) -> Option<FoundG> {
    match r {
        SelectG::Matching(s) => match parse_sel_s(s) {
            Some(steps) => Some(FoundG::Children(select_of(td, steps))),
            None => None,
        },
        SelectG::InnerAsText => Some(FoundG::InnerText(crate::dom::texts_of(td))),
        SelectG::TdElement => Some(FoundG::Parent(td)),
    }
}

/// The record entries for the cells from `j` on; nothing when some rule is
/// malformed.
pub open spec fn row_cells_at(tds: Seq<Elem>, c: IncludeG, j: int) -> Option<RowG>
    decreases tds.len() - j,
{
    if j < 0 || j >= tds.len() {
        Some(Seq::empty())
    } else {
        let entry = match rule_at(c, j) {
            None => Some(None),
            Some(r) => match apply_rule(tds[j], r) {
                None => None,
                Some(f) => Some(Some(f)),
            },
        };
        match entry {
            None => None,
            Some(e) => match row_cells_at(tds, c, j + 1) {
                None => None,
                Some(rest) => Some(seq![e] + rest),
            },
        }
    }
}

/// The records of the rows from `j` on: non-qualifying rows are skipped,
/// qualifying rows contribute one record each; nothing when some rule is
/// malformed.
pub open spec fn table_rows_at(trs: Seq<Elem>, c: IncludeG, j: int) -> Option<Seq<RowG>>
    decreases trs.len() - j,
{
    if j < 0 || j >= trs.len() {
        Some(Seq::empty())
    } else {
        let tds = tds_of(trs[j]);
        if !row_qualifies(c, tds.len() as int) {
            table_rows_at(trs, c, j + 1)
        } else {
            match row_cells_at(tds, c, 0) {
                None => None,
                Some(r) => match table_rows_at(trs, c, j + 1) {
                    None => None,
                    Some(rest) => Some(seq![r] + rest),
                },
            }
        }
    }
}

/// Position `i` appears in the filter list.
pub open spec fn filter_has(f: Seq<usize>, i: int) -> bool {
    exists|k: int| 0 <= k < f.len() && #[trigger] f[k] as int == i
}

/// A table is scanned only if its position passes the filter and its
/// header-cell count equals the schema's required count.
pub open spec fn table_kept(t: Elem, i: int, c: IncludeG, f: Option<Seq<usize>>) -> bool {
    (match f {
        Some(v) => filter_has(v, i),
        None => true,
    }) && th_count_of(t) == req_th(c)
}

/// The records of the tables from `i` on.
pub open spec fn scan_tables_at(
    ts: Seq<Elem>,
    c: IncludeG,
    f: Option<Seq<usize>>,
    i: int,
) -> Option<Seq<RowG>>
    decreases ts.len() - i,
{
    if i < 0 || i >= ts.len() {
        Some(Seq::empty())
    } else if !table_kept(ts[i], i, c, f) {
        scan_tables_at(ts, c, f, i + 1)
    } else {
        match table_rows_at(trs_of(ts[i]), c, 0) {
            None => None,
            Some(rs) => match scan_tables_at(ts, c, f, i + 1) {
                None => None,
                Some(rest) => Some(rs + rest),
            },
        }
    }
}

/// What scanning the document yields: an error when it holds no table at all
/// or when a reachable rule's selector is malformed, and otherwise every
/// qualifying row's record, tables in document order, rows in table order.
pub open spec fn scan_spec(doc: Elem, c: IncludeG, f: Option<Seq<usize>>) -> Result<
    Seq<RowG>,
    ScanError,
> {
    let ts = tables_of(doc);
    if ts.len() == 0 {
        Err(ScanError::NoTables)
    } else {
        match scan_tables_at(ts, c, f, 0) {
            None => Err(ScanError::BadSelector),
            Some(rows) => Ok(rows),
        }
    }
}

fn contains_usize(v: &Vec<usize>, x: usize) -> (r: bool)
    ensures
        r == filter_has(v@, x as int),
{
    let n = v.len();
    let mut i: usize = 0;
    while i < n
        invariant
            0 <= i <= n,
            n == v@.len(),
            forall|k: int| 0 <= k < i ==> #[trigger] v@[k] as int != x as int,
        decreases n - i,
    {
        if v[i] == x {
            return true;
        }
        i += 1;
    }
    false
}

fn count_rules(rules: &Vec<Option<Select>>) -> (r: usize)
    ensures
        r == count_rules_at(
            Seq::new(
                rules@.len(),
                |i: int|
                    match rules@[i] {
                        Some(s) => Some(s@),
                        None => None,
                    },
            ),
            0,
        ),
        r <= rules@.len(),
{
    let ghost rv = Seq::new(
        rules@.len(),
        |i: int|
            match rules@[i] {
                Some(s) => Some(s@),
                None => None,
            },
    );
    let n = rules.len();
    let mut cnt: usize = 0;
    let mut i: usize = n;
    while i > 0
        invariant
            0 <= i <= n,
            n == rv.len(),
            n == rules@.len(),
            rv == Seq::new(
                rules@.len(),
                |q: int|
                    match rules@[q] {
                        Some(s) => Some(s@),
                        None => None,
                    },
            ),
            cnt == count_rules_at(rv, i as int),
            cnt <= n - i,
        decreases i,
    {
        i -= 1;
        proof {
            assert(rv.len() == rules@.len());
            assert(rv[i as int] == (match rules@[i as int] {
                Some(s) => Some(s@),
                None => None,
            }));
        }
        if rules[i].is_some() {
            cnt += 1;
        }
        proof {
            assert(count_rules_at(rv, i as int) == (if rv[i as int] is Some {
                1int
            } else {
                0int
            }) + count_rules_at(rv, i + 1));
        }
    }
    cnt
}

/// Applies one rule to one cell; exact counterpart of `apply_rule`, with a
/// malformed selector reported as an error.
fn apply_rule_x<'a>(td: &'a Elem, r: &Select) -> (res: Result<Found<'a>, ScanError>)
    ensures
        res matches Ok(f) ==> apply_rule(*td, r@) == Some(f@),
        res is Err <==> apply_rule(*td, r@) is None,
        res matches Err(e) ==> e == ScanError::BadSelector,
{
    match r {
        Select::Matching(s) => {
            match Selector::parse(s.as_str()) {
                Some(sel) => {
                    let els = td.select(&sel);
                    proof {
                        assert(derefs_of(els@) == select_of(*td, sel@));
                    }
                    Ok(Found::Children(els))
                },
                None => Err(ScanError::BadSelector),
            }
        },
        Select::InnerAsText => Ok(Found::InnerText(td.texts())),
        Select::TdElement => Ok(Found::Parent(td)),
    }
}

/// Scans the document under the given schema, keeping only tables whose
/// position passes the filter (when one is supplied) and whose header-cell
/// count equals the required count; exact counterpart of `scan_spec`.
pub fn map_from_table_data<'a>(
    doc: &'a Elem,
    collect: &Include,
    table_index_filter: Option<&Vec<usize>>,
) -> (r: Result<Vec<Row<'a>>, ScanError>)
    ensures
        r matches Ok(rows) ==> scan_spec(
            *doc,
            collect@,
            match table_index_filter {
                Some(f) => Some(f@),
                None => None,
            },
        ) == Ok::<Seq<RowG>, ScanError>(rows_views(rows@)),
        r matches Err(e) ==> scan_spec(
            *doc,
            collect@,
            match table_index_filter {
                Some(f) => Some(f@),
                None => None,
            },
        ) == Err::<Seq<RowG>, ScanError>(e),
{
    let ghost fview: Option<Seq<usize>> = match table_index_filter {
        Some(f) => Some(f@),
        None => None,
    };
    let tables = descendants_tagged(doc, "table");
    let ghost ts = derefs_of(tables@);
    let nt = tables.len();
    if nt == 0 {
        return Err(ScanError::NoTables);
    }
    let req = match collect {
        Include::Exact { th_count, .. } => *th_count,
        Include::Sparse { th_count, .. } => *th_count,
    };
    let mut out: Vec<Row<'a>> = Vec::new();
    let mut i: usize = 0;
    proof {
        assert(rows_views(out@) =~= Seq::<RowG>::empty());
    }
    while i < nt
        invariant
            0 <= i <= nt,
            1 <= nt == ts.len(),
            nt == tables@.len(),
            ts == derefs_of(tables@),
            ts == tables_of(*doc),
            req as int == req_th(collect@),
            fview == (match table_index_filter {
                Some(f) => Some(f@),
                None => None,
            }),
            scan_tables_at(ts, collect@, fview, 0) == (match scan_tables_at(
                ts,
                collect@,
                fview,
                i as int,
            ) {
                None => None::<Seq<RowG>>,
                Some(rest) => Some(rows_views(out@) + rest),
            }),
        decreases nt - i,
    {
        proof {
            assert(ts[i as int] == *tables@[i as int]);
        }
        let t: &'a Elem = tables[i];
        let keep = match table_index_filter {
            Some(f) => contains_usize(f, i),
            None => true,
        };
        if keep {
            let ths = descendants_tagged(t, "th");
            if ths.len() == req {
                match scan_one_table(t, collect, &mut out) {
                    Ok(()) => {
                    },
                    Err(e) => {
                        proof {
                            assert(table_kept(ts[i as int], i as int, collect@, fview));
                            assert(scan_tables_at(ts, collect@, fview, i as int) is None);
                            assert(scan_tables_at(ts, collect@, fview, 0) is None);
                        }
                        return Err(e);
                    },
                }
                proof {
                    assert(table_kept(ts[i as int], i as int, collect@, fview));
                    assert(scan_tables_at(ts, collect@, fview, 0) == (match scan_tables_at(
                        ts,
                        collect@,
                        fview,
                        i + 1,
                    ) {
                        None => None::<Seq<RowG>>,
                        Some(rest) => Some(rows_views(out@) + rest),
                    }));
                }
            } else {
                proof {
                    assert(!table_kept(ts[i as int], i as int, collect@, fview));
                }
            }
        } else {
            proof {
                assert(!table_kept(ts[i as int], i as int, collect@, fview));
            }
        }
        i += 1;
    }
    proof {
        assert(scan_tables_at(ts, collect@, fview, nt as int) == Some(Seq::<RowG>::empty()));
        assert(match scan_tables_at(ts, collect@, fview, 0) {
            None => false,
            Some(rows) => rows =~= rows_views(out@),
        });
    }
    Ok(out)
}

/// Scans the qualifying rows of one kept table, appending their records;
/// exact counterpart of `table_rows_at` from row zero.
fn scan_one_table<'a>(t: &'a Elem, collect: &Include, out: &mut Vec<Row<'a>>) -> (r: Result<
    (),
    ScanError,
>)
    ensures
        r matches Ok(()) ==> (table_rows_at(trs_of(*t), collect@, 0) matches Some(rs)
            && rows_views(final(out)@) == rows_views(old(out)@) + rs),
        r is Err ==> table_rows_at(trs_of(*t), collect@, 0) is None,
        r matches Err(e) ==> e == ScanError::BadSelector,
{
    let trs = descendants_tagged(t, "tr");
    let ghost trsv = derefs_of(trs@);
    let nr = trs.len();
    let rule_cnt = match collect {
        Include::Exact { rules, .. } => rules.len(),
        Include::Sparse { rules, .. } => count_rules(rules),
    };
    let mut j: usize = 0;
    let ghost mut acc: Seq<RowG> = Seq::empty();
    proof {
        assert(rows_views(out@) =~= rows_views(old(out)@) + acc);
    }
    while j < nr
        invariant
            0 <= j <= nr,
            nr == trsv.len(),
            nr == trs@.len(),
            trsv == derefs_of(trs@),
            trsv == trs_of(*t),
            (match (collect, collect@) {
                (Include::Exact { rules, .. }, IncludeG::Exact { .. }) => rule_cnt as int
                    == rules@.len(),
                (Include::Sparse { .. }, IncludeG::Sparse { rules, .. }) => rule_cnt as int
                    == count_rules_at(rules, 0),
                _ => false,
            }),
            rows_views(out@) == rows_views(old(out)@) + acc,
            table_rows_at(trsv, collect@, 0) == (match table_rows_at(trsv, collect@, j as int) {
                None => None::<Seq<RowG>>,
                Some(rest) => Some(acc + rest),
            }),
        decreases nr - j,
    {
        proof {
            assert(trsv[j as int] == *trs@[j as int]);
        }
        let tr: &'a Elem = trs[j];
        let tds = descendants_tagged(tr, "td");
        let ghost tdsv = derefs_of(tds@);
        let qualifies = match collect {
            Include::Exact { rules, .. } => tds.len() == rules.len(),
            Include::Sparse { .. } => tds.len() >= rule_cnt,
        };
        proof {
            assert(qualifies == row_qualifies(collect@, tdsv.len() as int));
            match collect@ {
                IncludeG::Exact { rules, .. } => {
                    assert(rules.len() == (match collect {
                        Include::Exact { rules: r2, .. } => r2@.len(),
                        Include::Sparse { .. } => 0,
                    }));
                },
                IncludeG::Sparse { .. } => {
                },
            }
        }
        if qualifies {
            match scan_one_row(&tds, collect) {
                Ok(row) => {
                    let ghost rowv = row@;
                    let ghost outprev = out@;
                    out.push(row);
                    proof {
                        let accold = acc;
                        acc = acc + seq![rowv];
                        assert(acc.drop_last() =~= accold);
                        assert(rows_views(outprev) == rows_views(old(out)@) + accold);
                        assert forall|q: int|
                            0 <= q < out@.len() implies rows_views(out@)[q] == (rows_views(
                            old(out)@,
                        ) + acc)[q] by {
                            let av = rows_views(old(out)@);
                            assert(rows_views(outprev).len() == outprev.len());
                            assert(av.len() + accold.len() == outprev.len());
                            if q < outprev.len() {
                                assert(rows_views(out@)[q] == out@[q]@);
                                assert(out@[q] == outprev[q]);
                                assert(rows_views(outprev)[q] == outprev[q]@);
                                assert(rows_views(outprev)[q] == (av + accold)[q]);
                                if q < av.len() {
                                    assert((av + acc)[q] == av[q]);
                                    assert((av + accold)[q] == av[q]);
                                } else {
                                    assert((av + acc)[q] == acc[q - av.len()]);
                                    assert((av + accold)[q] == accold[q - av.len()]);
                                    assert(acc[q - av.len()] == accold[q - av.len()]);
                                }
                            } else {
                                assert(q == outprev.len());
                                assert(rows_views(out@)[q] == out@[q]@);
                                assert(out@[q]@ == rowv);
                                assert((av + acc)[q] == acc[q - av.len()]);
                                assert(acc[q - av.len()] == rowv);
                            }
                        }
                        assert(rows_views(out@).len() == out@.len());
                        assert(out@.len() == outprev.len() + 1);
                        assert(rows_views(outprev).len() == outprev.len());
                        assert(rows_views(outprev).len() == rows_views(old(out)@).len()
                            + accold.len());
                        assert(rows_views(old(out)@).len() + acc.len() == out@.len());
                        assert(rows_views(out@) =~= rows_views(old(out)@) + acc);
                        match table_rows_at(trsv, collect@, j + 1) {
                            Some(rest) => {
                                assert((acc.drop_last() + (seq![rowv] + rest)) =~= (acc + rest));
                            },
                            None => {
                            },
                        }
                    }
                },
                Err(e) => {
                    proof {
                        assert(table_rows_at(trsv, collect@, j as int) is None);
                    }
                    return Err(e);
                },
            }
        }
        j += 1;
    }
    proof {
        assert(table_rows_at(trsv, collect@, nr as int) == Some(Seq::<RowG>::empty()));
        match table_rows_at(trsv, collect@, 0) {
            Some(rs) => {
                assert(rs =~= acc);
            },
            None => {
            },
        }
    }
    Ok(())
}

/// Builds the record of one qualifying row by applying each mapped column's
/// rule to its cell; exact counterpart of `row_cells_at` from cell zero.
fn scan_one_row<'a>(tds: &Vec<&'a Elem>, collect: &Include) -> (r: Result<Row<'a>, ScanError>)
    ensures
        r matches Ok(row) ==> row_cells_at(derefs_of(tds@), collect@, 0) == Some(row@),
        r is Err <==> row_cells_at(derefs_of(tds@), collect@, 0) is None,
        r matches Err(e) ==> e == ScanError::BadSelector,
{
    let ghost tdsv = derefs_of(tds@);
    let nc = tds.len();
    let mut cols: Vec<Option<Found<'a>>> = Vec::new();
    let mut jc: usize = 0;
    while jc < nc
        invariant
            0 <= jc <= nc,
            nc == tdsv.len(),
            nc == tds@.len(),
            tdsv == derefs_of(tds@),
            cols@.len() == jc,
            row_cells_at(tdsv, collect@, 0) == (match row_cells_at(tdsv, collect@, jc as int) {
                None => None::<RowG>,
                Some(rest) => Some(
                    Seq::new(
                        cols@.len(),
                        |q: int|
                            match cols@[q] {
                                Some(f) => Some(f@),
                                None => None,
                            },
                    ) + rest,
                ),
            }),
        decreases nc - jc,
    {
        let ghost colsv = Seq::new(
            cols@.len(),
            |q: int|
                match cols@[q] {
                    Some(f) => Some(f@),
                    None => None,
                },
        );
        proof {
            assert(tdsv[jc as int] == *tds@[jc as int]);
        }
        let td: &'a Elem = tds[jc];
        let rule: Option<&Select> = match collect {
            Include::Exact { rules, .. } => {
                if jc < rules.len() {
                    Some(&rules[jc])
                } else {
                    None
                }
            },
            Include::Sparse { rules, .. } => {
                if jc < rules.len() {
                    rules[jc].as_ref()
                } else {
                    None
                }
            },
        };
        proof {
            match rule {
                Some(rr) => {
                    assert(rule_at(collect@, jc as int) == Some(rr@));
                },
                None => {
                    assert(rule_at(collect@, jc as int) is None);
                },
            }
        }
        match rule {
            None => {
                cols.push(None);
                proof {
                    assert(Seq::new(
                        cols@.len(),
                        |q: int|
                            match cols@[q] {
                                Some(f) => Some(f@),
                                None => None,
                            },
                    ) =~= colsv + seq![None::<FoundG>]);
                    match row_cells_at(tdsv, collect@, jc + 1) {
                        Some(rest) => {
                            assert((colsv + (seq![None::<FoundG>] + rest)) =~= ((colsv + seq![
                                None::<FoundG>,
                            ]) + rest));
                        },
                        None => {
                        },
                    }
                }
            },
            Some(rr) => {
                match apply_rule_x(td, rr) {
                    Ok(f) => {
                        let ghost fv = f@;
                        cols.push(Some(f));
                        proof {
                            assert(Seq::new(
                                cols@.len(),
                                |q: int|
                                    match cols@[q] {
                                        Some(f2) => Some(f2@),
                                        None => None,
                                    },
                            ) =~= colsv + seq![Some(fv)]);
                            match row_cells_at(tdsv, collect@, jc + 1) {
                                Some(rest) => {
                                    assert((colsv + (seq![Some(fv)] + rest)) =~= ((colsv + seq![
                                        Some(fv),
                                    ]) + rest));
                                },
                                None => {
                                },
                            }
                        }
                    },
                    Err(e) => {
                        proof {
                            assert(row_cells_at(tdsv, collect@, jc as int) is None);
                        }
                        return Err(e);
                    },
                }
            },
        }
        jc += 1;
    }
    let row = Row(cols);
    proof {
        assert(row_cells_at(tdsv, collect@, nc as int) == Some(Seq::<Option<FoundG>>::empty()));
        match row_cells_at(tdsv, collect@, 0) {
            Some(rs) => {
                assert(rs =~= row@);
            },
            None => {
            },
        }
    }
    Ok(row)
}


/// A record holds entries only where the schema put a rule.
pub open spec fn record_ruled(r: RowG, c: IncludeG) -> bool {
    forall|j: int| 0 <= j < r.len() && (#[trigger] r[j]) is Some ==> rule_at(c, j) is Some
}

proof fn lemma_row_cells_ruled(tds: Seq<Elem>, c: IncludeG, j: int)
    requires
        0 <= j,
    ensures
        row_cells_at(tds, c, j) matches Some(rg) ==> forall|k: int|
            0 <= k < rg.len() && (#[trigger] rg[k]) is Some ==> rule_at(c, j + k) is Some,
    decreases tds.len() - j,
{
    if 0 <= j < tds.len() {
        lemma_row_cells_ruled(tds, c, j + 1);
        match row_cells_at(tds, c, j) {
            Some(rg) => {
                match row_cells_at(tds, c, j + 1) {
                    Some(rest) => {
                        assert forall|k: int|
                            0 <= k < rg.len() && (#[trigger] rg[k]) is Some implies rule_at(
                            c,
                            j + k,
                        ) is Some by {
                            if k > 0 {
                                assert(rg[k] == rest[k - 1]);
                            }
                        }
                    },
                    None => {
                    },
                }
            },
            None => {
            },
        }
    }
}

proof fn lemma_table_rows_ruled(trs: Seq<Elem>, c: IncludeG, j: int)
    requires
        0 <= j,
    ensures
        table_rows_at(trs, c, j) matches Some(rs) ==> forall|q: int|
            0 <= q < rs.len() ==> record_ruled(#[trigger] rs[q], c),
    decreases trs.len() - j,
{
    if 0 <= j < trs.len() {
        lemma_table_rows_ruled(trs, c, j + 1);
        let tds = tds_of(trs[j]);
        if row_qualifies(c, tds.len() as int) {
            lemma_row_cells_ruled(tds, c, 0);
            match (row_cells_at(tds, c, 0), table_rows_at(trs, c, j + 1)) {
                (Some(r), Some(rest)) => {
                    match table_rows_at(trs, c, j) {
                        Some(rs) => {
                            assert forall|q: int|
                                0 <= q < rs.len() implies record_ruled(#[trigger] rs[q], c) by {
                                if q == 0 {
                                    assert(rs[0] == r);
                                } else {
                                    assert(rs[q] == rest[q - 1]);
                                }
                            }
                        },
                        None => {
                        },
                    }
                },
                _ => {
                },
            }
        }
    }
}

proof fn lemma_scan_tables_ruled(ts: Seq<Elem>, c: IncludeG, f: Option<Seq<usize>>, i: int)
    requires
        0 <= i,
    ensures
        scan_tables_at(ts, c, f, i) matches Some(rows) ==> forall|q: int|
            0 <= q < rows.len() ==> record_ruled(#[trigger] rows[q], c),
    decreases ts.len() - i,
{
    if 0 <= i < ts.len() {
        lemma_scan_tables_ruled(ts, c, f, i + 1);
        if table_kept(ts[i], i, c, f) {
            lemma_table_rows_ruled(trs_of(ts[i]), c, 0);
            match (table_rows_at(trs_of(ts[i]), c, 0), scan_tables_at(ts, c, f, i + 1)) {
                (Some(rs), Some(rest)) => {
                    match scan_tables_at(ts, c, f, i) {
                        Some(rows) => {
                            assert forall|q: int|
                                0 <= q < rows.len() implies record_ruled(#[trigger] rows[q], c) by {
                                if q < rs.len() {
                                    assert(rows[q] == rs[q]);
                                } else {
                                    assert(rows[q] == rest[q - rs.len()]);
                                }
                            }
                        },
                        None => {
                        },
                    }
                },
                _ => {
                },
            }
        }
    }
}

/// Whatever the scan yields, every record holds a value only at columns the
/// schema maps to a rule: an ignored or unmapped column is never populated.
pub proof fn lemma_scan_records_ruled(doc: Elem, c: IncludeG, f: Option<Seq<usize>>)
    ensures
        scan_spec(doc, c, f) matches Ok(rows) ==> forall|q: int|
            0 <= q < rows.len() ==> record_ruled(#[trigger] rows[q], c),
{
    lemma_scan_tables_ruled(tables_of(doc), c, f, 0);
}

} // verus!
