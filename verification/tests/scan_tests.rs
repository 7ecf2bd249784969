use worldfacts::dom::{Elem, Node, Selector};
use worldfacts::scan::{map_from_table_data, Found, Include, ScanError, Select};

fn el(tag: &str, children: Vec<Node>) -> Elem {
    Elem { tag: tag.to_string(), attrs: vec![], children }
}

fn text(s: &str) -> Node {
    Node::Text(s.to_string())
}

fn th() -> Node {
    Node::Element(el("th", vec![text("h")]))
}

fn td(content: &str) -> Node {
    Node::Element(el("td", vec![text(content)]))
}

/// A table with the given header-cell count and one row holding the given
/// data cells.
fn table(ths: usize, tds: Vec<Node>) -> Node {
    let mut kids: Vec<Node> = (0..ths).map(|_| th()).collect();
    kids.push(Node::Element(el("tr", tds)));
    Node::Element(el("table", kids))
}

#[test]
fn exact_schema_takes_matching_row_and_skips_other_table() {
    // One table with 6 header cells and a row of exactly 6 data cells, and a
    // sibling table with 5 header cells that must be skipped entirely.
    let good = table(6, (0..6).map(|i| td(&format!("c{}", i))).collect());
    let bad = table(5, (0..6).map(|i| td(&format!("x{}", i))).collect());
    let doc = el("html", vec![good, bad]);
    let schema = Include::Exact {
        th_count: 6,
        rules: (0..6).map(|_| Select::TdElement).collect(),
    };
    let rows = map_from_table_data(&doc, &schema, None).unwrap();
    assert_eq!(rows.len(), 1);
    for j in 0..6 {
        match rows[0].get(j) {
            Some(Found::Parent(_)) => {}
            _ => panic!("column {} should hold the whole cell", j),
        }
    }
    assert!(rows[0].get(6).is_none());
}

#[test]
fn exact_schema_rejects_row_with_wrong_cell_count() {
    let doc = el("html", vec![table(6, (0..5).map(|i| td(&format!("c{}", i))).collect())]);
    let schema = Include::Exact {
        th_count: 6,
        rules: (0..6).map(|_| Select::TdElement).collect(),
    };
    let rows = map_from_table_data(&doc, &schema, None).unwrap();
    assert_eq!(rows.len(), 0);
}

#[test]
fn sparse_schema_accepts_short_row() {
    // 4 mapped indices, 2 of them rule-bearing; a row with only 3 data cells
    // qualifies and yields values for the 2 ruled columns.
    let doc = el("html", vec![table(4, vec![td("a"), td("b"), td("c")])]);
    let schema = Include::Sparse {
        th_count: 4,
        rules: vec![Some(Select::InnerAsText), None, Some(Select::InnerAsText), None],
    };
    let rows = map_from_table_data(&doc, &schema, None).unwrap();
    assert_eq!(rows.len(), 1);
    match rows[0].get(0) {
        Some(Found::InnerText(v)) => assert_eq!(v[0].as_str(), "a"),
        _ => panic!("column 0 should hold inner text"),
    }
    assert!(rows[0].get(1).is_none());
    match rows[0].get(2) {
        Some(Found::InnerText(v)) => assert_eq!(v[0].as_str(), "c"),
        _ => panic!("column 2 should hold inner text"),
    }
    assert!(rows[0].get(3).is_none());
}

#[test]
fn no_tables_is_an_error() {
    let doc = el("html", vec![Node::Element(el("p", vec![text("nothing")]))]);
    let schema = Include::Exact { th_count: 1, rules: vec![Select::TdElement] };
    assert!(matches!(map_from_table_data(&doc, &schema, None), Err(ScanError::NoTables)));
}

#[test]
fn malformed_selector_is_an_error() {
    let doc = el("html", vec![table(1, vec![td("x")])]);
    let schema = Include::Exact { th_count: 1, rules: vec![Select::Matching("!!".to_string())] };
    assert!(matches!(map_from_table_data(&doc, &schema, None), Err(ScanError::BadSelector)));
}

#[test]
fn table_index_filter_skips_unlisted_tables() {
    let t0 = table(1, vec![td("first")]);
    let t1 = table(1, vec![td("second")]);
    let doc = el("html", vec![t0, t1]);
    let schema = Include::Exact { th_count: 1, rules: vec![Select::InnerAsText] };
    let filter = vec![1usize];
    let rows = map_from_table_data(&doc, &schema, Some(&filter)).unwrap();
    assert_eq!(rows.len(), 1);
    match rows[0].get(0) {
        Some(Found::InnerText(v)) => assert_eq!(v[0].as_str(), "second"),
        _ => panic!("expected the second table's row"),
    }
}

#[test]
fn selector_child_chain_matches() {
    // a > span must match a span whose parent is the anchor, not a span
    // nested deeper.
    let span_deep = Node::Element(el("b", vec![Node::Element(el("span", vec![text("deep")]))]));
    let span_direct = Node::Element(el("span", vec![text("direct")]));
    let anchor = Node::Element(el("a", vec![span_direct, span_deep]));
    let cell = el("td", vec![anchor]);
    let sel = Selector::parse("a > span").unwrap();
    let hits = cell.select(&sel);
    assert_eq!(hits.len(), 1);
    assert_eq!(hits[0].texts()[0].as_str(), "direct");
}

#[test]
fn selector_descendant_chain_matches() {
    let span_deep = Node::Element(el("b", vec![Node::Element(el("span", vec![text("deep")]))]));
    let anchor = Node::Element(el("a", vec![span_deep]));
    let cell = el("td", vec![anchor]);
    let sel = Selector::parse("a span").unwrap();
    let hits = cell.select(&sel);
    assert_eq!(hits.len(), 1);
    assert_eq!(hits[0].texts()[0].as_str(), "deep");
}

#[test]
fn selector_class_and_attr() {
    let mut with_class = el("div", vec![text("c")]);
    with_class.attrs.push(("class".to_string(), "country big".to_string()));
    let mut with_attr = el("span", vec![text("l")]);
    with_attr.attrs.push(("lang".to_string(), "fr".to_string()));
    let doc = el("html", vec![Node::Element(with_class), Node::Element(with_attr)]);
    let sel = Selector::parse(".country").unwrap();
    assert_eq!(doc.select(&sel).len(), 1);
    let sel2 = Selector::parse("span[lang]").unwrap();
    assert_eq!(doc.select(&sel2).len(), 1);
    let sel3 = Selector::parse(".missing").unwrap();
    assert_eq!(doc.select(&sel3).len(), 0);
}

#[test]
fn selector_parse_rejects_malformed_text() {
    assert!(Selector::parse("").is_none());
    assert!(Selector::parse("!!").is_none());
    assert!(Selector::parse("a >").is_none());
    assert!(Selector::parse("a..b").is_none());
    assert!(Selector::parse("a[x").is_none());
    assert!(Selector::parse(".country div>h2").is_some());
    assert!(Selector::parse("a > span").is_some());
}
