use worldfacts::dom::parse_document;
use worldfacts::scan::{map_from_table_data, Found, Include, Select};

#[test]
fn parsed_markup_flows_through_the_scanner() {
    let html = "<html><body>\
        <table>\
          <tr><th>Name</th><th>Code</th></tr>\
          <tr><td><a href=\"/wiki/France\" title=\"France\">France</a></td><td>FR</td></tr>\
        </table>\
        </body></html>";
    let doc = parse_document(html);
    let schema = Include::Exact {
        th_count: 2,
        rules: vec![Select::Matching("a".to_string()), Select::InnerAsText],
    };
    let rows = map_from_table_data(&doc, &schema, None).unwrap();
    assert_eq!(rows.len(), 1);
    match rows[0].get(0) {
        Some(Found::Children(v)) => {
            assert_eq!(v.len(), 1);
            assert_eq!(v[0].attr("title").unwrap().as_str(), "France");
            assert_eq!(v[0].attr("href").unwrap().as_str(), "/wiki/France");
            let texts = v[0].texts();
            assert_eq!(texts.len(), 1);
            assert_eq!(texts[0].as_str(), "France");
        }
        _ => panic!("expected matched link elements"),
    }
    match rows[0].get(1) {
        Some(Found::InnerText(v)) => assert_eq!(v[0].as_str(), "FR"),
        _ => panic!("expected inner text"),
    }
}

#[test]
fn parsed_markup_keeps_text_order_and_nesting() {
    let html = "<html><body><div class=\"country\"><div><h2> France </h2></div></div></body></html>";
    let doc = parse_document(html);
    let sel = worldfacts::dom::Selector::parse(".country div>h2").unwrap();
    let hits = doc.select(&sel);
    assert_eq!(hits.len(), 1);
    let texts = hits[0].texts();
    assert_eq!(texts[0].as_str(), " France ");
}
