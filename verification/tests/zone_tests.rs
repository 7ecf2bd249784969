use worldfacts::dom::{Elem, Node};
use worldfacts::ident::Identifier;
use worldfacts::language::{Iso639, Language};
use worldfacts::region::{Iso3166_1, Iso3166_2, Region, Tld};
use worldfacts::registry::{AliasTable, Registry};

fn el(tag: &str, children: Vec<Node>) -> Elem {
    Elem { tag: tag.to_string(), attrs: vec![], children }
}

fn attr_el(tag: &str, attrs: Vec<(&str, &str)>, children: Vec<Node>) -> Elem {
    Elem {
        tag: tag.to_string(),
        attrs: attrs.iter().map(|(k, v)| (k.to_string(), v.to_string())).collect(),
        children,
    }
}

fn text(s: &str) -> Node {
    Node::Text(s.to_string())
}

fn th() -> Node {
    Node::Element(el("th", vec![text("h")]))
}

fn td(children: Vec<Node>) -> Node {
    Node::Element(el("td", children))
}

fn table(ths: usize, rows: Vec<Vec<Node>>) -> Node {
    let mut kids: Vec<Node> = (0..ths).map(|_| th()).collect();
    for r in rows {
        kids.push(Node::Element(el("tr", r)));
    }
    Node::Element(el("table", kids))
}

fn french() -> Language {
    Language::new(
        "French".to_string(),
        "French language".to_string(),
        Iso639 {
            set1: "fr".to_string(),
            set2_t: "fra".to_string(),
            set2_b: "fre".to_string(),
            set3: "fra".to_string(),
        },
        None,
    )
}

fn setting() -> (Registry<Region>, AliasTable, Registry<Language>) {
    let mut regs: Registry<Region> = Registry::new();
    regs.push_new(
        Identifier::new("fr"),
        Region::new(
            "France".to_string(),
            "French Republic".to_string(),
            Identifier::new("france"),
            true,
            Iso3166_1::new("FR".to_string(), "FRA".to_string(), 250).unwrap(),
            Iso3166_2::new("ISO 3166-2:FR".to_string()).unwrap(),
            Tld::new(vec![".fr".to_string()]).unwrap(),
        ),
    );
    let aliases = AliasTable::new();
    let mut langs: Registry<Language> = Registry::new();
    langs.push_new(Identifier::new("fra"), french());
    (regs, aliases, langs)
}

fn zones_doc() -> Elem {
    // The official-language cell holds a list item with a reference link,
    // exactly the shape the free-text pass harvests first.
    let li = Node::Element(el(
        "li",
        vec![Node::Element(attr_el(
            "a",
            vec![("href", "/wiki/French_language")],
            vec![text("French")],
        ))],
    ));
    let row = vec![
        td(vec![Node::Element(attr_el(
            "a",
            vec![("href", "/wiki/France"), ("title", "France")],
            vec![text("France")],
        ))]),
        td(vec![li]),
        td(vec![text("regional: none listed")]),
    ];
    el("html", vec![table(6, vec![row])])
}

#[test]
fn zone_pass_attaches_territory_once() {
    let (regs, aliases, mut langs) = setting();
    let doc = zones_doc();
    Language::zones_from_html(&doc, &aliases, &regs, &mut langs).unwrap();
    let fr = &langs.items[0].1;
    assert_eq!(fr.regions.len(), 1);
    assert_eq!(fr.regions[0].as_str(), "fr");
}

#[test]
fn zone_pass_processed_twice_adds_nothing() {
    // The same cell processed twice leaves the language's region list with
    // the territory exactly once.
    let (regs, aliases, mut langs) = setting();
    let doc = zones_doc();
    Language::zones_from_html(&doc, &aliases, &regs, &mut langs).unwrap();
    Language::zones_from_html(&doc, &aliases, &regs, &mut langs).unwrap();
    let fr = &langs.items[0].1;
    assert_eq!(fr.regions.len(), 1);
    assert_eq!(fr.regions[0].as_str(), "fr");
}

#[test]
fn zone_pass_harvests_plain_words_with_stop_list() {
    // A flat cell: words of three letters and more are candidates unless
    // they stand on the stop-word list ("official" does).
    let row = vec![
        td(vec![Node::Element(attr_el(
            "a",
            vec![("href", "/wiki/France"), ("title", "France")],
            vec![text("France")],
        ))]),
        td(vec![text("French is official")]),
        td(vec![]),
    ];
    let doc = el("html", vec![table(6, vec![row])]);
    let (regs, aliases, mut langs) = setting();
    Language::zones_from_html(&doc, &aliases, &regs, &mut langs).unwrap();
    assert_eq!(langs.items[0].1.regions.len(), 1);
}

#[test]
fn zone_pass_attaches_to_every_matching_language() {
    // Two distinct languages share the display name a candidate carries:
    // both gain the territory.
    let (regs, aliases, mut langs) = setting();
    langs.push_new(
        Identifier::new("fr2"),
        Language::new(
            "Gallic".to_string(),
            "French".to_string(),
            Iso639 {
                set1: "f2".to_string(),
                set2_t: "fr2".to_string(),
                set2_b: "fr2".to_string(),
                set3: "fr2".to_string(),
            },
            None,
        ),
    );
    let doc = zones_doc();
    Language::zones_from_html(&doc, &aliases, &regs, &mut langs).unwrap();
    assert_eq!(langs.items[0].1.regions.len(), 1);
    assert_eq!(langs.items[0].1.regions[0].as_str(), "fr");
    assert_eq!(langs.items[1].1.regions.len(), 1);
    assert_eq!(langs.items[1].1.regions[0].as_str(), "fr");
    // A second pass still adds nothing to either.
    Language::zones_from_html(&doc, &aliases, &regs, &mut langs).unwrap();
    assert_eq!(langs.items[0].1.regions.len(), 1);
    assert_eq!(langs.items[1].1.regions.len(), 1);
}

#[test]
fn zone_pass_unresolved_territory_changes_nothing() {
    let row = vec![
        td(vec![Node::Element(attr_el(
            "a",
            vec![("href", "/wiki/Atlantis"), ("title", "Atlantis")],
            vec![text("Atlantis")],
        ))]),
        td(vec![text("French")]),
        td(vec![]),
    ];
    let doc = el("html", vec![table(6, vec![row])]);
    let (regs, aliases, mut langs) = setting();
    Language::zones_from_html(&doc, &aliases, &regs, &mut langs).unwrap();
    assert_eq!(langs.items[0].1.regions.len(), 0);
}
