use worldfacts::builders::BuildError;
use worldfacts::calling_codes::CallingCode;
use worldfacts::capital::Capital;
use worldfacts::currency::Currency;
use worldfacts::dom::{Elem, Node};
use worldfacts::flag::Flag;
use worldfacts::ident::Identifier;
use worldfacts::language::Language;
use worldfacts::region::{Iso3166_1, Iso3166_2, Region, Tld};
use worldfacts::registry::{AliasTable, Registry};
use worldfacts::sovereign_state::SovereignState;
use worldfacts::un_nations::UNMember;

fn el(tag: &str, children: Vec<Node>) -> Elem {
    Elem { tag: tag.to_string(), attrs: vec![], children }
}

fn attr_el(tag: &str, attrs: Vec<(&str, &str)>, children: Vec<Node>) -> Elem {
    Elem {
        tag: tag.to_string(),
        attrs: attrs.iter().map(|(k, v)| (k.to_string(), v.to_string())).collect(),
        children,
    }
}

fn text(s: &str) -> Node {
    Node::Text(s.to_string())
}

fn link(href: &str, title: Option<&str>, inner: &str) -> Node {
    let mut attrs = vec![("href", href)];
    if let Some(t) = title {
        attrs.push(("title", t));
    }
    Node::Element(attr_el("a", attrs, vec![text(inner)]))
}

fn th() -> Node {
    Node::Element(el("th", vec![text("h")]))
}

fn td(children: Vec<Node>) -> Node {
    Node::Element(el("td", children))
}

fn table(ths: usize, rows: Vec<Vec<Node>>) -> Node {
    let mut kids: Vec<Node> = (0..ths).map(|_| th()).collect();
    for r in rows {
        kids.push(Node::Element(el("tr", r)));
    }
    Node::Element(el("table", kids))
}

fn region(name: &str, state_name: &str, a2: &str, a3: &str, num: u16) -> Region {
    Region::new(
        name.to_string(),
        state_name.to_string(),
        Identifier::new(name),
        true,
        Iso3166_1::new(a2.to_string(), a3.to_string(), num).unwrap(),
        Iso3166_2::new(format!("ISO 3166-2:{}", a2)).unwrap(),
        Tld::new(vec![format!(".{}", a2.to_lowercase())]).unwrap(),
    )
}

fn region_registry() -> Registry<Region> {
    let mut reg: Registry<Region> = Registry::new();
    reg.push_new(Identifier::new("fr"), region("France", "French Republic", "FR", "FRA", 250));
    reg.push_new(
        Identifier::new("de"),
        region("Germany", "Federal Republic of Germany", "DE", "DEU", 276),
    );
    reg
}

#[test]
fn calling_code_duplicate_territory_is_discarded() {
    // Two rows resolving to the same territory: the second is dropped and
    // the registry keeps only the first code.
    let row1 = vec![td(vec![text("France")]), td(vec![link("/wiki/33", None, "+33")])];
    let row2 = vec![td(vec![text("France")]), td(vec![link("/wiki/590", None, "+590")])];
    let doc = el("html", vec![table(5, vec![row1, row2])]);
    let regs = region_registry();
    let out = CallingCode::from_html(&doc, &regs, None).unwrap();
    assert_eq!(out.len(), 1);
    assert_eq!(out.items[0].0.as_str(), "fr");
    assert_eq!(out.items[0].1 .0.as_str(), "+33");
}

#[test]
fn calling_code_unresolved_row_is_skipped() {
    let row1 = vec![td(vec![text("Atlantis")]), td(vec![link("/wiki/1", None, "+1")])];
    let row2 = vec![td(vec![text("Germany")]), td(vec![link("/wiki/49", None, "+49")])];
    let doc = el("html", vec![table(5, vec![row1, row2])]);
    let regs = region_registry();
    let out = CallingCode::from_html(&doc, &regs, None).unwrap();
    assert_eq!(out.len(), 1);
    assert_eq!(out.items[0].0.as_str(), "de");
}

fn currency_row(country: &str, code: &str) -> Vec<Node> {
    vec![
        td(vec![link("/wiki/Country", Some(country), country)]),
        td(vec![link("/wiki/Euro", None, "Euro")]),
        td(vec![text("€ sign")]),
        td(vec![text(code)]),
        td(vec![link("/wiki/Cent", None, "Cent")]),
        td(vec![text("100")]),
    ]
}

#[test]
fn currency_same_code_merges_regions() {
    // Two rows with the same settlement code resolving to two different
    // territories yield one entity whose region list has length two.
    let doc = el(
        "html",
        vec![table(6, vec![currency_row("France", "EUR"), currency_row("Germany", "EUR")])],
    );
    let regs = region_registry();
    let out = Currency::from_html(&doc, &regs, None).unwrap();
    assert_eq!(out.len(), 1);
    assert_eq!(out.items[0].0.as_str(), "eur");
    let cur = &out.items[0].1;
    assert_eq!(cur.name.as_str(), "Euro");
    assert_eq!(cur.symbol.as_str(), "€");
    assert_eq!(cur.fraction.name.as_str(), "Cent");
    assert_eq!(cur.fraction.basic, 100);
    let region_keys: Vec<&str> = cur.regions.iter().map(|i| i.as_str()).collect();
    assert_eq!(region_keys, vec!["fr", "de"]);
}

#[test]
fn sovereign_states_are_built_from_markers() {
    let row = vec![
        td(vec![link("/wiki/France", Some("French Republic"), "France")]),
        td(vec![text("UN member state")]),
        td(vec![text("None")]),
    ];
    let row2 = vec![
        td(vec![link("/wiki/Kosovo", Some("Republic of Kosovo"), "Kosovo")]),
        td(vec![text("Partially recognized")]),
        td(vec![text("Claimed by Serbia")]),
    ];
    let doc = el("html", vec![table(4, vec![row, row2])]);
    let mut aliases = AliasTable::new();
    aliases.items.push((Identifier::new("fr"), vec!["France".to_string()]));
    let uns: Vec<UNMember> = vec![];
    let out = SovereignState::from_html(&doc, &uns, &aliases).unwrap();
    assert_eq!(out.len(), 2);
    assert_eq!(out.items[0].0.as_str(), "fr");
    let fr = &out.items[0].1;
    assert_eq!(fr.name_short.as_str(), "France");
    assert_eq!(fr.name_long.as_str(), "French Republic");
    assert!(fr.un_member);
    assert!(!fr.disputed);
    // No alias entry for Kosovo: the key is derived from the name itself.
    assert_eq!(out.items[1].0.as_str(), "kosovo");
    assert!(!out.items[1].1.un_member);
    assert!(out.items[1].1.disputed);
}

#[test]
fn sovereign_key_prefers_un_member_list() {
    let row = vec![
        td(vec![link("/wiki/France", Some("French Republic"), "France")]),
        td(vec![text("UN member state")]),
        td(vec![text("None")]),
    ];
    let doc = el("html", vec![table(4, vec![row])]);
    let uns = vec![UNMember::new("France".to_string(), Some(Identifier::new("fx")))];
    let aliases = AliasTable::new();
    let out = SovereignState::from_html(&doc, &uns, &aliases).unwrap();
    assert_eq!(out.items[0].0.as_str(), "fx");
}

#[test]
fn region_builder_resolves_sovereignty() {
    let code_cell = |s: &str| {
        td(vec![Node::Element(el(
            "a",
            vec![Node::Element(el("span", vec![text(s)]))],
        ))])
    };
    let row = vec![
        td(vec![link("/wiki/France", Some("France"), "France")]),
        td(vec![link("/wiki/France", None, "The French Republic")]),
        td(vec![text("UN member")]),
        code_cell("fr"),
        code_cell("fra"),
        code_cell("250"),
        td(vec![link("/wiki/ISO_3166-2:FR", Some("ISO 3166-2:FR"), "ISO 3166-2:FR")]),
        td(vec![link("/wiki/.fr", Some(".fr"), ".fr")]),
    ];
    let doc = el("html", vec![table(9, vec![row])]);
    let mut sovs: Registry<SovereignState> = Registry::new();
    sovs.push_new(
        Identifier::new("france"),
        SovereignState::new("France".to_string(), "French Republic".to_string(), true, false),
    );
    let out = Region::from_html(&doc, &sovs).unwrap();
    assert_eq!(out.len(), 1);
    assert_eq!(out.items[0].0.as_str(), "fr");
    let r = &out.items[0].1;
    assert_eq!(r.name.as_str(), "France");
    assert_eq!(r.state_name.as_str(), "The French Republic");
    assert!(r.un_member);
    assert_eq!(r.sovereignity.as_str(), "france");
    assert_eq!(r.iso_3166_1.a2.as_str(), "FR");
    assert_eq!(r.iso_3166_1.a3.as_str(), "FRA");
    assert_eq!(r.iso_3166_1.num, 250);
    assert_eq!(r.iso_3166_2.0.as_str(), "ISO 3166-2:FR");
    assert_eq!(r.tld.0[0].as_str(), ".fr");
}

#[test]
fn region_builder_skips_undecidable_sovereignty() {
    let code_cell = |s: &str| {
        td(vec![Node::Element(el(
            "a",
            vec![Node::Element(el("span", vec![text(s)]))],
        ))])
    };
    let row = vec![
        td(vec![link("/wiki/Nowhere", Some("Nowhere"), "Nowhere")]),
        td(vec![link("/wiki/Nowhere", None, "Nowhere")]),
        td(vec![text("no markers at all")]),
        code_cell("nw"),
        code_cell("nwh"),
        code_cell("999"),
        td(vec![link("/wiki/ISO_3166-2:NW", Some("ISO 3166-2:NW"), "x")]),
        td(vec![link("/wiki/.nw", Some(".nw"), ".nw")]),
    ];
    let doc = el("html", vec![table(9, vec![row])]);
    let sovs: Registry<SovereignState> = Registry::new();
    let out = Region::from_html(&doc, &sovs).unwrap();
    assert_eq!(out.len(), 0);
}

#[test]
fn emoji_rows_attach_to_known_regions_once() {
    let row = |emoji: &str, code: &str| {
        vec![
            td(vec![link("/wiki/Flag", Some(emoji), "flag")]),
            td(vec![text(code)]),
        ]
    };
    let doc = el(
        "html",
        vec![table(
            4,
            vec![row("flag-fr", " FR "), row("flag-fr-again", "FR"), row("flag-zz", "ZZ")],
        )],
    );
    let regs = region_registry();
    let out = Flag::emojis_from_html(&doc, &regs).unwrap();
    assert_eq!(out.len(), 1);
    assert_eq!(out.items[0].0.as_str(), "fr");
    assert_eq!(out.items[0].1.as_str(), "flag-fr");
}

#[test]
fn capital_excludes_endonym_equal_to_exonym() {
    let span_lang = |lang: &str, t: &str| {
        Node::Element(attr_el("span", vec![("lang", lang)], vec![text(t)]))
    };
    // "PARIS" differs from the exonym only in letter case and is excluded
    // too: the comparison is case/white-space-normalized.
    let row = vec![
        td(vec![link("/wiki/France", Some("France"), "France")]),
        td(vec![link("/wiki/Paris", None, "Paris")]),
        td(vec![]),
        td(vec![
            span_lang("fr", "Paris"),
            span_lang("la", " PARIS "),
            span_lang("oc", " París "),
        ]),
    ];
    let doc = el("html", vec![table(5, vec![row])]);
    let regs = region_registry();
    let out = Capital::from_html(&doc, &regs, None).unwrap();
    assert_eq!(out.len(), 1);
    assert_eq!(out.items[0].0.as_str(), "fr");
    let cap = &out.items[0].1;
    assert_eq!(cap.name.as_str(), "Paris");
    let endos: Vec<&str> = cap.endonyms.as_ref().unwrap().iter().map(|s| s.as_str()).collect();
    assert_eq!(endos, vec!["París"]);
}

#[test]
fn capital_with_no_distinct_endonyms_has_none() {
    let span_lang = |lang: &str, t: &str| {
        Node::Element(attr_el("span", vec![("lang", lang)], vec![text(t)]))
    };
    let row = vec![
        td(vec![link("/wiki/Germany", Some("Germany"), "Germany")]),
        td(vec![link("/wiki/Berlin", None, "Berlin")]),
        td(vec![]),
        td(vec![span_lang("de", "Berlin")]),
    ];
    let doc = el("html", vec![table(5, vec![row])]);
    let regs = region_registry();
    let out = Capital::from_html(&doc, &regs, None).unwrap();
    assert_eq!(out.len(), 1);
    assert!(out.items[0].1.endonyms.is_none());
}

#[test]
fn language_codes_are_keyed_by_set3() {
    let code_cell = |s: &str| td(vec![Node::Element(el("code", vec![text(s)]))]);
    let bold_code_cell = |plain: &str, bold: &str| {
        td(vec![Node::Element(el(
            "code",
            vec![text(plain), Node::Element(el("b", vec![text(bold)]))],
        ))])
    };
    let row = vec![
        td(vec![link("/wiki/French_language", Some("French language"), "French")]),
        td(vec![link("https://www.loc.gov/standards/iso639-2/php/x.php", None, "fr")]),
        bold_code_cell("fra ", "fra"),
        code_cell("fre"),
        code_cell("fra"),
    ];
    let doc = el("html", vec![table(6, vec![row])]);
    let out = Language::from_html(&doc).unwrap();
    assert_eq!(out.len(), 1);
    assert_eq!(out.items[0].0.as_str(), "fra");
    let l = &out.items[0].1;
    assert_eq!(l.name_short.as_str(), "French");
    assert_eq!(l.name_long.as_str(), "French language");
    assert_eq!(l.iso639.set1.as_str(), "fr");
    assert_eq!(l.iso639.set2_t.as_str(), "fra");
    assert_eq!(l.iso639.set2_b.as_str(), "fre");
    assert_eq!(l.iso639.set3.as_str(), "fra");
    assert!(l.regions.is_empty());
}

#[test]
fn un_members_match_seed_names_exactly() {
    let country_block = |name: &str| {
        Node::Element(attr_el(
            "div",
            vec![("class", "country list")],
            vec![Node::Element(el(
                "div",
                vec![Node::Element(el("h2", vec![text(name)]))],
            ))],
        ))
    };
    let doc = el("html", vec![country_block(" France "), country_block("Atlantis")]);
    let mut aliases = AliasTable::new();
    aliases.items.push((Identifier::new("fr"), vec!["France".to_string()]));
    let out = UNMember::from_document(&doc, &aliases).unwrap();
    assert_eq!(out.len(), 2);
    assert_eq!(out[0].name.as_str(), " France ");
    assert_eq!(out[0].iso_3166.as_ref().unwrap().as_str(), "fr");
    assert!(out[1].iso_3166.is_none());
}

#[test]
fn un_members_empty_harvest_is_an_error() {
    let doc = el("html", vec![text("nothing")]);
    let aliases = AliasTable::new();
    assert!(matches!(
        UNMember::from_document(&doc, &aliases),
        Err(BuildError::EmptyInput)
    ));
}

#[test]
fn builder_without_tables_fails() {
    let doc = el("html", vec![text("nothing here")]);
    let regs = region_registry();
    assert!(matches!(
        CallingCode::from_html(&doc, &regs, None),
        Err(BuildError::NoTables)
    ));
}

#[test]
fn sovereign_name_cell_without_link_is_a_schema_error() {
    let row = vec![
        td(vec![text("no link at all")]),
        td(vec![text("UN member state")]),
        td(vec![text("None")]),
    ];
    let doc = el("html", vec![table(4, vec![row])]);
    let uns: Vec<UNMember> = vec![];
    let aliases = AliasTable::new();
    assert!(matches!(
        SovereignState::from_html(&doc, &uns, &aliases),
        Err(BuildError::SchemaShape)
    ));
}

#[test]
fn emoji_without_two_letter_code_is_a_field_error() {
    let row = vec![
        td(vec![link("/wiki/Flag", Some("flag-x"), "flag")]),
        td(vec![text("FRA")]),
    ];
    let doc = el("html", vec![table(4, vec![row])]);
    let regs = region_registry();
    assert!(matches!(
        Flag::emojis_from_html(&doc, &regs),
        Err(BuildError::BadField)
    ));
}

#[test]
fn region_duplicate_two_letter_code_is_fatal() {
    let code_cell = |s: &str| {
        td(vec![Node::Element(el(
            "a",
            vec![Node::Element(el("span", vec![text(s)]))],
        ))])
    };
    let row = |name: &str| {
        vec![
            td(vec![link("/wiki/France", Some(name), name)]),
            td(vec![link("/wiki/France", None, "The French Republic")]),
            td(vec![text("UN member")]),
            code_cell("fr"),
            code_cell("fra"),
            code_cell("250"),
            td(vec![link("/wiki/ISO_3166-2:FR", Some("ISO 3166-2:FR"), "x")]),
            td(vec![link("/wiki/.fr", Some(".fr"), ".fr")]),
        ]
    };
    let doc = el("html", vec![table(9, vec![row("France"), row("France")])]);
    let mut sovs: Registry<SovereignState> = Registry::new();
    sovs.push_new(
        Identifier::new("france"),
        SovereignState::new("France".to_string(), "French Republic".to_string(), true, false),
    );
    assert!(matches!(Region::from_html(&doc, &sovs), Err(BuildError::DuplicateKey)));
}

#[test]
fn region_wrong_code_length_is_a_field_error() {
    let code_cell = |s: &str| {
        td(vec![Node::Element(el(
            "a",
            vec![Node::Element(el("span", vec![text(s)]))],
        ))])
    };
    let row = vec![
        td(vec![link("/wiki/France", Some("France"), "France")]),
        td(vec![link("/wiki/France", None, "The French Republic")]),
        td(vec![text("UN member")]),
        code_cell("fra"),
        code_cell("fra"),
        code_cell("250"),
        td(vec![link("/wiki/ISO_3166-2:FR", Some("ISO 3166-2:FR"), "x")]),
        td(vec![link("/wiki/.fr", Some(".fr"), ".fr")]),
    ];
    let doc = el("html", vec![table(9, vec![row])]);
    let mut sovs: Registry<SovereignState> = Registry::new();
    sovs.push_new(
        Identifier::new("france"),
        SovereignState::new("France".to_string(), "French Republic".to_string(), true, false),
    );
    assert!(matches!(Region::from_html(&doc, &sovs), Err(BuildError::BadField)));
}

#[test]
fn flag_url_prefers_exact_short_name() {
    let img = |alt: &str, src: &str| {
        Node::Element(attr_el("img", vec![("alt", alt), ("src", src)], vec![]))
    };
    let doc = el(
        "html",
        vec![
            img("France in spring", "//up/1.png"),
            img("France", "//up/2.png"),
            img("French Republic", "//up/3.png"),
        ],
    );
    let country = SovereignState::new(
        "France".to_string(),
        "French Republic".to_string(),
        true,
        false,
    );
    let url = Flag::url_from_html(&doc, &country).unwrap();
    assert_eq!(url.as_str(), "//up/2.png");

    let doc2 = el("html", vec![img("France in spring", "//up/1.png")]);
    let url2 = Flag::url_from_html(&doc2, &country).unwrap();
    assert_eq!(url2.as_str(), "//up/1.png");

    let doc3 = el("html", vec![img("Belgium", "//up/9.png")]);
    assert!(Flag::url_from_html(&doc3, &country).is_none());
}

#[test]
fn flag_url_normalization_and_format_check() {
    assert_eq!(Flag::normalize_url("//up/x.png").as_str(), "https://up/x.png");
    assert_eq!(Flag::normalize_url("https://a/b.png").as_str(), "https://a/b.png");
    assert!(Flag::png_named("a/b.png"));
    assert!(!Flag::png_named("a/b.svg"));
    assert!(!Flag::png_named("png"));
    let f = Flag::new(Identifier::new("fr"), "out/fr".to_string());
    assert_eq!(f.sovereignity.as_str(), "fr");
    assert_eq!(f.dir.as_str(), "out/fr");
}
