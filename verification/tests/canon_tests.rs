use worldfacts::ident::Identifier;
use worldfacts::text::{contains_str, parse_u16_str, split_ws_str, str_eq, trim_str};

#[test]
fn canonical_form_basic() {
    let id = Identifier::new("  United States, of America ");
    assert_eq!(id.as_str(), "united_states");
}

#[test]
fn canonical_form_dashes_and_spaces() {
    let id = Identifier::new("Guinea-Bissau");
    assert_eq!(id.as_str(), "guinea_bissau");
    let id2 = Identifier::new("Sao Tome and Principe");
    assert_eq!(id2.as_str(), "sao_tome_and_principe");
}

#[test]
fn canonical_collision_under_comma_truncation() {
    let a = Identifier::new("Côte d'Ivoire, Republic of");
    let b = Identifier::new("côte d'ivoire");
    assert_eq!(a.as_str(), b.as_str());
    assert_eq!(a.as_str(), "côte_d'ivoire");
}

#[test]
fn canonical_idempotent_on_ordinary_names() {
    let once = Identifier::new("Bosnia and Herzegovina, BiH");
    let twice = Identifier::new(once.as_str());
    assert_eq!(once.as_str(), twice.as_str());
    let once2 = Identifier::new("  New Zealand ");
    let twice2 = Identifier::new(once2.as_str());
    assert_eq!(once2.as_str(), twice2.as_str());
}

#[test]
fn trim_removes_unicode_whitespace() {
    assert_eq!(trim_str("  abc\t\n"), "abc");
    assert_eq!(trim_str("\u{a0}x\u{2028}"), "x");
    assert_eq!(trim_str(""), "");
    assert_eq!(trim_str(" \t "), "");
}

#[test]
fn parse_u16_exact() {
    assert_eq!(parse_u16_str("384"), Some(384));
    assert_eq!(parse_u16_str("0"), Some(0));
    assert_eq!(parse_u16_str("65535"), Some(65535));
    assert_eq!(parse_u16_str("65536"), None);
    assert_eq!(parse_u16_str(""), None);
    assert_eq!(parse_u16_str("12a"), None);
    assert_eq!(parse_u16_str("-1"), None);
}

#[test]
fn string_search_helpers() {
    assert!(contains_str("the un member state", "un member"));
    assert!(!contains_str("the labour party", "un member"));
    assert!(str_eq("abc", "abc"));
    assert!(!str_eq("abc", "abd"));
    let toks = split_ws_str("  French  , German\tItalian ");
    let toks: Vec<&str> = toks.iter().map(|s| s.as_str()).collect();
    assert_eq!(toks, vec!["French", ",", "German", "Italian"]);
}

#[test]
fn identifier_same_compares_keys() {
    let a = Identifier::new("France");
    let b = Identifier::new("  FRANCE ");
    assert!(a.same(&b));
}
