use worldfacts::ident::Identifier;
use worldfacts::retry::{RetryDecision, RetryPolicy};
use worldfacts::region::{region_by_opt, Iso3166_1, Iso3166_2, Region, ResolveError, Tld};
use worldfacts::registry::{AliasTable, Registry};

fn region(name: &str, state_name: &str, a2: &str, a3: &str, num: u16) -> Region {
    Region::new(
        name.to_string(),
        state_name.to_string(),
        Identifier::new(name),
        true,
        Iso3166_1::new(a2.to_string(), a3.to_string(), num).unwrap(),
        Iso3166_2::new(format!("ISO 3166-2:{}", a2)).unwrap(),
        Tld::new(vec![format!(".{}", a2.to_lowercase())]).unwrap(),
    )
}

fn registry_with(entries: Vec<(&str, Region)>) -> Registry<Region> {
    let mut reg: Registry<Region> = Registry::new();
    for (key, r) in entries {
        let id = Identifier::new(key);
        assert!(!reg.contains_key(&id));
        reg.push_new(id, r);
    }
    reg
}

#[test]
fn resolves_by_short_name() {
    let reg = registry_with(vec![
        ("ci", region("Ivory Coast", "Republic of Côte d'Ivoire", "CI", "CIV", 384)),
        ("fr", region("France", "French Republic", "FR", "FRA", 250)),
    ]);
    let first = "Ivory Coast".to_string();
    let got = region_by_opt(&reg, None, Some(&first), None).unwrap();
    assert_eq!(got.0.as_str(), "ci");
    assert_eq!(got.1.name.as_str(), "Ivory Coast");
}

#[test]
fn resolves_by_official_name_case_insensitively() {
    let reg = registry_with(vec![(
        "ci",
        region("Ivory Coast", "Republic of Côte d'Ivoire", "CI", "CIV", 384),
    )]);
    let first = "  republic of côte d'ivoire ".to_string();
    let got = region_by_opt(&reg, None, Some(&first), None).unwrap();
    assert_eq!(got.0.as_str(), "ci");
}

#[test]
fn falls_back_to_second_candidate_then_alias_table() {
    let reg = registry_with(vec![(
        "de",
        region("Germany", "Federal Republic of Germany", "DE", "DEU", 276),
    )]);
    let miss = "Nowhere".to_string();
    let hit = "germany".to_string();
    let got = region_by_opt(&reg, None, Some(&miss), Some(&hit)).unwrap();
    assert_eq!(got.0.as_str(), "de");

    let mut aliases = AliasTable::new();
    aliases.items.push((
        Identifier::new("de"),
        vec!["Deutschland".to_string(), "Alemania".to_string()],
    ));
    let nick = "deutschland".to_string();
    let got2 = region_by_opt(&reg, Some(&aliases), Some(&nick), None).unwrap();
    assert_eq!(got2.0.as_str(), "de");
}

#[test]
fn unknown_name_is_not_found() {
    let reg = registry_with(vec![(
        "de",
        region("Germany", "Federal Republic of Germany", "DE", "DEU", 276),
    )]);
    let miss = "Atlantis".to_string();
    assert!(matches!(
        region_by_opt(&reg, None, Some(&miss), None),
        Err(ResolveError::NotFound)
    ));
}

#[test]
fn no_candidates_is_invalid_arguments() {
    let reg = registry_with(vec![(
        "de",
        region("Germany", "Federal Republic of Germany", "DE", "DEU", 276),
    )]);
    assert!(matches!(
        region_by_opt(&reg, None, None, None),
        Err(ResolveError::InvalidArguments)
    ));
}

#[test]
fn field_invariants_are_enforced() {
    assert!(Iso3166_1::new("C".to_string(), "CIV".to_string(), 384).is_err());
    assert!(Iso3166_1::new("CI".to_string(), "CIVX".to_string(), 384).is_err());
    assert!(Iso3166_1::new("CI".to_string(), "CIV".to_string(), 1000).is_err());
    assert!(Iso3166_1::new("CI".to_string(), "CIV".to_string(), 384).is_ok());

    assert!(Iso3166_2::new(" iso 3166-2:ci ".to_string()).is_ok());
    assert!(Iso3166_2::new("ISO 3166-2:CIV".to_string()).is_err());
    assert!(Iso3166_2::new("3166-2:CI".to_string()).is_err());

    let ok = Tld::new(vec![" .CI ".to_string(), ".fr".to_string()]).unwrap();
    assert_eq!(ok.0[0].as_str(), ".ci");
    assert_eq!(ok.0[1].as_str(), ".fr");
    assert!(Tld::new(vec!["ci".to_string()]).is_err());
    assert!(Tld::new(vec![".com".to_string()]).is_err());
    // The list itself must be non-empty.
    assert!(Tld::new(vec![]).is_err());
}

#[test]
fn retry_policy_decides_by_attempt_ceiling() {
    let p = RetryPolicy::new(5, 500);
    assert!(matches!(p.after_failure(1), RetryDecision::Retry { delay_ms: 500 }));
    assert!(matches!(p.after_failure(4), RetryDecision::Retry { delay_ms: 500 }));
    assert!(matches!(p.after_failure(5), RetryDecision::GiveUp));
}
