use tabbycat_sync::entities::{Adjudicator, Institution, SpeakerRecord};
use tabbycat_sync::resolve::{
    find_institution, find_institution_folded, find_judge, find_speaker, first_by_name_or_key,
    first_equal, first_equal_ignoring_case, first_equal_in_either, resolve_team_institution,
};

fn strings(items: &[&str]) -> Vec<String> {
    items.iter().map(|s| s.to_string()).collect()
}

#[test]
fn first_text_is_found() {
    let list = strings(&["b", "a", "B", "a"]);
    assert_eq!(first_equal(&list, "a"), Some(1));
    assert_eq!(first_equal(&list, "B"), Some(2));
    assert_eq!(first_equal(&list, "c"), None);
    assert_eq!(first_equal(&vec![], "a"), None);
    assert_eq!(first_equal_ignoring_case(&list, "B"), Some(0));
    assert_eq!(first_equal_ignoring_case(&list, "A"), Some(1));
    assert_eq!(first_equal_ignoring_case(&list, "ä"), None);
}

#[test]
fn first_pair_is_found() {
    let pairs = vec![
        ("acme u".to_string(), "acu".to_string()),
        ("beta".to_string(), "acme u".to_string()),
    ];
    assert_eq!(first_equal_in_either(&pairs, "acme u"), Some(0));
    assert_eq!(first_equal_in_either(&pairs, "beta"), Some(1));
    assert_eq!(first_equal_in_either(&pairs, "acu"), Some(0));
    assert_eq!(first_equal_in_either(&pairs, "ACU"), None);
    let records = vec![
        ("Alice".to_string(), None),
        ("Bob".to_string(), Some("k1".to_string())),
        ("Carol".to_string(), Some("k2".to_string())),
    ];
    assert_eq!(first_by_name_or_key(&records, "Carol", &Some("k1".to_string())), Some(1));
    assert_eq!(first_by_name_or_key(&records, "Carol", &None), Some(2));
    assert_eq!(first_by_name_or_key(&records, "Dan", &None), None);
    assert_eq!(first_by_name_or_key(&records, "Dan", &Some("k2".to_string())), Some(2));
}

fn inst(name: &str, code: &str) -> Institution {
    Institution { id: 1, url: code.to_string(), name: name.to_string(), code: code.to_string(), region: None }
}

#[test]
fn institutions_are_found() {
    let insts = vec![inst("Acme U", "ACU"), inst("Beta College", "BC"), inst("BC", "X")];
    assert_eq!(find_institution(&insts, "BC", "BC"), Some(1));
    assert_eq!(find_institution(&insts, "BC", "nothing"), Some(2));
    assert_eq!(find_institution(&insts, "bc", "bc"), None);
    assert_eq!(find_institution_folded(&insts, "bc"), Some(1));
    assert_eq!(find_institution_folded(&insts, "BC"), None);
    assert_eq!(resolve_team_institution(&Some("ACME u".to_string()), &insts), Some(0));
    assert_eq!(resolve_team_institution(&Some("ÄCME".to_string()), &insts), None);
    assert_eq!(resolve_team_institution(&None, &insts), None);
}

#[test]
fn judges_and_speakers_are_found() {
    let judges = vec![
        Adjudicator {
            id: 1,
            url: "j1".to_string(),
            name: " Ann Lee ".to_string(),
            institution: None,
            institution_conflicts: vec![],
            team_conflicts: vec![],
            adjudicator_conflicts: vec![],
        },
    ];
    assert_eq!(find_judge(&judges, "ann lee"), Some(0));
    assert_eq!(find_judge(&judges, " ann lee"), None);
    assert_eq!(find_judge(&judges, "ann"), None);
    let speakers = vec![SpeakerRecord {
        id: 1,
        url: "s1".to_string(),
        name: "\tBob \n".to_string(),
        team: "t".to_string(),
        url_key: None,
        categories: vec![],
    }];
    assert_eq!(find_speaker(&speakers, "Bob", &Some("k".to_string())), Some(0));
    assert_eq!(find_speaker(&speakers, "bob", &None), None);
}
