use tabbycat_sync::categories::{new_category, CategoryKind};
use tabbycat_sync::clash::ConflictList;
use tabbycat_sync::draw::Panel;
use tabbycat_sync::import::{
    InstitutionDraft, JudgeDraft, SpeakerDraft, TeamDraft, VenueDraft, VenueGroup,
};
use tabbycat_sync::json::{merge, merge_onto, put_optional, single, Json};
use tabbycat_sync::payload::{
    availability_payload, break_categories_payload, category_payload, conflicts_payload,
    external_url_payload, institution_payload, judge_payload, patch_adjudicators_in_pairing,
    speaker_payload, team_payload, venue_category_payload, venue_payload,
};

fn text(s: &str) -> Json {
    Json::Text(s.to_string())
}

fn obj(entries: Vec<(&str, Json)>) -> Json {
    Json::Object(entries.into_iter().map(|(k, v)| (k.to_string(), v)).collect())
}

fn list(items: &[&str]) -> Json {
    Json::List(items.iter().map(|s| text(s)).collect())
}

#[test]
fn merge_puts_entries_on_top() {
    let mut a = obj(vec![("a", Json::Int(1)), ("b", text("x"))]);
    merge(&mut a, &obj(vec![("b", text("y")), ("c", Json::Bool(true))]));
    assert_eq!(a, obj(vec![("a", Json::Int(1)), ("b", text("y")), ("c", Json::Bool(true))]));
    // a value that is no object gives way
    let mut b = text("old");
    merge(&mut b, &obj(vec![("k", Json::Null)]));
    assert_eq!(b, obj(vec![("k", Json::Null)]));
    let mut c = obj(vec![("k", Json::Null)]);
    merge(&mut c, &list(&["z"]));
    assert_eq!(c, list(&["z"]));
}

#[test]
fn merge_goes_into_objects() {
    let a = obj(vec![
        ("outer", obj(vec![("keep", Json::Int(1)), ("change", Json::Int(2))])),
        ("plain", text("p")),
    ]);
    let b = obj(vec![
        ("outer", obj(vec![("change", list(&["l"])), ("new", obj(vec![("deep", Json::Null)]))])),
        ("plain", obj(vec![("now", text("object"))])),
        ("outer", obj(vec![("keep", Json::Count(9))])),
    ]);
    assert_eq!(
        merge_onto(a, &b),
        obj(vec![
            (
                "outer",
                obj(vec![
                    ("keep", Json::Count(9)),
                    ("change", list(&["l"])),
                    ("new", obj(vec![("deep", Json::Null)])),
                ])
            ),
            ("plain", obj(vec![("now", text("object"))])),
        ])
    );
    assert_eq!(merge_onto(obj(vec![]), &obj(vec![])), obj(vec![]));
    assert_eq!(single("k", Json::Int(-1)), obj(vec![("k", Json::Int(-1))]));
    let mut p = obj(vec![("a", Json::Null)]);
    put_optional(&mut p, "a", &None);
    assert_eq!(p, obj(vec![("a", Json::Null)]));
    put_optional(&mut p, "a", &Some("t".to_string()));
    assert_eq!(p, obj(vec![("a", text("t"))]));
    assert_eq!(p.copy(), p);
}

#[test]
fn creation_payloads() {
    assert_eq!(
        institution_payload(&InstitutionDraft {
            region: None,
            name: "Acme U".to_string(),
            code: "ACU".to_string()
        }),
        obj(vec![("region", Json::Null), ("name", text("Acme U")), ("code", text("ACU"))])
    );
    assert_eq!(
        venue_payload(&VenueDraft { name: "Room 1".to_string(), priority: -3 }),
        obj(vec![
            ("categories", Json::List(vec![])),
            ("name", text("Room 1")),
            ("priority", Json::Int(-3))
        ])
    );
    assert_eq!(
        venue_category_payload(&VenueGroup {
            name: "north".to_string(),
            venues: vec!["v1".to_string(), "v2".to_string()]
        }),
        obj(vec![
            ("venues", list(&["v1", "v2"])),
            ("name", text("north")),
            ("display_in_venue_name", text("P"))
        ])
    );
    assert_eq!(availability_payload("adj:1"), list(&["adj:1"]));
}

#[test]
fn judge_payload_has_the_base_score_only_where_given() {
    let mut draft = JudgeDraft {
        name: "J. Doe".to_string(),
        institution: Some("inst:1".to_string()),
        institution_conflicts: vec!["inst:2".to_string()],
        email: None,
        independent: true,
        adj_core: false,
        base_score: None,
    };
    let base = vec![
        ("name", text("J. Doe")),
        ("institution", text("inst:1")),
        ("institution_conflicts", list(&["inst:2"])),
        ("email", Json::Null),
        ("team_conflicts", Json::List(vec![])),
        ("adjudicator_conflicts", Json::List(vec![])),
        ("independent", Json::Bool(true)),
        ("adj_core", Json::Bool(false)),
    ];
    assert_eq!(judge_payload(&draft), obj(base.clone()));
    draft.base_score = Some("4.5".to_string());
    let mut with_score = base;
    with_score.push(("base_score", Json::Decimal("4.5".to_string())));
    assert_eq!(judge_payload(&draft), obj(with_score));
}

#[test]
fn category_payloads() {
    assert_eq!(
        category_payload(&new_category("Novice", 2, CategoryKind::Break)),
        obj(vec![
            ("name", text("Novice")),
            ("slug", text("novice")),
            ("seq", Json::Count(3)),
            ("break_size", Json::Count(4)),
            ("is_general", Json::Bool(false)),
            ("priority", Json::Count(1)),
        ])
    );
    assert_eq!(
        category_payload(&new_category("ESL", 0, CategoryKind::Speaker)),
        obj(vec![("name", text("ESL")), ("slug", text("ESL")), ("seq", Json::Count(1))])
    );
}

#[test]
fn team_and_speaker_payloads() {
    let team = TeamDraft {
        institution: None,
        reference: "Acme A".to_string(),
        short_reference: Some("AA".to_string()),
        code_name: None,
        seed: Some(3),
        emoji: None,
        use_institution_prefix: true,
        break_categories: vec!["bc:1".to_string()],
    };
    assert_eq!(
        team_payload(&team),
        obj(vec![
            ("institution", Json::Null),
            ("reference", text("Acme A")),
            ("seed", Json::Int(3)),
            ("emoji", Json::Null),
            ("use_institution_prefix", Json::Bool(true)),
            ("break_categories", list(&["bc:1"])),
            ("short_reference", text("AA")),
        ])
    );
    let speaker = SpeakerDraft {
        name: "Alice".to_string(),
        team: "team:1".to_string(),
        categories: vec![],
        email: Some("a@example.org".to_string()),
        anonymous: false,
        code_name: Some("Panda".to_string()),
        phone: None,
        gender: Some("F".to_string()),
        pronoun: Some("she".to_string()),
    };
    assert_eq!(
        speaker_payload(&speaker),
        obj(vec![
            ("name", text("Alice")),
            ("team", text("team:1")),
            ("categories", Json::List(vec![])),
            ("email", text("a@example.org")),
            ("anonymous", Json::Bool(false)),
            ("code_name", text("Panda")),
            ("gender", text("F")),
            ("pronoun", text("she")),
        ])
    );
}

#[test]
fn patch_payloads() {
    let urls = vec!["u1".to_string(), "u2".to_string()];
    assert_eq!(
        conflicts_payload(ConflictList::Institutions, &urls),
        obj(vec![("institution_conflicts", list(&["u1", "u2"]))])
    );
    assert_eq!(
        conflicts_payload(ConflictList::Adjudicators, &urls),
        obj(vec![("adjudicator_conflicts", list(&["u1", "u2"]))])
    );
    assert_eq!(
        conflicts_payload(ConflictList::Teams, &vec![]),
        obj(vec![("team_conflicts", Json::List(vec![]))])
    );
    assert_eq!(
        break_categories_payload(&urls),
        obj(vec![("break_categories", list(&["u1", "u2"]))])
    );
    assert_eq!(external_url_payload(""), obj(vec![("external_url", text(""))]));
    assert_eq!(
        patch_adjudicators_in_pairing(&Panel {
            chair: None,
            panellists: vec!["a".to_string()],
            trainees: vec![]
        }),
        obj(vec![(
            "adjudicators",
            obj(vec![
                ("chair", Json::Null),
                ("panellists", list(&["a"])),
                ("trainees", Json::List(vec![]))
            ])
        )])
    );
}
