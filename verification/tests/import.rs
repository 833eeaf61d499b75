use tabbycat_sync::categories::{materialize, CategoryKind, CategoryStep};
use tabbycat_sync::entities::{Adjudicator, Category, Institution, Round, SpeakerRecord, Team};
use tabbycat_sync::import::TaskBatch;
use tabbycat_sync::import::{
    add_venue, availability_marks, availability_method, next_phase, plan_institution, plan_judge,
    plan_team, replace_team, rows_run_concurrently, speaker_draft, speaker_is_new, team_draft,
    venue_draft, Baseline, DeletionStage, ImportError, Method, Overwrite, Phase, TeamStep,
    VenueGroup,
};
use tabbycat_sync::resolve::{resolve_team, team_keys};
use tabbycat_sync::rows::{InstitutionRow, JudgeRow, RoomRow, Speaker, TeamRow};

fn institution(id: i64, name: &str, code: &str) -> Institution {
    Institution {
        id,
        url: format!("https://tab.example/api/v1/institutions/{}", id),
        name: name.to_string(),
        code: code.to_string(),
        region: None,
    }
}

fn team(id: i64, long_name: &str, short_name: &str) -> Team {
    Team {
        id,
        url: format!("https://tab.example/api/v1/tournaments/t/teams/{}", id),
        long_name: long_name.to_string(),
        short_name: short_name.to_string(),
        code_name: Some(format!("code {}", id)),
        institution: None,
        break_categories: vec![],
        institution_conflicts: vec![],
        speakers: vec![],
    }
}

fn judge(id: i64, name: &str) -> Adjudicator {
    Adjudicator {
        id,
        url: format!("https://tab.example/api/v1/tournaments/t/adjudicators/{}", id),
        name: name.to_string(),
        institution: None,
        institution_conflicts: vec![],
        team_conflicts: vec![],
        adjudicator_conflicts: vec![],
    }
}

fn team_row(full_name: &str) -> TeamRow {
    TeamRow {
        full_name: full_name.to_string(),
        short_name: None,
        categories: vec![],
        code_name: None,
        institution: None,
        seed: None,
        emoji: None,
        use_institution_prefix: false,
        speakers: vec![],
    }
}

fn speaker_row(name: &str) -> Speaker {
    Speaker {
        name: name.to_string(),
        categories: vec![],
        email: None,
        phone: None,
        anonymous: false,
        code_name: None,
        url_key: None,
        gender: None,
        pronoun: None,
    }
}

fn judge_row(name: &str, institution: Option<&str>) -> JudgeRow {
    JudgeRow {
        name: name.to_string(),
        institution: institution.map(|s| s.to_string()),
        institution_clashes: vec![],
        email: None,
        is_ca: false,
        is_ia: false,
        base_score: None,
        availability: vec![],
    }
}

#[test]
fn institution_is_created_once() {
    let row = InstitutionRow {
        region: Some("Oceania".to_string()),
        short_code: "ACU".to_string(),
        full_name: "Acme U".to_string(),
    };
    let mut cache: Vec<Institution> = vec![];
    let draft = plan_institution(&row, &cache).expect("a new institution");
    assert_eq!(draft.name, "Acme U");
    assert_eq!(draft.code, "ACU");
    assert_eq!(draft.region, Some("Oceania".to_string()));
    cache.push(institution(1, &draft.name, &draft.code));
    assert_eq!(plan_institution(&row, &cache), None);
}

#[test]
fn institution_matches_by_name_or_code() {
    let cache = vec![institution(1, "Acme U", "ACU"), institution(2, "Beta College", "BC")];
    let by_code = InstitutionRow {
        region: None,
        short_code: "BC".to_string(),
        full_name: "Something else".to_string(),
    };
    assert_eq!(plan_institution(&by_code, &cache), None);
    let by_name = InstitutionRow {
        region: None,
        short_code: "XX".to_string(),
        full_name: "Acme U".to_string(),
    };
    assert_eq!(plan_institution(&by_name, &cache), None);
    let case_differs = InstitutionRow {
        region: None,
        short_code: "acu".to_string(),
        full_name: "acme u".to_string(),
    };
    assert!(plan_institution(&case_differs, &cache).is_some());
}

#[test]
fn end_to_end_scenario() {
    let mut base = Baseline {
        institutions: vec![],
        teams: vec![],
        speakers: vec![],
        judges: vec![],
        break_categories: vec![],
        speaker_categories: vec![],
        rounds: vec![],
    };
    let inst_row = InstitutionRow {
        region: None,
        short_code: "ACU".to_string(),
        full_name: "Acme U".to_string(),
    };
    let draft = plan_institution(&inst_row, &base.institutions).expect("new institution");
    base.institutions.push(institution(7, &draft.name, &draft.code));

    let j_row = judge_row("J. Doe", Some("Acme U"));
    let j_draft = plan_judge(&j_row, &base.judges, &base.institutions)
        .expect("institution is known")
        .expect("new judge");
    assert_eq!(j_draft.institution, Some(base.institutions[0].url.clone()));
    let mut created = judge(3, &j_draft.name);
    created.institution = j_draft.institution.clone();
    base.judges.push(created);

    let mut t_row = team_row("Acme A");
    t_row.speakers = vec![speaker_row("Alice"), speaker_row("Bob")];
    let step = plan_team(&t_row, &base.teams, &base.institutions, false).expect("no error");
    assert_eq!(step, TeamStep::Create(None));
    let t_draft = team_draft(&t_row, None, vec![], false);
    assert_eq!(t_draft.reference, "Acme A");
    let mut new_team = team(11, "Acme A", "Acme A");
    base.teams.push(new_team.clone());
    let team_url = new_team.url.clone();

    for (k, s) in t_row.speakers.iter().enumerate() {
        assert!(speaker_is_new(s, &base.speakers));
        let d = speaker_draft(s, team_url.clone(), vec![]);
        assert_eq!(d.team, team_url);
        let rec = SpeakerRecord {
            id: 100 + k as i64,
            url: format!("https://tab.example/api/v1/tournaments/t/speakers/{}", k),
            name: d.name.clone(),
            team: d.team.clone(),
            url_key: None,
            categories: vec![],
        };
        base.speakers.push(rec.clone());
        new_team.speakers.push(rec);
        assert!(replace_team(&mut base.teams, new_team.clone()));
    }

    assert_eq!(base.institutions.len(), 1);
    assert_eq!(base.judges.len(), 1);
    assert_eq!(base.judges[0].institution, Some(base.institutions[0].url.clone()));
    assert_eq!(base.teams.len(), 1);
    assert_eq!(base.speakers.len(), 2);
    assert_eq!(base.teams[0].speakers.len(), 2);
    assert!(base.speakers.iter().all(|s| s.team == base.teams[0].url));

    // a second run over the same rows creates nothing
    assert_eq!(plan_institution(&inst_row, &base.institutions), None);
    assert_eq!(plan_judge(&j_row, &base.judges, &base.institutions), Ok(None));
    assert_eq!(
        plan_team(&t_row, &base.teams, &base.institutions, false),
        Ok(TeamStep::Existing(0))
    );
    for s in t_row.speakers.iter() {
        assert!(!speaker_is_new(s, &base.speakers));
    }
}

#[test]
fn matching_precedence_long_name_wins() {
    // the short name matches the first team, the long name the second
    let teams = vec![team(1, "Other long", "Shorty"), team(2, "Acme A", "AA")];
    let mut row = team_row("Acme A");
    row.short_name = Some("Shorty".to_string());
    assert_eq!(resolve_team(&row, &teams, &vec![], false), Some(1));
    // without the long-name match the short name decides
    let mut row2 = team_row("Nobody");
    row2.short_name = Some("Shorty".to_string());
    assert_eq!(resolve_team(&row2, &teams, &vec![], false), Some(0));
    // and then the code name
    let mut row3 = team_row("Nobody");
    row3.code_name = Some("  code 2 ".to_string());
    assert_eq!(resolve_team(&row3, &teams, &vec![], false), Some(1));
    let mut row4 = team_row("Nobody");
    row4.code_name = Some("unknown".to_string());
    assert_eq!(resolve_team(&row4, &teams, &vec![], false), None);
}

#[test]
fn team_keys_carry_the_institution_prefix() {
    let inst = institution(1, "Acme U", "ACU");
    let mut row = team_row("  A  ");
    row.short_name = Some(" ACU A ".to_string());
    let plain = team_keys(&row, Some(&inst), false);
    assert_eq!(plain.long_name, "A");
    assert_eq!(plain.short_prefix, "");
    assert_eq!(plain.short_name, Some("ACU A".to_string()));
    let prefixed = team_keys(&row, Some(&inst), true);
    assert_eq!(prefixed.long_name, "Acme U A");
    assert_eq!(prefixed.short_prefix, "ACU ");
    row.use_institution_prefix = true;
    let by_row = team_keys(&row, Some(&inst), false);
    assert_eq!(by_row.long_name, "Acme U A");
    let none = team_keys(&row, None, true);
    assert_eq!(none.long_name, "A");
}

#[test]
fn team_with_prefix_is_found_again() {
    let insts = vec![institution(1, "Acme U", "ACU")];
    let teams = vec![team(5, "Acme U A", "A")];
    let mut row = team_row("A");
    row.institution = Some("acme u".to_string());
    row.use_institution_prefix = true;
    assert_eq!(plan_team(&row, &teams, &insts, false), Ok(TeamStep::Existing(0)));
    let mut short = team_row("Zed");
    short.institution = Some("ACU".to_string());
    short.short_name = Some("ACU A".to_string());
    assert_eq!(plan_team(&short, &teams, &insts, true), Ok(TeamStep::Existing(0)));
}

#[test]
fn team_errors() {
    let insts = vec![institution(1, "Acme U", "ACU")];
    let teams: Vec<Team> = vec![team(1, "X", "X")];
    let mut row = team_row("New team");
    row.institution = Some("Nowhere".to_string());
    assert_eq!(
        plan_team(&row, &teams, &insts, false),
        Err(ImportError::UnknownInstitution("Nowhere".to_string()))
    );
    let mut row2 = team_row("New team");
    row2.institution = Some("ACU".to_string());
    row2.categories = vec!["open".to_string(), "".to_string()];
    assert_eq!(plan_team(&row2, &teams, &insts, false), Err(ImportError::EmptyCategory));
    row2.categories = vec!["open".to_string()];
    assert_eq!(plan_team(&row2, &teams, &insts, false), Ok(TeamStep::Create(Some(0))));
    let d = team_draft(&row2, Some(insts[0].url.clone()), vec!["u1".to_string()], true);
    assert!(d.use_institution_prefix);
    assert_eq!(d.institution, Some(insts[0].url.clone()));
    assert_eq!(d.break_categories, vec!["u1".to_string()]);
    assert_eq!(d.short_reference, None);
}

#[test]
fn judge_plan() {
    let insts = vec![
        institution(1, "Acme U", "ACU"),
        institution(2, "Beta College", "BC"),
        institution(3, "Gamma", "GA"),
    ];
    let judges = vec![judge(1, "Old Hand")];
    let mut row = judge_row("  old hand ", None);
    assert_eq!(plan_judge(&row, &judges, &insts), Ok(None));
    row.name = "New Judge".to_string();
    row.institution = Some("BC".to_string());
    row.institution_clashes = vec!["Gamma".to_string(), "ACU".to_string(), "none".to_string()];
    row.is_ca = true;
    row.base_score = Some("4.5".to_string());
    let d = plan_judge(&row, &judges, &insts).unwrap().unwrap();
    assert_eq!(d.name, "New Judge");
    assert_eq!(d.institution, Some(insts[1].url.clone()));
    assert_eq!(d.institution_conflicts, vec![insts[0].url.clone(), insts[2].url.clone()]);
    assert!(d.adj_core);
    assert!(!d.independent);
    assert_eq!(d.base_score, Some("4.5".to_string()));
    row.institution = Some("bc".to_string());
    assert_eq!(
        plan_judge(&row, &judges, &insts),
        Err(ImportError::UnknownInstitution("bc".to_string()))
    );
}

#[test]
fn availability() {
    let rounds = vec![
        Round { seq: 1, name: "Round 1".to_string(), abbreviation: "R1".to_string(), pairing_link: String::new() },
        Round { seq: 2, name: "Round 2".to_string(), abbreviation: "R2".to_string(), pairing_link: String::new() },
        Round { seq: 3, name: "Final".to_string(), abbreviation: "GF".to_string(), pairing_link: String::new() },
    ];
    let tags = vec!["r1".to_string(), "FINAL".to_string()];
    let marks = availability_marks(&tags, &rounds);
    assert_eq!(marks.len(), 3);
    assert_eq!((marks[0].round_seq, marks[0].available), (1, true));
    assert_eq!((marks[1].round_seq, marks[1].available), (2, false));
    assert_eq!((marks[2].round_seq, marks[2].available), (3, true));
    assert_eq!(availability_method(true), Method::Put);
    assert_eq!(availability_method(false), Method::Post);
}

#[test]
fn speakers_are_matched_across_teams() {
    let known = vec![SpeakerRecord {
        id: 1,
        url: "u".to_string(),
        name: "Alice ".to_string(),
        team: "some other team".to_string(),
        url_key: Some("k1".to_string()),
        categories: vec![],
    }];
    assert!(!speaker_is_new(&speaker_row(" Alice"), &known));
    assert!(speaker_is_new(&speaker_row("alice"), &known));
    let mut by_key = speaker_row("Somebody");
    by_key.url_key = Some("k1".to_string());
    assert!(!speaker_is_new(&by_key, &known));
    by_key.url_key = Some("k2".to_string());
    assert!(speaker_is_new(&by_key, &known));
}

#[test]
fn venues_are_grouped_by_category() {
    let row = RoomRow {
        categories: vec!["north".to_string(), "step-free".to_string()],
        external_url: None,
        barcode: None,
        name: "Room 1".to_string(),
        priority: 10,
    };
    let d = venue_draft(&row);
    assert_eq!((d.name.as_str(), d.priority), ("Room 1", 10));
    let mut groups: Vec<VenueGroup> = vec![];
    add_venue(&mut groups, &row.categories, "v1");
    add_venue(&mut groups, &vec!["step-free".to_string()], "v2");
    add_venue(&mut groups, &vec!["North".to_string()], "v3");
    assert_eq!(
        groups,
        vec![
            VenueGroup { name: "north".to_string(), venues: vec!["v1".to_string()] },
            VenueGroup {
                name: "step-free".to_string(),
                venues: vec!["v1".to_string(), "v2".to_string()]
            },
            VenueGroup { name: "North".to_string(), venues: vec!["v3".to_string()] },
        ]
    );
}

#[test]
fn phases_follow_in_order() {
    let mut phase = Phase::Idle;
    let mut seen = vec![phase];
    while phase != Phase::Done {
        phase = next_phase(phase, true, true);
        seen.push(phase);
    }
    assert_eq!(
        seen,
        vec![
            Phase::Idle,
            Phase::FetchingBaseline,
            Phase::Overwriting,
            Phase::ImportingInstitutions,
            Phase::ImportingRooms,
            Phase::ImportingJudges,
            Phase::ImportingTeams,
            Phase::ImportingClashes,
            Phase::Done
        ]
    );
    assert_eq!(next_phase(Phase::FetchingBaseline, false, true), Phase::ImportingInstitutions);
    assert_eq!(next_phase(Phase::ImportingJudges, false, false), Phase::Aborted);
    assert_eq!(next_phase(Phase::Aborted, false, true), Phase::Aborted);
    assert_eq!(next_phase(Phase::Done, false, false), Phase::Done);
    assert!(rows_run_concurrently(Phase::ImportingJudges));
    assert!(rows_run_concurrently(Phase::ImportingTeams));
    assert!(!rows_run_concurrently(Phase::ImportingInstitutions));
    assert!(!rows_run_concurrently(Phase::ImportingClashes));
}

#[test]
fn overwrite_deletes_in_order() {
    let mut o = Overwrite::begin(2, 1, 0);
    assert_eq!(o.release(), Some(DeletionStage::Judges));
    assert_eq!(o.release(), None);
    assert!(!o.completed(DeletionStage::Teams));
    assert!(o.completed(DeletionStage::Judges));
    assert_eq!(o.release(), None);
    assert!(o.completed(DeletionStage::Judges));
    assert!(!o.completed(DeletionStage::Judges));
    assert_eq!(o.release(), Some(DeletionStage::Teams));
    assert_eq!(o.release(), None);
    assert!(o.completed(DeletionStage::Teams));
    assert!(!o.is_finished());
    assert_eq!(o.release(), Some(DeletionStage::Institutions));
    assert!(o.is_finished());
    assert_eq!(o.release(), None);
    assert!(o.is_well_formed());
    let mut out_of_order = Overwrite::begin(1, 1, 1);
    out_of_order.teams.released = true;
    assert!(!out_of_order.is_well_formed());
}

#[test]
fn overwrite_forgets_what_was_deleted() {
    let mut base = Baseline {
        institutions: vec![institution(1, "A", "a")],
        teams: vec![team(1, "T", "t")],
        speakers: vec![],
        judges: vec![judge(1, "J")],
        break_categories: vec![Category {
            id: 1,
            url: "c".to_string(),
            name: "Open".to_string(),
            slug: "open".to_string(),
            seq: 1,
        }],
        speaker_categories: vec![],
        rounds: vec![],
    };
    assert_eq!(
        tabbycat_sync::import::deletion_urls(&base, DeletionStage::Judges),
        vec![base.judges[0].url.clone()]
    );
    assert_eq!(
        tabbycat_sync::import::deletion_urls(&base, DeletionStage::Teams),
        vec![base.teams[0].url.clone()]
    );
    assert_eq!(
        tabbycat_sync::import::deletion_urls(&base, DeletionStage::Institutions),
        vec![base.institutions[0].url.clone()]
    );
    base.forget_deleted();
    assert!(base.institutions.is_empty() && base.teams.is_empty() && base.judges.is_empty());
    assert_eq!(base.break_categories.len(), 1);
}

#[test]
fn category_is_materialized_once() {
    let mut cache: Vec<Category> = vec![Category {
        id: 1,
        url: "c1".to_string(),
        name: "Open".to_string(),
        slug: "open".to_string(),
        seq: 1,
    }];
    assert_eq!(materialize(" OPEN ", &cache, CategoryKind::Break), CategoryStep::Known(0));
    let step = materialize(" Novice", &cache, CategoryKind::Break);
    let req = match step {
        CategoryStep::Create(req) => req,
        CategoryStep::Known(_) => panic!("the category is not known"),
    };
    assert_eq!(req.name, "Novice");
    assert_eq!(req.slug, "novice");
    assert_eq!(req.seq, 2);
    assert_eq!(req.break_size, Some(4));
    assert_eq!(req.is_general, Some(false));
    assert_eq!(req.priority, Some(1));
    cache.push(Category { id: 2, url: "c2".to_string(), name: req.name, slug: req.slug, seq: 2 });
    assert_eq!(materialize("novice  ", &cache, CategoryKind::Break), CategoryStep::Known(1));
    assert_eq!(materialize("NOVICE", &cache, CategoryKind::Speaker), CategoryStep::Known(1));
    match materialize(" ESL ", &cache, CategoryKind::Speaker) {
        CategoryStep::Create(req) => {
            assert_eq!((req.name.as_str(), req.slug.as_str(), req.seq), ("ESL", "ESL", 3));
            assert_eq!(req.break_size, None);
            assert_eq!(req.is_general, None);
            assert_eq!(req.priority, None);
        }
        CategoryStep::Known(_) => panic!("the category is not known"),
    }
}

#[test]
fn batch_ends_when_every_row_has_ended() {
    let mut batch = TaskBatch::started(3);
    assert_eq!(batch.outcome(), None);
    batch.finished(true);
    batch.finished(false);
    assert_eq!(batch.outcome(), None);
    batch.finished(true);
    assert_eq!(batch.outcome(), Some(false));
    batch.finished(false);
    assert_eq!(batch, TaskBatch { in_flight: 0, failed: 1 });
    let mut fine = TaskBatch::started(1);
    fine.finished(true);
    assert_eq!(fine.outcome(), Some(true));
    assert_eq!(TaskBatch::started(0).outcome(), Some(true));
}
