use tabbycat_sync::clear_rooms::{do_clear_room_urls, RoomPatch};
use tabbycat_sync::entities::{Adjudicator, Team, Venue};
use tabbycat_sync::export::{
    csv_record, export, export_feedback_csv, export_feedback_db, join_all, text_of_answer, Answer,
    ExportError, ExportFormat, Feedback, FeedbackAnswer, FeedbackQuestion, NamedRow,
};
use tabbycat_sync::sensible::{do_make_sensible_conflicts, own_conflict, OwnConflict};

fn adj(id: i64, name: &str, institution: Option<&str>, conflicts: &[&str]) -> Adjudicator {
    Adjudicator {
        id,
        url: format!("https://tab.example/api/v1/tournaments/t/adjudicators/{}", id),
        name: name.to_string(),
        institution: institution.map(String::from),
        institution_conflicts: conflicts.iter().map(|c| c.to_string()).collect(),
        team_conflicts: vec!["team:9".to_string()],
        adjudicator_conflicts: vec![],
    }
}

fn squad(id: i64, name: &str, institution: Option<&str>, conflicts: &[&str]) -> Team {
    Team {
        id,
        url: format!("https://tab.example/api/v1/tournaments/t/teams/{}", id),
        long_name: format!("{} long", name),
        short_name: name.to_string(),
        code_name: None,
        institution: institution.map(String::from),
        break_categories: vec![],
        institution_conflicts: conflicts.iter().map(|c| c.to_string()).collect(),
        speakers: vec![],
    }
}

#[test]
fn own_institution_is_added_once() {
    let teams = vec![
        squad(1, "a", Some("i1"), &[]),
        squad(2, "b", Some("i1"), &["i2", "i1"]),
        squad(3, "c", None, &["i2"]),
        squad(4, "d", Some("i3"), &["i2"]),
    ];
    let judges = vec![adj(1, "x", Some("i2"), &["i1"]), adj(2, "y", Some("i2"), &["i2"])];
    let (team_patches, judge_patches) = do_make_sensible_conflicts(&teams, &judges);
    assert_eq!(
        team_patches,
        vec![
            OwnConflict {
                position: 0,
                url: teams[0].url.clone(),
                institution_conflicts: vec!["i1".to_string()]
            },
            OwnConflict {
                position: 3,
                url: teams[3].url.clone(),
                institution_conflicts: vec!["i2".to_string(), "i3".to_string()]
            },
        ]
    );
    assert_eq!(
        judge_patches,
        vec![OwnConflict {
            position: 0,
            url: judges[0].url.clone(),
            institution_conflicts: vec!["i1".to_string(), "i2".to_string()]
        }]
    );
    assert_eq!(own_conflict(&None, &vec![]), None);
    assert_eq!(
        own_conflict(&Some("i".to_string()), &vec![]),
        Some(vec!["i".to_string()])
    );
}

#[test]
fn room_urls_are_cleared() {
    let rooms = vec![Venue { id: 1, url: "v1".to_string() }, Venue { id: 2, url: "v2".to_string() }];
    assert_eq!(
        do_clear_room_urls(&rooms),
        vec![
            RoomPatch { url: "v1".to_string(), external_url: String::new() },
            RoomPatch { url: "v2".to_string(), external_url: String::new() },
        ]
    );
    assert_eq!(do_clear_room_urls(&vec![]), vec![]);
}

fn question(n: u32) -> FeedbackQuestion {
    FeedbackQuestion {
        url: format!("q:{}", n),
        reference: format!("ref{}", n),
        text: format!("Question {}?", n),
    }
}

#[test]
fn export_formats() {
    assert_eq!(export("csv"), Some(ExportFormat::Csv));
    assert_eq!(export("sqlite"), Some(ExportFormat::Sqlite));
    assert_eq!(export("CSV"), None);
    assert_eq!(export("json"), None);
}

#[test]
fn answers_as_text() {
    assert_eq!(text_of_answer(&Answer::Flag(true)), "true");
    assert_eq!(text_of_answer(&Answer::Flag(false)), "false");
    assert_eq!(text_of_answer(&Answer::Number("7.5".to_string())), "7.5");
    assert_eq!(text_of_answer(&Answer::Text("fine".to_string())), "fine");
    assert_eq!(
        text_of_answer(&Answer::Choices(vec!["a".to_string(), "b".to_string(), "c".to_string()])),
        "\"a,b,c\""
    );
    assert_eq!(text_of_answer(&Answer::Choices(vec![])), "\"\"");
    assert_eq!(join_all(&vec!["x".to_string()], ", "), "x");
    assert_eq!(join_all(&vec!["x".to_string(), "".to_string(), "y".to_string()], "-"), "x--y");
}

#[test]
fn feedback_table() {
    let teams = vec![squad(1, "AA", None, &[])];
    let judges = vec![adj(1, "Ann", None, &[]), adj(2, "Ben", None, &[])];
    let questions = vec![question(1), question(2)];
    let feedbacks = vec![
        Feedback {
            source: teams[0].url.clone(),
            adjudicator: judges[0].url.clone(),
            answers: vec![
                FeedbackAnswer { question: "q:2".to_string(), answer: Answer::Flag(true) },
                FeedbackAnswer { question: "q:2".to_string(), answer: Answer::Flag(false) },
            ],
        },
        Feedback {
            source: judges[1].url.clone(),
            adjudicator: judges[0].url.clone(),
            answers: vec![FeedbackAnswer {
                question: "q:1".to_string(),
                answer: Answer::Number("4".to_string()),
            }],
        },
    ];
    let (header, records) = export_feedback_csv(&feedbacks, &teams, &judges, &questions).unwrap();
    assert_eq!(
        header,
        vec!["feedback_id", "source", "source_kind", "target", "question_ref1", "question_ref2"]
    );
    assert_eq!(
        records,
        vec![
            vec!["0", "AA long", "team", "Ann", "", "true"],
            vec!["1", "Ben", "judge", "Ann", "4", ""],
        ]
    );
    assert_eq!(
        csv_record(12, &feedbacks[1], &teams, &judges, &questions).unwrap()[0],
        "12"
    );
    assert_eq!(
        csv_record(1090, &feedbacks[1], &teams, &judges, &questions).unwrap()[0],
        "1090"
    );
}

#[test]
fn feedback_errors() {
    let teams = vec![squad(1, "AA", None, &[])];
    let judges = vec![adj(1, "Ann", None, &[])];
    let good = Feedback {
        source: teams[0].url.clone(),
        adjudicator: judges[0].url.clone(),
        answers: vec![],
    };
    let bad_source = Feedback {
        source: "https://tab.example/teams/77".to_string(),
        adjudicator: "nobody".to_string(),
        answers: vec![],
    };
    let bad_target = Feedback {
        source: judges[0].url.clone(),
        adjudicator: "nobody".to_string(),
        answers: vec![],
    };
    assert_eq!(
        export_feedback_csv(&vec![good.clone(), bad_source, bad_target.clone()], &teams, &judges, &vec![]),
        Err(ExportError::UnknownSource(1))
    );
    assert_eq!(
        export_feedback_csv(&vec![good, bad_target], &teams, &judges, &vec![]),
        Err(ExportError::UnknownTarget(1))
    );
}

#[test]
fn database_rows() {
    let teams = vec![squad(1, "AA", None, &[])];
    let judges = vec![adj(1, "Ann", None, &[])];
    let rows = export_feedback_db(&judges, &teams, &vec![question(3)]);
    assert_eq!(rows.judges, vec![NamedRow { url: judges[0].url.clone(), name: "Ann".to_string() }]);
    assert_eq!(
        rows.teams,
        vec![NamedRow { url: teams[0].url.clone(), name: "AA long".to_string() }]
    );
    assert_eq!(
        rows.questions,
        vec![NamedRow { url: "q:3".to_string(), name: "Question 3?".to_string() }]
    );
}
