use tabbycat_sync::break_eligibility::{
    do_compute_break_eligibility, parse_format, BreakFormat, EligibilityError, TeamBreaks,
};
use tabbycat_sync::entities::{Category, SpeakerRecord, Team};

fn cat(prefix: &str, name: &str) -> Category {
    Category {
        id: 1,
        url: format!("{}:{}", prefix, name.to_lowercase()),
        name: name.to_string(),
        slug: name.to_lowercase(),
        seq: 1,
    }
}

fn squad(name: &str, speakers: &[&[&str]]) -> Team {
    Team {
        id: 1,
        url: format!("team:{}", name),
        long_name: name.to_string(),
        short_name: name.to_string(),
        code_name: None,
        institution: None,
        break_categories: vec![],
        institution_conflicts: vec![],
        speakers: speakers
            .iter()
            .enumerate()
            .map(|(k, cats)| SpeakerRecord {
                id: k as i64,
                url: format!("speaker:{}:{}", name, k),
                name: format!("{} {}", name, k),
                team: format!("team:{}", name),
                url_key: None,
                categories: cats.iter().map(|c| format!("sc:{}", c)).collect(),
            })
            .collect(),
    }
}

fn fixture() -> (Vec<Category>, Vec<Category>) {
    (
        vec![cat("bc", "Open"), cat("bc", "ESL"), cat("bc", "EFL"), cat("bc", "Novice")],
        vec![cat("sc", "esl"), cat("sc", "Efl"), cat("sc", "NOVICE")],
    )
}

fn breaks(team: &str, cats: &[&str]) -> TeamBreaks {
    TeamBreaks {
        team: format!("team:{}", team),
        break_categories: cats.iter().map(|c| format!("bc:{}", c)).collect(),
    }
}

#[test]
fn formats() {
    assert_eq!(parse_format("WSDC"), Some(BreakFormat::Wsdc));
    assert_eq!(parse_format("bp"), Some(BreakFormat::Bp));
    assert_eq!(parse_format("Bp"), Some(BreakFormat::Bp));
    assert_eq!(parse_format(" bp"), None);
    assert_eq!(parse_format("apda"), None);
}

#[test]
fn wsdc_needs_all_but_one() {
    let (bc, sc) = fixture();
    let teams = vec![
        squad("a", &[&["esl"], &["efl"], &[]]),
        squad("b", &[&["novice", "esl"], &["novice"], &["esl"]]),
        squad("c", &[&[]]),
        squad("d", &[&["efl"], &["efl"], &["novice"]]),
        squad("e", &[]),
    ];
    let got = do_compute_break_eligibility("Wsdc", &bc, &sc, &teams).unwrap();
    assert_eq!(
        got,
        vec![
            breaks("a", &["open", "esl"]),
            breaks("b", &["open", "esl", "novice"]),
            breaks("c", &["open", "esl", "efl", "novice"]),
            breaks("d", &["open", "esl", "efl"]),
            breaks("e", &["open", "esl", "efl", "novice"]),
        ]
    );
}

#[test]
fn bp_needs_all() {
    let (bc, sc) = fixture();
    let teams = vec![
        squad("a", &[&["esl"], &["efl"]]),
        squad("b", &[&["novice"], &["novice", "esl"]]),
        squad("c", &[&["esl"], &[]]),
        squad("d", &[&["esl", "efl"], &[]]),
    ];
    let got = do_compute_break_eligibility("bp", &bc, &sc, &teams).unwrap();
    assert_eq!(
        got,
        vec![
            breaks("a", &["open", "esl"]),
            breaks("b", &["open", "novice"]),
            breaks("c", &["open"]),
            breaks("d", &["open", "esl"]),
        ]
    );
    // without a category for English as a foreign language
    let bc2 = vec![cat("bc", "Open"), cat("bc", "ESL")];
    let sc2 = vec![cat("sc", "esl")];
    let teams2 = vec![squad("a", &[&["esl"], &["esl"]]), squad("b", &[&["esl"], &[]])];
    assert_eq!(
        do_compute_break_eligibility("BP", &bc2, &sc2, &teams2).unwrap(),
        vec![breaks("a", &["open", "esl"]), breaks("b", &["open"])]
    );
}

#[test]
fn eligibility_errors_in_order() {
    let (bc, sc) = fixture();
    let teams = vec![squad("a", &[&["esl"]])];
    assert_eq!(
        do_compute_break_eligibility("wsdc", &vec![cat("bc", "ESL")], &sc, &teams),
        Err(EligibilityError::NoOpenCategory)
    );
    assert_eq!(
        do_compute_break_eligibility("nonsense", &bc, &vec![cat("sc", "esl")], &teams),
        Err(EligibilityError::NoSpeakerCategory(2))
    );
    assert_eq!(
        do_compute_break_eligibility(
            "nonsense",
            &bc,
            &sc,
            &vec![squad("a", &[&["esl"]]), squad("b", &[&["esl"], &["stray"]])]
        ),
        Err(EligibilityError::StrayCategory(1))
    );
    assert_eq!(
        do_compute_break_eligibility("nonsense", &bc, &sc, &teams),
        Err(EligibilityError::UnknownFormat)
    );
    assert_eq!(
        do_compute_break_eligibility(
            "wsdc",
            &vec![cat("bc", "Open"), cat("bc", "Novice")],
            &sc,
            &vec![]
        ),
        Err(EligibilityError::NoEslCategory)
    );
    assert_eq!(
        do_compute_break_eligibility(
            "wsdc",
            &vec![cat("bc", "Open"), cat("bc", "ESL")],
            &sc,
            &teams
        ),
        Err(EligibilityError::NoEflCategory)
    );
}

#[test]
fn open_category_is_found_by_part_of_its_name() {
    let bc = vec![cat("bc", "ESL"), cat("bc", "The OPEN break"), cat("bc", "EFL")];
    let sc = vec![cat("sc", "esl"), cat("sc", "efl")];
    let teams = vec![squad("a", &[&[], &[], &[]])];
    assert_eq!(
        do_compute_break_eligibility("wsdc", &bc, &sc, &teams).unwrap(),
        vec![breaks("a", &["the open break"])]
    );
}
