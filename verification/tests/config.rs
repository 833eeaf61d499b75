use tabbycat_sync::api_utils::{
    break_categories_url, get_round, judges_url, pairings_of_round, rounds_url,
    speaker_categories_url, speakers_url, teams_in_debate_url, teams_url, venue_categories_url,
    venues_url,
};
use tabbycat_sync::config::{
    accept_credentials, authorization_header, availabilities_url, credentials_from,
    institutions_url, tournament_url, Auth, CredentialError,
};
use tabbycat_sync::dispatch_req::{json_of_resp, status_is_success, Rejected};
use tabbycat_sync::entities::Round;

fn auth() -> Auth {
    Auth {
        tabbycat_url: "https://tab.example".to_string(),
        tournament_slug: "wudc".to_string(),
        api_key: "secret".to_string(),
    }
}

#[test]
fn credentials_are_normalised() {
    let got = accept_credentials(
        "  https://wudc2025.calicotab.com  ",
        " wudc2025\n",
        "abc123".to_string(),
    );
    assert_eq!(
        got,
        Ok(Auth {
            tabbycat_url: "https://wudc2025.calicotab.com".to_string(),
            tournament_slug: "wudc2025".to_string(),
            api_key: "abc123".to_string(),
        })
    );
    let with_path = accept_credentials("https://tab.example/base//", "t", "k".to_string());
    assert_eq!(with_path.unwrap().tabbycat_url, "https://tab.example/base");
    let shouting = accept_credentials("HTTPS://Tab.Example:443/a/../b", "t", "k".to_string());
    assert_eq!(shouting.unwrap().tabbycat_url, "https://tab.example/b");
}

#[test]
fn credentials_are_refused() {
    assert_eq!(
        accept_credentials("not a url", "t", "k".to_string()),
        Err(CredentialError::InvalidUrl)
    );
    assert_eq!(
        accept_credentials("", "t", "k k".to_string()),
        Err(CredentialError::InvalidUrl)
    );
    assert_eq!(
        accept_credentials("https://tab.example", "t", "k k".to_string()),
        Err(CredentialError::KeyWithWhiteSpace)
    );
    assert_eq!(
        accept_credentials("https://tab.example", "t", "k\u{a0}".to_string()),
        Err(CredentialError::KeyWithWhiteSpace)
    );
    assert_eq!(
        credentials_from(None, "t", "k".to_string(), true),
        Err(CredentialError::InvalidUrl)
    );
    assert_eq!(
        credentials_from(Some("https://x.example///".to_string()), " t ", "k".to_string(), false)
            .unwrap(),
        Auth {
            tabbycat_url: "https://x.example".to_string(),
            tournament_slug: "t".to_string(),
            api_key: "k".to_string()
        }
    );
}

#[test]
fn addresses() {
    let a = auth();
    assert_eq!(institutions_url(&a), "https://tab.example/api/v1/institutions");
    assert_eq!(
        tournament_url(&a, "teams"),
        "https://tab.example/api/v1/tournaments/wudc/teams"
    );
    assert_eq!(teams_url(&a), "https://tab.example/api/v1/tournaments/wudc/teams");
    assert_eq!(rounds_url(&a), "https://tab.example/api/v1/tournaments/wudc/rounds");
    assert_eq!(judges_url(&a), "https://tab.example/api/v1/tournaments/wudc/adjudicators");
    assert_eq!(speakers_url(&a), "https://tab.example/api/v1/tournaments/wudc/speakers");
    assert_eq!(venues_url(&a), "https://tab.example/api/v1/tournaments/wudc/venues");
    assert_eq!(
        venue_categories_url(&a),
        "https://tab.example/api/v1/tournaments/wudc/venue-categories"
    );
    assert_eq!(
        break_categories_url(&a),
        "https://tab.example/api/v1/tournaments/wudc/break-categories"
    );
    assert_eq!(
        speaker_categories_url(&a),
        "https://tab.example/api/v1/tournaments/wudc/speaker-categories"
    );
    assert_eq!(
        teams_in_debate_url(&a),
        "https://tab.example/api/v1/tournaments/wudc/preferences/debate_rules__teams_in_debate"
    );
    assert_eq!(
        availabilities_url(&a, 3),
        "https://tab.example/api/v1/tournaments/wudc/rounds/3/availabilities"
    );
    assert_eq!(
        availabilities_url(&a, -12),
        "https://tab.example/api/v1/tournaments/wudc/rounds/-12/availabilities"
    );
    assert_eq!(
        availabilities_url(&a, 0),
        "https://tab.example/api/v1/tournaments/wudc/rounds/0/availabilities"
    );
    assert_eq!(
        availabilities_url(&a, i64::MIN),
        "https://tab.example/api/v1/tournaments/wudc/rounds/-9223372036854775808/availabilities"
    );
    assert_eq!(
        availabilities_url(&a, 1005),
        "https://tab.example/api/v1/tournaments/wudc/rounds/1005/availabilities"
    );
    assert_eq!(authorization_header("secret"), "Token secret");
}

#[test]
fn rounds_are_found_by_name_or_abbreviation() {
    let rounds = vec![
        Round {
            seq: 1,
            name: "Round 1".to_string(),
            abbreviation: "R1".to_string(),
            pairing_link: "rounds/1/pairings".to_string(),
        },
        Round {
            seq: 2,
            name: "Grand Final".to_string(),
            abbreviation: "GF".to_string(),
            pairing_link: "rounds/2/pairings".to_string(),
        },
    ];
    assert_eq!(get_round("r1", &rounds), Some(0));
    assert_eq!(get_round("grand final", &rounds), Some(1));
    assert_eq!(get_round("gf", &rounds), Some(1));
    assert_eq!(get_round("R3", &rounds), None);
    assert_eq!(get_round(" r1", &rounds), None);
    assert_eq!(pairings_of_round(&rounds[1]), "rounds/2/pairings");
}

#[test]
fn only_success_is_decoded() {
    assert!(status_is_success(200));
    assert!(status_is_success(299));
    assert!(!status_is_success(199));
    assert!(!status_is_success(300));
    assert!(!status_is_success(429));
    assert_eq!(json_of_resp(201, "{}".to_string()), Ok("{}".to_string()));
    assert_eq!(
        json_of_resp(404, "gone".to_string()),
        Err(Rejected { status: 404, body: "gone".to_string() })
    );
}
