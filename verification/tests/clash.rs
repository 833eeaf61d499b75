use tabbycat_sync::clash::{
    add_clash, find_party, is_self_clash, ClashError, ClashStep, ConflictList, Party, Target,
};
use tabbycat_sync::entities::{Adjudicator, Institution, SpeakerRecord, Team};
use tabbycat_sync::import::replace_judge;
use tabbycat_sync::rows::Clash;

fn inst(name: &str, code: &str) -> Institution {
    Institution {
        id: 1,
        url: format!("inst:{}", code),
        name: name.to_string(),
        code: code.to_string(),
        region: None,
    }
}

fn adj(name: &str) -> Adjudicator {
    Adjudicator {
        id: 1,
        url: format!("adj:{}", name),
        name: name.to_string(),
        institution: None,
        institution_conflicts: vec![],
        team_conflicts: vec![],
        adjudicator_conflicts: vec![],
    }
}

fn squad(long_name: &str, short_name: &str, speakers: &[&str]) -> Team {
    Team {
        id: 1,
        url: format!("team:{}", short_name),
        long_name: long_name.to_string(),
        short_name: short_name.to_string(),
        code_name: None,
        institution: None,
        break_categories: vec![],
        institution_conflicts: vec![],
        speakers: speakers
            .iter()
            .map(|n| SpeakerRecord {
                id: 1,
                url: format!("speaker:{}", n),
                name: n.to_string(),
                team: format!("team:{}", short_name),
                url_key: None,
                categories: vec![],
            })
            .collect(),
    }
}

fn clash(a: &str, b: &str) -> Clash {
    Clash { object_1: a.to_string(), object_2: b.to_string() }
}

fn fixture() -> (Vec<Team>, Vec<Adjudicator>, Vec<Institution>) {
    (
        vec![squad("Acme A", "TeamA", &["Alice", "Bob"]), squad("Beta B", "TeamB", &["Carol"])],
        vec![adj("J. Doe"), adj("R. Roe")],
        vec![inst("Institute X", "InstX"), inst("Institute Y", "InstY")],
    )
}

#[test]
fn clash_type_rejection() {
    let (teams, judges, insts) = fixture();
    assert_eq!(
        add_clash(&clash("TeamA", "TeamB"), &teams, &judges, &insts),
        Err(ClashError::TeamAgainstTeam)
    );
    assert_eq!(
        add_clash(&clash("InstX", "InstY"), &teams, &judges, &insts),
        Err(ClashError::InstitutionAgainstInstitution)
    );
    // a speaker stands for the team
    assert_eq!(
        add_clash(&clash("alice", "Carol"), &teams, &judges, &insts),
        Err(ClashError::TeamAgainstTeam)
    );
}

#[test]
fn clash_keys_resolve_in_order() {
    let (mut teams, mut judges, insts) = fixture();
    assert_eq!(find_party("instx", &teams, &judges, &insts), Some(Party::Institution(0)));
    assert_eq!(find_party("INSTITUTE Y", &teams, &judges, &insts), Some(Party::Institution(1)));
    assert_eq!(find_party("r. roe", &teams, &judges, &insts), Some(Party::Judge(1)));
    assert_eq!(find_party("beta b", &teams, &judges, &insts), Some(Party::Team(1)));
    assert_eq!(find_party("bob", &teams, &judges, &insts), Some(Party::Team(0)));
    assert_eq!(find_party("nobody", &teams, &judges, &insts), None);
    // an institution wins over a judge, a judge over a team
    judges.push(adj("InstX"));
    assert_eq!(find_party("InstX", &teams, &judges, &insts), Some(Party::Institution(0)));
    teams.push(squad("J. Doe", "JD", &[]));
    assert_eq!(find_party("J. Doe", &teams, &judges, &insts), Some(Party::Judge(0)));
    // a team's own name wins over another team's speaker
    teams.insert(0, squad("Zed", "Z", &["TeamB"]));
    assert_eq!(find_party("TeamB", &teams, &judges, &insts), Some(Party::Team(2)));
}

#[test]
fn clash_unresolved_names_the_key() {
    let (teams, judges, insts) = fixture();
    assert_eq!(
        add_clash(&clash("ghost", "also ghost"), &teams, &judges, &insts),
        Err(ClashError::Unresolved("ghost".to_string()))
    );
    assert_eq!(
        add_clash(&clash("J. Doe", "phantom"), &teams, &judges, &insts),
        Err(ClashError::Unresolved("phantom".to_string()))
    );
}

#[test]
fn clash_patches_append() {
    let (mut teams, mut judges, insts) = fixture();
    judges[0].institution_conflicts = vec!["inst:other".to_string()];
    let step = add_clash(&clash("InstY", "j. doe"), &teams, &judges, &insts).unwrap();
    assert_eq!(
        step,
        ClashStep::Patch {
            target: Target::Judge(0),
            url: "adj:J. Doe".to_string(),
            list: ConflictList::Institutions,
            conflicts: vec!["inst:other".to_string(), "inst:InstY".to_string()],
        }
    );
    // the service answers with the patched judge
    let mut patched = judges[0].clone();
    patched.institution_conflicts = vec!["inst:other".to_string(), "inst:InstY".to_string()];
    assert!(replace_judge(&mut judges, patched));
    assert_eq!(
        add_clash(&clash("J. Doe", "InstY"), &teams, &judges, &insts),
        Ok(ClashStep::AlreadyPresent)
    );

    assert_eq!(
        add_clash(&clash("TeamA", "InstX"), &teams, &judges, &insts),
        Ok(ClashStep::Patch {
            target: Target::Team(0),
            url: "team:TeamA".to_string(),
            list: ConflictList::Institutions,
            conflicts: vec!["inst:InstX".to_string()],
        })
    );
    teams[0].institution_conflicts.push("inst:InstX".to_string());
    assert_eq!(
        add_clash(&clash("InstX", "Alice"), &teams, &judges, &insts),
        Ok(ClashStep::AlreadyPresent)
    );
    assert_eq!(
        add_clash(&clash("R. Roe", "J. Doe"), &teams, &judges, &insts),
        Ok(ClashStep::Patch {
            target: Target::Judge(1),
            url: "adj:R. Roe".to_string(),
            list: ConflictList::Adjudicators,
            conflicts: vec!["adj:J. Doe".to_string()],
        })
    );
    assert_eq!(
        add_clash(&clash("TeamB", "R. Roe"), &teams, &judges, &insts),
        Ok(ClashStep::Patch {
            target: Target::Judge(1),
            url: "adj:R. Roe".to_string(),
            list: ConflictList::Teams,
            conflicts: vec!["team:TeamB".to_string()],
        })
    );
}

#[test]
fn self_clash_is_reported_not_refused() {
    let (teams, judges, insts) = fixture();
    let c = clash("j. DOE", "J. Doe");
    assert!(is_self_clash(&c));
    assert!(!is_self_clash(&clash("J. Doe", "R. Roe")));
    assert_eq!(
        add_clash(&c, &teams, &judges, &insts),
        Ok(ClashStep::Patch {
            target: Target::Judge(0),
            url: "adj:J. Doe".to_string(),
            list: ConflictList::Adjudicators,
            conflicts: vec!["adj:J. Doe".to_string()],
        })
    );
}
