use tabbycat_sync::draw::{
    add_judge, add_judge_to, get_adj_pairing, kind, remove, reseat, swap, DebateTeam, DrawError,
    Kind, Pairing, PairingPatch, Panel, Role, Side,
};
use tabbycat_sync::entities::{Adjudicator, Team};
use tabbycat_sync::save_panels::{restore_panels, PanelRestore};
use tabbycat_sync::view_draw::{view_draw, DrawTable, TableCell, ViewError};

fn adj(id: i64, name: &str) -> Adjudicator {
    Adjudicator {
        id,
        url: format!("adj:{}", id),
        name: name.to_string(),
        institution: None,
        institution_conflicts: vec![],
        team_conflicts: vec![],
        adjudicator_conflicts: vec![],
    }
}

fn squad(id: i64, long_name: &str, short_name: &str) -> Team {
    Team {
        id,
        url: format!("team:{}", id),
        long_name: long_name.to_string(),
        short_name: short_name.to_string(),
        code_name: None,
        institution: None,
        break_categories: vec![],
        institution_conflicts: vec![],
        speakers: vec![],
    }
}

fn dt(id: i64, side: Side) -> DebateTeam {
    DebateTeam { team: format!("team:{}", id), side: Some(side), flags: vec![] }
}

fn panel(chair: Option<i64>, panellists: &[i64], trainees: &[i64]) -> Panel {
    Panel {
        chair: chair.map(|c| format!("adj:{}", c)),
        panellists: panellists.iter().map(|c| format!("adj:{}", c)).collect(),
        trainees: trainees.iter().map(|c| format!("adj:{}", c)).collect(),
    }
}

fn fixture() -> (Vec<Team>, Vec<Adjudicator>, Vec<Pairing>) {
    let teams = vec![
        squad(1, "Acme A", "AA"),
        squad(2, "Beta B", "BB"),
        squad(3, "Gamma C", "GC"),
        squad(4, "Delta D", "DD"),
        squad(5, "Spare", "SP"),
    ];
    let judges = vec![adj(11, "Ann"), adj(12, "Ben"), adj(13, "Cy"), adj(14, "Di"), adj(15, "Ed")];
    let pairings = vec![
        Pairing {
            id: 100,
            url: "pairing:100".to_string(),
            teams: vec![dt(1, Side::Aff), dt(2, Side::Neg)],
            adjudicators: Some(panel(Some(11), &[12], &[13])),
            room_rank: Some(1),
            sides_confirmed: Some(true),
        },
        Pairing {
            id: 101,
            url: "pairing:101".to_string(),
            teams: vec![dt(3, Side::Aff), dt(4, Side::Neg)],
            adjudicators: Some(panel(Some(14), &[], &[])),
            room_rank: Some(2),
            sides_confirmed: None,
        },
    ];
    (teams, judges, pairings)
}

#[test]
fn keys_are_folded() {
    let (teams, judges, _) = fixture();
    assert_eq!(kind("  acme a ", &teams, &judges), Ok(Kind::Team(0)));
    assert_eq!(kind("DD", &teams, &judges), Ok(Kind::Team(3)));
    assert_eq!(kind(" BEN", &teams, &judges), Ok(Kind::Judge(1)));
    assert_eq!(kind("13", &teams, &judges), Ok(Kind::Judge(2)));
    assert_eq!(kind("nobody", &teams, &judges), Err(DrawError::Unknown("nobody".to_string())));
    assert_eq!(Kind::Judge(2).url(&teams, &judges), "adj:13");
    assert_eq!(Kind::Team(4).url(&teams, &judges), "team:5");
}

#[test]
fn judges_swap_across_pairings() {
    let (teams, judges, pairings) = fixture();
    let patches = swap("ben", "di", &teams, &judges, &pairings).unwrap();
    assert_eq!(
        patches,
        vec![
            PairingPatch::Adjudicators {
                url: "pairing:100".to_string(),
                panel: panel(Some(11), &[14], &[13])
            },
            PairingPatch::Adjudicators {
                url: "pairing:101".to_string(),
                panel: panel(Some(12), &[], &[])
            },
        ]
    );
}

#[test]
fn judges_swap_within_a_pairing() {
    let (teams, judges, pairings) = fixture();
    let patches = swap("Ann", "Cy", &teams, &judges, &pairings).unwrap();
    assert_eq!(
        patches,
        vec![PairingPatch::Adjudicators {
            url: "pairing:100".to_string(),
            panel: panel(Some(13), &[12], &[11])
        }]
    );
}

#[test]
fn teams_swap() {
    let (teams, judges, pairings) = fixture();
    let patches = swap("AA", "delta d", &teams, &judges, &pairings).unwrap();
    assert_eq!(
        patches,
        vec![
            PairingPatch::Teams {
                url: "pairing:101".to_string(),
                teams: vec![dt(3, Side::Aff), dt(1, Side::Neg)]
            },
            PairingPatch::Teams {
                url: "pairing:100".to_string(),
                teams: vec![dt(4, Side::Aff), dt(2, Side::Neg)]
            },
        ]
    );
    let same_room = swap("AA", "BB", &teams, &judges, &pairings).unwrap();
    assert_eq!(
        same_room,
        vec![PairingPatch::Teams {
            url: "pairing:100".to_string(),
            teams: vec![dt(2, Side::Aff), dt(1, Side::Neg)]
        }]
    );
}

#[test]
fn swap_leaves_every_other_slot_alone() {
    let (mut teams, judges, mut pairings) = fixture();
    teams.push(squad(6, "Odd one", "tmp"));
    pairings[1].teams.push(DebateTeam { team: "tmp".to_string(), side: None, flags: vec![] });
    pairings[1].adjudicators = Some(Panel {
        chair: Some("adj:14".to_string()),
        panellists: vec!["tmp".to_string(), "adj:15".to_string()],
        trainees: vec![],
    });
    let swapped_teams = swap("GC", "DD", &teams, &judges, &pairings).unwrap();
    assert_eq!(
        swapped_teams,
        vec![PairingPatch::Teams {
            url: "pairing:101".to_string(),
            teams: vec![
                dt(4, Side::Aff),
                dt(3, Side::Neg),
                DebateTeam { team: "tmp".to_string(), side: None, flags: vec![] }
            ]
        }]
    );
    let swapped_judges = swap("Di", "Ed", &teams, &judges, &pairings).unwrap();
    assert_eq!(
        swapped_judges,
        vec![PairingPatch::Adjudicators {
            url: "pairing:101".to_string(),
            panel: Panel {
                chair: Some("adj:15".to_string()),
                panellists: vec!["tmp".to_string(), "adj:14".to_string()],
                trainees: vec![],
            }
        }]
    );
}

#[test]
fn room_numbers_are_decimal() {
    let (teams, judges, mut pairings) = fixture();
    pairings[0].id = 0;
    pairings[1].id = i64::MIN;
    for room in ["0", "-0", "+0", "000"] {
        assert!(add_judge(room, "Ed", "t", &teams, &judges, &pairings).is_ok(), "{}", room);
    }
    assert!(add_judge("-9223372036854775808", "Ed", "t", &teams, &judges, &pairings).is_ok());
    assert_eq!(
        add_judge("9223372036854775807", "Ed", "t", &teams, &judges, &pairings),
        Err(DrawError::NoSuchPairing(i64::MAX))
    );
    for room in ["", "-", "+", "9223372036854775808", "-9223372036854775809", "1.0", "1 ", "٣"] {
        assert_eq!(
            add_judge(room, "Ed", "t", &teams, &judges, &pairings),
            Err(DrawError::BadRoom),
            "{}",
            room
        );
    }
}

#[test]
fn swaps_are_refused() {
    let (teams, judges, pairings) = fixture();
    assert_eq!(swap("Ann", "ann ", &teams, &judges, &pairings), Err(DrawError::Identical));
    assert_eq!(swap("Ann", "AA", &teams, &judges, &pairings), Err(DrawError::JudgeAgainstTeam));
    assert_eq!(swap("AA", "Ann", &teams, &judges, &pairings), Err(DrawError::JudgeAgainstTeam));
    assert_eq!(
        swap("ghost", "Ann", &teams, &judges, &pairings),
        Err(DrawError::Unknown("ghost".to_string()))
    );
    assert_eq!(
        swap("Ann", "ghost", &teams, &judges, &pairings),
        Err(DrawError::Unknown("ghost".to_string()))
    );
    assert_eq!(
        swap("Ann", "Ed", &teams, &judges, &pairings),
        Err(DrawError::NotOnDraw("adj:15".to_string()))
    );
    assert_eq!(
        swap("Spare", "AA", &teams, &judges, &pairings),
        Err(DrawError::NotOnDraw("team:1".to_string()))
    );
}

#[test]
fn last_seat_is_changed() {
    let p = panel(Some(11), &[11, 12, 11], &[13]);
    assert_eq!(reseat(&p, "adj:11", "x"), Some(Panel {
        chair: Some("adj:11".to_string()),
        panellists: vec!["adj:11".to_string(), "adj:12".to_string(), "x".to_string()],
        trainees: vec!["adj:13".to_string()],
    }));
    assert_eq!(reseat(&p, "adj:99", "x"), None);
    let (_, _, pairings) = fixture();
    assert_eq!(get_adj_pairing(&pairings, "adj:14"), Some(1));
    assert_eq!(get_adj_pairing(&pairings, "adj:15"), None);
}

#[test]
fn judge_is_added() {
    let (teams, judges, mut pairings) = fixture();
    assert_eq!(
        add_judge("101", "ed", "P", &teams, &judges, &pairings),
        Ok(PairingPatch::Adjudicators {
            url: "pairing:101".to_string(),
            panel: panel(Some(14), &[15], &[])
        })
    );
    assert_eq!(
        add_judge("100", "Ed", "Chair", &teams, &judges, &pairings),
        Ok(PairingPatch::Adjudicators {
            url: "pairing:100".to_string(),
            panel: panel(Some(15), &[12], &[13])
        })
    );
    pairings[1].adjudicators = None;
    assert_eq!(
        add_judge("+101", "15", "trainee", &teams, &judges, &pairings),
        Ok(PairingPatch::Adjudicators {
            url: "pairing:101".to_string(),
            panel: panel(None, &[], &[15])
        })
    );
    assert_eq!(
        add_judge_to(Some(100), Some(Role::T), "ed", &teams, &judges, &pairings),
        Ok(PairingPatch::Adjudicators {
            url: "pairing:100".to_string(),
            panel: panel(Some(11), &[12], &[13, 15])
        })
    );
}

#[test]
fn adding_is_refused() {
    let (teams, judges, pairings) = fixture();
    assert_eq!(add_judge("x", "ghost", "z", &teams, &judges, &pairings), Err(DrawError::BadRoom));
    assert_eq!(add_judge(" 100", "Ed", "c", &teams, &judges, &pairings), Err(DrawError::BadRoom));
    assert_eq!(add_judge("100", "ghost", "z", &teams, &judges, &pairings), Err(DrawError::BadRole));
    assert_eq!(
        add_judge("100", "ghost", "c", &teams, &judges, &pairings),
        Err(DrawError::Unknown("ghost".to_string()))
    );
    assert_eq!(add_judge("100", "AA", "c", &teams, &judges, &pairings), Err(DrawError::NotAJudge));
    assert_eq!(
        add_judge("7", "Ed", "c", &teams, &judges, &pairings),
        Err(DrawError::NoSuchPairing(7))
    );
}

#[test]
fn judge_is_removed() {
    let (teams, judges, mut pairings) = fixture();
    pairings[0].adjudicators = Some(panel(Some(12), &[12, 11, 12], &[12, 13]));
    assert_eq!(
        remove("Ben", &teams, &judges, &pairings),
        Ok(PairingPatch::Adjudicators {
            url: "pairing:100".to_string(),
            panel: panel(None, &[11], &[13])
        })
    );
    assert_eq!(
        remove("di", &teams, &judges, &pairings),
        Ok(PairingPatch::Adjudicators {
            url: "pairing:101".to_string(),
            panel: panel(None, &[], &[])
        })
    );
    assert_eq!(
        remove("Ed", &teams, &judges, &pairings),
        Err(DrawError::NotOnDraw("adj:15".to_string()))
    );
    assert_eq!(remove("AA", &teams, &judges, &pairings), Err(DrawError::NotAJudge));
    assert_eq!(
        remove("ghost", &teams, &judges, &pairings),
        Err(DrawError::Unknown("ghost".to_string()))
    );
}

fn cell(text: &str) -> TableCell {
    TableCell { text: text.to_string(), warning: false }
}

#[test]
fn draw_is_shown() {
    let (teams, judges, pairings) = fixture();
    let table = view_draw(2, &pairings, &teams, &judges).unwrap().unwrap();
    assert_eq!(
        table,
        DrawTable {
            headers: vec!["Nb", "Prop", "Opp", "Panel"].into_iter().map(String::from).collect(),
            rows: vec![
                vec![cell(""), cell("AA"), cell("BB"), cell("Ann (c)\nBen\nCy (t)")],
                vec![
                    TableCell { text: "Sides not confirmed!".to_string(), warning: true },
                    cell("GC"),
                    cell("DD"),
                    cell("Di (c)")
                ],
            ],
        }
    );
}

#[test]
fn draw_of_four_teams_and_byes() {
    let (teams, judges, _) = fixture();
    let pairings = vec![
        Pairing {
            id: 1,
            url: "pairing:1".to_string(),
            teams: vec![dt(4, Side::Co), dt(1, Side::Aff), dt(3, Side::Cg), dt(2, Side::Neg)],
            adjudicators: Some(panel(None, &[11, 12], &[13])),
            room_rank: None,
            sides_confirmed: Some(false),
        },
        Pairing {
            id: 2,
            url: "pairing:2".to_string(),
            teams: vec![dt(5, Side::Bye)],
            adjudicators: None,
            room_rank: None,
            sides_confirmed: Some(true),
        },
    ];
    let table = view_draw(4, &pairings, &teams, &judges).unwrap().unwrap();
    assert_eq!(table.headers, vec!["Nb", "OG", "OO", "CG", "CO", "Panel"]);
    assert_eq!(
        table.rows,
        vec![
            vec![
                TableCell { text: "Sides not confirmed!".to_string(), warning: true },
                cell("AA"),
                cell("BB"),
                cell("GC"),
                cell("DD"),
                cell("AnnBenCy (t)")
            ],
            vec![cell(""), cell("SP"), cell("")],
        ]
    );
}

#[test]
fn draw_cannot_be_shown() {
    let (teams, judges, mut pairings) = fixture();
    assert_eq!(view_draw(3, &vec![], &teams, &judges), Ok(None));
    assert_eq!(view_draw(3, &pairings, &teams, &judges), Err(ViewError::TeamCount(3)));
    pairings[1].teams[0].side = Some(Side::Cg);
    assert_eq!(view_draw(2, &pairings, &teams, &judges), Err(ViewError::SideOutOfRange));
    pairings[1].teams[0].team = "team:99".to_string();
    assert_eq!(view_draw(2, &pairings, &teams, &judges), Err(ViewError::UnknownTeam));
    pairings[1].teams[0].side = None;
    assert_eq!(view_draw(2, &pairings, &teams, &judges), Err(ViewError::NoSide));
    pairings[0].adjudicators = Some(panel(Some(11), &[99], &[]));
    assert_eq!(view_draw(2, &pairings, &teams, &judges), Err(ViewError::UnknownJudge));
}

fn room(id: i64, rank: Option<i32>, chair: Option<i64>) -> Pairing {
    Pairing {
        id,
        url: format!("pairing:{}", id),
        teams: vec![],
        adjudicators: chair.map(|c| panel(Some(c), &[], &[])),
        room_rank: rank,
        sides_confirmed: None,
    }
}

#[test]
fn panels_are_restored_by_rank() {
    let saved = vec![
        room(1, Some(3), Some(11)),
        room(2, Some(1), Some(12)),
        room(3, None, Some(13)),
        room(4, Some(1), None),
    ];
    let live = vec![room(21, None, None), room(22, Some(2), Some(15)), room(23, Some(1), None)];
    let plan = restore_panels(&saved, &live);
    assert_eq!(
        plan,
        vec![
            PanelRestore {
                live: 2,
                saved: 1,
                url: "pairing:23".to_string(),
                adjudicators: Some(panel(Some(12), &[], &[]))
            },
            PanelRestore { live: 1, saved: 3, url: "pairing:22".to_string(), adjudicators: None },
            PanelRestore {
                live: 0,
                saved: 0,
                url: "pairing:21".to_string(),
                adjudicators: Some(panel(Some(11), &[], &[]))
            },
        ]
    );
    assert_eq!(restore_panels(&vec![], &live), vec![]);
    assert_eq!(restore_panels(&saved, &vec![]), vec![]);
    let fewer_saved = restore_panels(&saved[..1].to_vec(), &live);
    assert_eq!(fewer_saved.len(), 1);
    assert_eq!((fewer_saved[0].live, fewer_saved[0].saved), (2, 0));
}
