//! The conflict linker: a clash names two parties by free text, and is stored
//! as one more entry in a conflict list of one of them.
//!
//! Conflict lists only grow: an entry that is there already is left alone, and
//! no entry is ever removed.

use crate::entities::{contains_text, copy_texts, texts, Adjudicator, Institution, Team};
use crate::resolve::{any_match, first_index, lemma_first_index, pos};
use crate::rows::Clash;
use crate::text::{eq_ignore_case, same_ignoring_case};
use vstd::prelude::*;

verus! {

/// What a key of a clash stands for, with its position among the known
/// records of its kind.
#[derive(Debug, Clone, Copy, PartialEq, Eq)]
pub enum Party {
    Institution(usize),
    Judge(usize),
    Team(usize),
}

/// The institution has the key as its name or as its code, up to ASCII letter
/// case.
pub open spec fn institution_called(inst: Institution, key: Seq<char>) -> bool {
    eq_ignore_case(inst.name@, key) || eq_ignore_case(inst.code@, key)
}

/// The judge has the key as its name, up to ASCII letter case.
pub open spec fn judge_called(judge: Adjudicator, key: Seq<char>) -> bool {
    eq_ignore_case(judge.name@, key)
}

/// The team has the key as its long or as its short name, up to ASCII letter
/// case.
pub open spec fn team_called(team: Team, key: Seq<char>) -> bool {
    eq_ignore_case(team.long_name@, key) || eq_ignore_case(team.short_name@, key)
}

/// A speaker of the team has the key as its name, up to ASCII letter case.
pub open spec fn team_has_speaker(team: Team, key: Seq<char>) -> bool {
    exists|k: int|
        0 <= k < team.speakers@.len() && eq_ignore_case((#[trigger] team.speakers@[k]).name@, key)
}

/// What a key stands for. The kinds are tried in turn: an institution by name
/// or code, a judge by name, a team by long or short name, a team by the name
/// of one of its speakers. The first kind that has a record for the key
/// decides, and the first such record is taken.
pub open spec fn party_of(
    key: Seq<char>,
    teams: Seq<Team>,
    judges: Seq<Adjudicator>,
    insts: Seq<Institution>,
) -> Option<Party> {
    if any_match(insts, |c: Institution| institution_called(c, key)) {
        Some(
            Party::Institution(
                first_index(insts, |c: Institution| institution_called(c, key))->0 as usize,
            ),
        )
    } else if any_match(judges, |c: Adjudicator| judge_called(c, key)) {
        Some(Party::Judge(first_index(judges, |c: Adjudicator| judge_called(c, key))->0 as usize))
    } else if any_match(teams, |c: Team| team_called(c, key)) {
        Some(Party::Team(first_index(teams, |c: Team| team_called(c, key))->0 as usize))
    } else if any_match(teams, |c: Team| team_has_speaker(c, key)) {
        Some(Party::Team(first_index(teams, |c: Team| team_has_speaker(c, key))->0 as usize))
    } else {
        None
    }
}

fn find_institution_called(insts: &Vec<Institution>, key: &str) -> (r: Option<usize>)
    ensures
        pos(r) == first_index(insts@, |c: Institution| institution_called(c, key@)),
        r is Some <==> any_match(insts@, |c: Institution| institution_called(c, key@)),
        r is Some ==> r->0 < insts.len(),
{
    let ghost p = |c: Institution| institution_called(c, key@);
    let mut i: usize = 0;
    while i < insts.len()
        invariant
            i <= insts.len(),
            forall|j: int| 0 <= j < i ==> !p(#[trigger] insts@[j]),
            p == (|c: Institution| institution_called(c, key@)),
        decreases insts.len() - i,
    {
        if same_ignoring_case(insts[i].name.as_str(), key) || same_ignoring_case(
            insts[i].code.as_str(),
            key,
        ) {
            proof {
                lemma_first_index(insts@, p, Some(i as int));
            }
            return Some(i);
        }
        i += 1;
    }
    proof {
        lemma_first_index(insts@, p, None);
    }
    None
}

fn find_judge_called(judges: &Vec<Adjudicator>, key: &str) -> (r: Option<usize>)
    ensures
        pos(r) == first_index(judges@, |c: Adjudicator| judge_called(c, key@)),
        r is Some <==> any_match(judges@, |c: Adjudicator| judge_called(c, key@)),
        r is Some ==> r->0 < judges.len(),
{
    let ghost p = |c: Adjudicator| judge_called(c, key@);
    let mut i: usize = 0;
    while i < judges.len()
        invariant
            i <= judges.len(),
            forall|j: int| 0 <= j < i ==> !p(#[trigger] judges@[j]),
            p == (|c: Adjudicator| judge_called(c, key@)),
        decreases judges.len() - i,
    {
        if same_ignoring_case(judges[i].name.as_str(), key) {
            proof {
                lemma_first_index(judges@, p, Some(i as int));
            }
            return Some(i);
        }
        i += 1;
    }
    proof {
        lemma_first_index(judges@, p, None);
    }
    None
}

fn find_team_called(teams: &Vec<Team>, key: &str) -> (r: Option<usize>)
    ensures
        pos(r) == first_index(teams@, |c: Team| team_called(c, key@)),
        r is Some <==> any_match(teams@, |c: Team| team_called(c, key@)),
        r is Some ==> r->0 < teams.len(),
{
    let ghost p = |c: Team| team_called(c, key@);
    let mut i: usize = 0;
    while i < teams.len()
        invariant
            i <= teams.len(),
            forall|j: int| 0 <= j < i ==> !p(#[trigger] teams@[j]),
            p == (|c: Team| team_called(c, key@)),
        decreases teams.len() - i,
    {
        if same_ignoring_case(teams[i].long_name.as_str(), key) || same_ignoring_case(
            teams[i].short_name.as_str(),
            key,
        ) {
            proof {
                lemma_first_index(teams@, p, Some(i as int));
            }
            return Some(i);
        }
        i += 1;
    }
    proof {
        lemma_first_index(teams@, p, None);
    }
    None
}

fn has_speaker_called(team: &Team, key: &str) -> (r: bool)
    ensures
        r == team_has_speaker(*team, key@),
{
    let mut k: usize = 0;
    while k < team.speakers.len()
        invariant
            k <= team.speakers.len(),
            forall|j: int| 0 <= j < k ==> !eq_ignore_case((#[trigger] team.speakers@[j]).name@, key@),
        decreases team.speakers.len() - k,
    {
        if same_ignoring_case(team.speakers[k].name.as_str(), key) {
            return true;
        }
        k += 1;
    }
    false
}

fn find_team_of_speaker(teams: &Vec<Team>, key: &str) -> (r: Option<usize>)
    ensures
        pos(r) == first_index(teams@, |c: Team| team_has_speaker(c, key@)),
        r is Some <==> any_match(teams@, |c: Team| team_has_speaker(c, key@)),
        r is Some ==> r->0 < teams.len(),
{
    let ghost p = |c: Team| team_has_speaker(c, key@);
    let mut i: usize = 0;
    while i < teams.len()
        invariant
            i <= teams.len(),
            forall|j: int| 0 <= j < i ==> !p(#[trigger] teams@[j]),
            p == (|c: Team| team_has_speaker(c, key@)),
        decreases teams.len() - i,
    {
        if has_speaker_called(&teams[i], key) {
            proof {
                lemma_first_index(teams@, p, Some(i as int));
            }
            return Some(i);
        }
        i += 1;
    }
    proof {
        lemma_first_index(teams@, p, None);
    }
    None
}

/// The position that a party holds lies within the records of its kind.
pub open spec fn party_in_range(
    party: Party,
    teams: Seq<Team>,
    judges: Seq<Adjudicator>,
    insts: Seq<Institution>,
) -> bool {
    match party {
        Party::Institution(i) => i < insts.len(),
        Party::Judge(i) => i < judges.len(),
        Party::Team(i) => i < teams.len(),
    }
}

/// What a key of a clash stands for.
pub fn find_party(
    key: &str,
    teams: &Vec<Team>,
    judges: &Vec<Adjudicator>,
    insts: &Vec<Institution>,
) -> (r: Option<Party>)
    ensures
        r == party_of(key@, teams@, judges@, insts@),
        r is Some ==> party_in_range(r->0, teams@, judges@, insts@),
{
    if let Some(i) = find_institution_called(insts, key) {
        return Some(Party::Institution(i));
    }
    if let Some(i) = find_judge_called(judges, key) {
        return Some(Party::Judge(i));
    }
    if let Some(i) = find_team_called(teams, key) {
        return Some(Party::Team(i));
    }
    if let Some(i) = find_team_of_speaker(teams, key) {
        return Some(Party::Team(i));
    }
    None
}

/// The conflict lists that a clash can go into.
#[derive(Debug, Clone, Copy, PartialEq, Eq)]
pub enum ConflictList {
    /// `institution_conflicts`, of a judge or of a team.
    Institutions,
    /// `adjudicator_conflicts` of a judge.
    Adjudicators,
    /// `team_conflicts` of a judge.
    Teams,
}

/// The record whose conflict list a clash goes into, with its position among
/// the known records of its kind.
#[derive(Debug, Clone, Copy, PartialEq, Eq)]
pub enum Target {
    Judge(usize),
    Team(usize),
}

/// Where a clash goes: into which list of which record, what the list holds
/// now, and the URL that the clash adds.
pub struct Link {
    pub target: Target,
    pub target_url: Seq<char>,
    pub list: ConflictList,
    pub current: Seq<Seq<char>>,
    pub entry: Seq<char>,
}

/// Why a clash could not be stored.
#[derive(Debug, Clone, PartialEq, Eq)]
pub enum ClashError {
    /// No institution, judge, team or speaker is called by this key.
    Unresolved(String),
    /// Both keys stand for teams.
    TeamAgainstTeam,
    /// Both keys stand for institutions.
    InstitutionAgainstInstitution,
}

/// Where the clash of two parties goes, or nothing where the pair is not
/// supported. A judge and an institution, in either order: into the judge's
/// institution conflicts. A team and an institution, in either order: into the
/// team's institution conflicts. Two judges: into the first judge's
/// adjudicator conflicts. A judge and a team, in either order: into the
/// judge's team conflicts. Two teams or two institutions: nowhere.
pub open spec fn link_of(
    a: Party,
    b: Party,
    teams: Seq<Team>,
    judges: Seq<Adjudicator>,
    insts: Seq<Institution>,
) -> Option<Link> {
    match (a, b) {
        (Party::Judge(j), Party::Institution(i)) | (Party::Institution(i), Party::Judge(j)) => Some(
            Link {
                target: Target::Judge(j),
                target_url: judges[j as int].url@,
                list: ConflictList::Institutions,
                current: texts(judges[j as int].institution_conflicts@),
                entry: insts[i as int].url@,
            },
        ),
        (Party::Team(t), Party::Institution(i)) | (Party::Institution(i), Party::Team(t)) => Some(
            Link {
                target: Target::Team(t),
                target_url: teams[t as int].url@,
                list: ConflictList::Institutions,
                current: texts(teams[t as int].institution_conflicts@),
                entry: insts[i as int].url@,
            },
        ),
        (Party::Judge(j), Party::Judge(k)) => Some(
            Link {
                target: Target::Judge(j),
                target_url: judges[j as int].url@,
                list: ConflictList::Adjudicators,
                current: texts(judges[j as int].adjudicator_conflicts@),
                entry: judges[k as int].url@,
            },
        ),
        (Party::Judge(j), Party::Team(t)) | (Party::Team(t), Party::Judge(j)) => Some(
            Link {
                target: Target::Judge(j),
                target_url: judges[j as int].url@,
                list: ConflictList::Teams,
                current: texts(judges[j as int].team_conflicts@),
                entry: teams[t as int].url@,
            },
        ),
        (Party::Team(_), Party::Team(_)) => None,
        (Party::Institution(_), Party::Institution(_)) => None,
    }
}

/// What to do about a clash.
#[derive(Debug, Clone, PartialEq, Eq)]
pub enum ClashStep {
    /// Send a `PATCH` to `url` that sets the conflict list `list` of `target`
    /// to `conflicts`, and put the record that comes back in the place of the
    /// known one.
    Patch { target: Target, url: String, list: ConflictList, conflicts: Vec<String> },
    /// The conflict is stored already: nothing is sent.
    AlreadyPresent,
}

/// `step` is what has to be done for a clash that goes where `link` says: a
/// patch with the list as it is and the new entry at its end, and nothing
/// where the list holds the entry already.
pub open spec fn is_step_for(step: ClashStep, link: Link) -> bool {
    match step {
        ClashStep::Patch { target, url, list, conflicts } => !link.current.contains(link.entry)
            && target == link.target && url@ == link.target_url && list == link.list && texts(
            conflicts@,
        ) == link.current.push(link.entry),
        ClashStep::AlreadyPresent => link.current.contains(link.entry),
    }
}

fn step_for(
    target: Target,
    url: &String,
    list: ConflictList,
    current: &Vec<String>,
    entry: &String,
) -> (r: ClashStep)
    ensures
        is_step_for(
            r,
            Link { target, target_url: url@, list, current: texts(current@), entry: entry@ },
        ),
{
    if contains_text(current, entry.as_str()) {
        ClashStep::AlreadyPresent
    } else {
        let mut conflicts = copy_texts(current);
        conflicts.push(entry.clone());
        assert(texts(conflicts@) =~= texts(current@).push(entry@));
        ClashStep::Patch { target, url: url.clone(), list, conflicts }
    }
}

/// What has to be done for the clash of two parties.
pub fn link_parties(
    a: Party,
    b: Party,
    teams: &Vec<Team>,
    judges: &Vec<Adjudicator>,
    insts: &Vec<Institution>,
) -> (r: Result<ClashStep, ClashError>)
    requires
        party_in_range(a, teams@, judges@, insts@),
        party_in_range(b, teams@, judges@, insts@),
    ensures
        match r {
            Ok(step) => link_of(a, b, teams@, judges@, insts@) is Some && is_step_for(
                step,
                link_of(a, b, teams@, judges@, insts@)->0,
            ),
            Err(ClashError::TeamAgainstTeam) => a is Team && b is Team,
            Err(ClashError::InstitutionAgainstInstitution) => a is Institution && b is Institution,
            Err(ClashError::Unresolved(_)) => false,
        },
{
    match (a, b) {
        (Party::Judge(j), Party::Institution(i)) | (Party::Institution(i), Party::Judge(j)) => Ok(
            step_for(
                Target::Judge(j),
                &judges[j].url,
                ConflictList::Institutions,
                &judges[j].institution_conflicts,
                &insts[i].url,
            ),
        ),
        (Party::Team(t), Party::Institution(i)) | (Party::Institution(i), Party::Team(t)) => Ok(
            step_for(
                Target::Team(t),
                &teams[t].url,
                ConflictList::Institutions,
                &teams[t].institution_conflicts,
                &insts[i].url,
            ),
        ),
        (Party::Judge(j), Party::Judge(k)) => Ok(
            step_for(
                Target::Judge(j),
                &judges[j].url,
                ConflictList::Adjudicators,
                &judges[j].adjudicator_conflicts,
                &judges[k].url,
            ),
        ),
        (Party::Judge(j), Party::Team(t)) | (Party::Team(t), Party::Judge(j)) => Ok(
            step_for(
                Target::Judge(j),
                &judges[j].url,
                ConflictList::Teams,
                &judges[j].team_conflicts,
                &teams[t].url,
            ),
        ),
        (Party::Team(_), Party::Team(_)) => Err(ClashError::TeamAgainstTeam),
        (Party::Institution(_), Party::Institution(_)) => Err(
            ClashError::InstitutionAgainstInstitution,
        ),
    }
}

/// Whether the two keys of a clash are the same up to ASCII letter case. Such
/// a clash is reported to the operator; it is stored like any other.
pub fn is_self_clash(clash: &Clash) -> (r: bool)
    ensures
        r == eq_ignore_case(clash.object_1@, clash.object_2@),
{
    same_ignoring_case(clash.object_1.as_str(), clash.object_2.as_str())
}

/// What has to be done about a clash.
///
/// Both keys must stand for a known record, the first key being looked up
/// first. A clash of two teams or of two institutions is refused, and nothing
/// is sent for it. For every other pair the conflict list that the clash goes
/// into gets the new entry at its end, unless it holds it already.
pub fn add_clash(
    clash: &Clash,
    teams: &Vec<Team>,
    judges: &Vec<Adjudicator>,
    insts: &Vec<Institution>,
) -> (r: Result<ClashStep, ClashError>)
    ensures
        ({
            let a = party_of(clash.object_1@, teams@, judges@, insts@);
            let b = party_of(clash.object_2@, teams@, judges@, insts@);
            match r {
                Ok(step) => a is Some && b is Some && link_of(a->0, b->0, teams@, judges@, insts@)
                    is Some && is_step_for(step, link_of(a->0, b->0, teams@, judges@, insts@)->0),
                Err(ClashError::Unresolved(key)) => (a is None && key == clash.object_1) || (a
                    is Some && b is None && key == clash.object_2),
                Err(ClashError::TeamAgainstTeam) => a is Some && b is Some && a->0 is Team && b->0
                    is Team,
                Err(ClashError::InstitutionAgainstInstitution) => a is Some && b is Some && a->0
                    is Institution && b->0 is Institution,
            }
        }),
{
    let a = match find_party(clash.object_1.as_str(), teams, judges, insts) {
        Some(p) => p,
        None => {
            return Err(ClashError::Unresolved(clash.object_1.clone()));
        },
    };
    let b = match find_party(clash.object_2.as_str(), teams, judges, insts) {
        Some(p) => p,
        None => {
            return Err(ClashError::Unresolved(clash.object_2.clone()));
        },
    };
    link_parties(a, b, teams, judges, insts)
}

/// A clash of two teams or of two institutions is always refused: whatever the
/// known records are, the answer is the error of that pair, never a patch.
pub proof fn lemma_unsupported_pairs_send_nothing(
    a: Party,
    b: Party,
    teams: Seq<Team>,
    judges: Seq<Adjudicator>,
    insts: Seq<Institution>,
)
    requires
        (a is Team && b is Team) || (a is Institution && b is Institution),
    ensures
        link_of(a, b, teams, judges, insts) is None,
{
}

} // verus!
