//! Conflicts that go without saying: every team and every judge is in conflict
//! with its own institution.

use crate::entities::{contains_text, copy_texts, opt_text, texts, Adjudicator, Team};
use vstd::prelude::*;

verus! {

/// A record that lacks the conflict with its own institution.
#[derive(Debug, Clone, PartialEq, Eq)]
pub struct OwnConflict {
    /// Position of the record among the known records of its kind.
    pub position: usize,
    /// URL of the record: the patch is sent there.
    pub url: String,
    /// The institution conflicts to set: those that the record has, and its
    /// own institution at the end.
    pub institution_conflicts: Vec<String>,
}

/// A patch as texts.
pub struct OwnConflictView {
    pub position: usize,
    pub url: Seq<char>,
    pub institution_conflicts: Seq<Seq<char>>,
}

impl View for OwnConflict {
    type V = OwnConflictView;

    open spec fn view(&self) -> OwnConflictView {
        OwnConflictView {
            position: self.position,
            url: self.url@,
            institution_conflicts: texts(self.institution_conflicts@),
        }
    }
}

/// The patches as texts.
pub open spec fn own_conflicts_view(patches: Seq<OwnConflict>) -> Seq<OwnConflictView> {
    patches.map_values(|p: OwnConflict| p@)
}

/// Whether a record with this institution and these institution conflicts
/// lacks the conflict with its own institution.
pub open spec fn lacks_own(institution: Option<Seq<char>>, conflicts: Seq<Seq<char>>) -> bool {
    institution is Some && !conflicts.contains(institution->0)
}

/// The patches for the teams: one for each team that lacks the conflict with
/// its own institution, in order.
pub open spec fn team_patches(teams: Seq<Team>) -> Seq<OwnConflictView>
    decreases teams.len(),
{
    if teams.len() == 0 {
        Seq::empty()
    } else {
        let before = team_patches(teams.drop_last());
        let team = teams.last();
        if lacks_own(opt_text(team.institution), texts(team.institution_conflicts@)) {
            before.push(
                OwnConflictView {
                    position: (teams.len() - 1) as usize,
                    url: team.url@,
                    institution_conflicts: texts(team.institution_conflicts@).push(
                        team.institution->0@,
                    ),
                },
            )
        } else {
            before
        }
    }
}

/// The patches for the judges: one for each judge that lacks the conflict with
/// its own institution, in order.
pub open spec fn judge_patches(judges: Seq<Adjudicator>) -> Seq<OwnConflictView>
    decreases judges.len(),
{
    if judges.len() == 0 {
        Seq::empty()
    } else {
        let before = judge_patches(judges.drop_last());
        let judge = judges.last();
        if lacks_own(opt_text(judge.institution), texts(judge.institution_conflicts@)) {
            before.push(
                OwnConflictView {
                    position: (judges.len() - 1) as usize,
                    url: judge.url@,
                    institution_conflicts: texts(judge.institution_conflicts@).push(
                        judge.institution->0@,
                    ),
                },
            )
        } else {
            before
        }
    }
}

/// The institution conflicts to set on a record, where it lacks the conflict
/// with its own institution.
pub fn own_conflict(institution: &Option<String>, conflicts: &Vec<String>) -> (r: Option<
    Vec<String>,
>)
    ensures
        match r {
            Some(list) => lacks_own(opt_text(*institution), texts(conflicts@)) && texts(list@)
                == texts(conflicts@).push(institution->0@),
            None => !lacks_own(opt_text(*institution), texts(conflicts@)),
        },
{
    match institution {
        Some(inst) => {
            if contains_text(conflicts, inst.as_str()) {
                None
            } else {
                let mut list = copy_texts(conflicts);
                list.push(inst.clone());
                assert(texts(list@) =~= texts(conflicts@).push(inst@));
                Some(list)
            }
        },
        None => None,
    }
}

/// The patches that give every team the conflict with its own institution.
pub fn sensible_team_conflicts(teams: &Vec<Team>) -> (r: Vec<OwnConflict>)
    ensures
        own_conflicts_view(r@) == team_patches(teams@),
{
    let mut r: Vec<OwnConflict> = Vec::new();
    let mut i: usize = 0;
    assert(own_conflicts_view(r@) =~= team_patches(teams@.take(0)));
    while i < teams.len()
        invariant
            i <= teams.len(),
            own_conflicts_view(r@) == team_patches(teams@.take(i as int)),
        decreases teams.len() - i,
    {
        proof {
            assert(teams@.take(i as int + 1).drop_last() == teams@.take(i as int));
            assert(teams@.take(i as int + 1).last() == teams@[i as int]);
        }
        match own_conflict(&teams[i].institution, &teams[i].institution_conflicts) {
            Some(list) => {
                let ghost before = own_conflicts_view(r@);
                let patch = OwnConflict {
                    position: i,
                    url: teams[i].url.clone(),
                    institution_conflicts: list,
                };
                r.push(patch);
                assert(own_conflicts_view(r@) =~= before.push(patch@));
            },
            None => {},
        }
        i += 1;
    }
    assert(teams@.take(teams.len() as int) == teams@);
    r
}

/// The patches that give every judge the conflict with its own institution.
pub fn sensible_judge_conflicts(judges: &Vec<Adjudicator>) -> (r: Vec<OwnConflict>)
    ensures
        own_conflicts_view(r@) == judge_patches(judges@),
{
    let mut r: Vec<OwnConflict> = Vec::new();
    let mut i: usize = 0;
    assert(own_conflicts_view(r@) =~= judge_patches(judges@.take(0)));
    while i < judges.len()
        invariant
            i <= judges.len(),
            own_conflicts_view(r@) == judge_patches(judges@.take(i as int)),
        decreases judges.len() - i,
    {
        proof {
            assert(judges@.take(i as int + 1).drop_last() == judges@.take(i as int));
            assert(judges@.take(i as int + 1).last() == judges@[i as int]);
        }
        match own_conflict(&judges[i].institution, &judges[i].institution_conflicts) {
            Some(list) => {
                let ghost before = own_conflicts_view(r@);
                let patch = OwnConflict {
                    position: i,
                    url: judges[i].url.clone(),
                    institution_conflicts: list,
                };
                r.push(patch);
                assert(own_conflicts_view(r@) =~= before.push(patch@));
            },
            None => {},
        }
        i += 1;
    }
    assert(judges@.take(judges.len() as int) == judges@);
    r
}

/// The patches that give every team and every judge the conflict with its own
/// institution: those for the teams, and those for the judges.
pub fn do_make_sensible_conflicts(teams: &Vec<Team>, judges: &Vec<Adjudicator>) -> (r: (
    Vec<OwnConflict>,
    Vec<OwnConflict>,
))
    ensures
        own_conflicts_view(r.0@) == team_patches(teams@),
        own_conflicts_view(r.1@) == judge_patches(judges@),
{
    (sensible_team_conflicts(teams), sensible_judge_conflicts(judges))
}

} // verus!
