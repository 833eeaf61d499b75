//! The import orchestrator: the phases of a run, and for every row of every
//! sheet the decision whether a record has to be created and with what.
//!
//! The caller fetches the known records, asks for a decision row by row, sends
//! what the decision says and adds every record that the service returns to
//! the known ones. A record is created only where the resolver finds none, so
//! a run can be repeated.

use crate::entities::{
    copy_texts, opt_text, texts, Adjudicator, Category, Institution, Round, SpeakerRecord, Team,
};
use crate::resolve::{
    any_match, code_name_hit, find_institution, first_index, institution_at, institution_has,
    judge_has, lemma_first_index_in_range, long_name_hit, pos, resolve_institution, resolve_judge,
    resolve_speaker, resolve_team, resolve_team_institution, short_name_hit, speaker_has,
    team_institution, team_key, team_match, team_of_row, TeamKey,
};
use crate::rows::{InstitutionRow, JudgeRow, RoomRow, Speaker, TeamRow};
use crate::sync::{known, lemma_second_run_creates_nothing, faithful, run, creates};
use crate::text::{eq_ignore_case, same, same_ignoring_case};
use vstd::prelude::*;

verus! {

/// Where a run stands.
#[derive(Debug, Clone, Copy, PartialEq, Eq)]
pub enum Phase {
    Idle,
    FetchingBaseline,
    Overwriting,
    ImportingInstitutions,
    ImportingRooms,
    ImportingJudges,
    ImportingTeams,
    ImportingClashes,
    Done,
    Aborted,
}

/// The phase that follows `phase` once all its work has ended. A failure in any
/// phase aborts the run; a run that is done or aborted stays so. The known
/// records are deleted first only where the operator asked for it.
pub open spec fn phase_after(phase: Phase, overwrite: bool, ok: bool) -> Phase {
    match phase {
        Phase::Done => Phase::Done,
        Phase::Aborted => Phase::Aborted,
        _ => if !ok {
            Phase::Aborted
        } else {
            match phase {
                Phase::Idle => Phase::FetchingBaseline,
                Phase::FetchingBaseline => if overwrite {
                    Phase::Overwriting
                } else {
                    Phase::ImportingInstitutions
                },
                Phase::Overwriting => Phase::ImportingInstitutions,
                Phase::ImportingInstitutions => Phase::ImportingRooms,
                Phase::ImportingRooms => Phase::ImportingJudges,
                Phase::ImportingJudges => Phase::ImportingTeams,
                Phase::ImportingTeams => Phase::ImportingClashes,
                _ => Phase::Done,
            }
        },
    }
}

/// The phase that follows `phase`, given whether all its work succeeded.
pub fn next_phase(phase: Phase, overwrite: bool, ok: bool) -> (r: Phase)
    ensures
        r == phase_after(phase, overwrite, ok),
{
    match phase {
        Phase::Done => Phase::Done,
        Phase::Aborted => Phase::Aborted,
        _ => if !ok {
            Phase::Aborted
        } else {
            match phase {
                Phase::Idle => Phase::FetchingBaseline,
                Phase::FetchingBaseline => if overwrite {
                    Phase::Overwriting
                } else {
                    Phase::ImportingInstitutions
                },
                Phase::Overwriting => Phase::ImportingInstitutions,
                Phase::ImportingInstitutions => Phase::ImportingRooms,
                Phase::ImportingRooms => Phase::ImportingJudges,
                Phase::ImportingJudges => Phase::ImportingTeams,
                Phase::ImportingTeams => Phase::ImportingClashes,
                _ => Phase::Done,
            }
        },
    }
}

/// Whether the rows of a phase may be worked on at the same time. Judges and
/// teams may; institutions, rooms and clashes are taken one after another.
pub fn rows_run_concurrently(phase: Phase) -> (r: bool)
    ensures
        r == (phase == Phase::ImportingJudges || phase == Phase::ImportingTeams),
{
    match phase {
        Phase::ImportingJudges => true,
        Phase::ImportingTeams => true,
        _ => false,
    }
}

/// Position of a phase in a run that overwrites.
pub open spec fn phase_rank(phase: Phase) -> int {
    match phase {
        Phase::Idle => 0,
        Phase::FetchingBaseline => 1,
        Phase::Overwriting => 2,
        Phase::ImportingInstitutions => 3,
        Phase::ImportingRooms => 4,
        Phase::ImportingJudges => 5,
        Phase::ImportingTeams => 6,
        Phase::ImportingClashes => 7,
        Phase::Done => 8,
        Phase::Aborted => 9,
    }
}

/// A run never goes back: every step leads to a later phase, until the run is
/// done or aborted. So all institutions exist before a judge or a team is
/// imported, and clashes come last.
pub proof fn lemma_phases_advance(phase: Phase, overwrite: bool, ok: bool)
    ensures
        phase_rank(phase) <= phase_rank(phase_after(phase, overwrite, ok)),
        phase != Phase::Done && phase != Phase::Aborted ==> phase_rank(phase) < phase_rank(
            phase_after(phase, overwrite, ok),
        ),
        phase_after(phase, overwrite, ok) == Phase::Overwriting ==> overwrite,
{
}

/// Why a row could not be imported.
#[derive(Debug, Clone, PartialEq, Eq)]
pub enum ImportError {
    /// The row names an institution that is not known. Holds the name.
    UnknownInstitution(String),
    /// A team row names a category with an empty name.
    EmptyCategory,
}

/// What is sent to create an institution.
#[derive(Debug, Clone, PartialEq, Eq)]
pub struct InstitutionDraft {
    pub region: Option<String>,
    pub name: String,
    pub code: String,
}

/// The copy of an optional string.
pub fn copy_opt(o: &Option<String>) -> (r: Option<String>)
    ensures
        r == *o,
{
    match o {
        Some(s) => Some(s.clone()),
        None => None,
    }
}

/// The key of an institution row: its full name and its short code.
pub open spec fn institution_key(row: InstitutionRow) -> (Seq<char>, Seq<char>) {
    (row.full_name@, row.short_code@)
}

/// The rule by which an institution is found under a key.
pub open spec fn institution_hit() -> spec_fn((Seq<char>, Seq<char>), Institution) -> bool {
    |k: (Seq<char>, Seq<char>), e: Institution| institution_has(e, k.0, k.1)
}

/// What to create for an institution row: nothing where an institution with
/// the row's name or code is known, and an institution with the row's region,
/// name and code otherwise.
pub fn plan_institution(row: &InstitutionRow, cache: &Vec<Institution>) -> (r: Option<
    InstitutionDraft,
>)
    ensures
        r is None <==> known(cache@, institution_key(*row), institution_hit()),
        r is Some ==> r->0.region == row.region && r->0.name == row.full_name && r->0.code
            == row.short_code,
{
    let found = resolve_institution(row, cache);
    proof {
        let p = |c: Institution| institution_has(c, row.full_name@, row.short_code@);
        lemma_first_index_in_range(cache@, p);
        if known(cache@, institution_key(*row), institution_hit()) {
            let j = choose|j: int|
                0 <= j < cache@.len() && institution_hit()(
                    institution_key(*row),
                    #[trigger] cache@[j],
                );
            assert(p(cache@[j]));
        }
        if found is Some {
            assert(institution_hit()(institution_key(*row), cache@[found->0 as int]));
        }
    }
    match found {
        Some(_) => None,
        None => Some(
            InstitutionDraft {
                region: copy_opt(&row.region),
                name: row.full_name.clone(),
                code: row.short_code.clone(),
            },
        ),
    }
}

/// What is sent to create a venue. A venue is created without categories; they
/// are created afterwards, each with its venues.
#[derive(Debug, Clone, PartialEq, Eq)]
pub struct VenueDraft {
    pub name: String,
    pub priority: i64,
}

/// What to create for a room row.
pub fn venue_draft(row: &RoomRow) -> (r: VenueDraft)
    ensures
        r.name == row.name,
        r.priority == row.priority,
{
    VenueDraft { name: row.name.clone(), priority: row.priority }
}

/// A venue category that is to be created, with the venues that belong to it.
#[derive(Debug, Clone, PartialEq, Eq)]
pub struct VenueGroup {
    pub name: String,
    /// URLs of the venues, in the order in which they were created.
    pub venues: Vec<String>,
}

/// A venue category as texts.
pub struct VenueGroupView {
    pub name: Seq<char>,
    pub venues: Seq<Seq<char>>,
}

impl View for VenueGroup {
    type V = VenueGroupView;

    open spec fn view(&self) -> VenueGroupView {
        VenueGroupView { name: self.name@, venues: texts(self.venues@) }
    }
}

/// How a venue category is shown in the name of its venues: as a prefix.
pub fn venue_category_display() -> (r: String)
    ensures
        r@ == "P"@,
{
    "P".to_owned()
}

/// The groups as texts.
pub open spec fn groups_view(groups: Seq<VenueGroup>) -> Seq<VenueGroupView> {
    groups.map_values(|g: VenueGroup| g@)
}

/// The position of the group with the given name.
pub open spec fn group_named(groups: Seq<VenueGroupView>, name: Seq<char>) -> Option<int> {
    first_index(groups, |g: VenueGroupView| g.name == name)
}

/// The groups after a venue has been put into the category `name`: the venue
/// is added to the group of that name, or a new group is opened for it at the
/// end.
pub open spec fn with_venue(
    groups: Seq<VenueGroupView>,
    name: Seq<char>,
    venue: Seq<char>,
) -> Seq<VenueGroupView> {
    match group_named(groups, name) {
        Some(i) => groups.update(
            i,
            VenueGroupView { name: groups[i].name, venues: groups[i].venues.push(venue) },
        ),
        None => groups.push(VenueGroupView { name: name, venues: seq![venue] }),
    }
}

/// The groups after a venue has been put into each of the categories `names`
/// in turn.
pub open spec fn with_venue_in_all(
    groups: Seq<VenueGroupView>,
    names: Seq<Seq<char>>,
    venue: Seq<char>,
) -> Seq<VenueGroupView>
    decreases names.len(),
{
    if names.len() == 0 {
        groups
    } else {
        with_venue(with_venue_in_all(groups, names.drop_last(), venue), names.last(), venue)
    }
}

/// No two groups have the same name.
pub open spec fn distinct_groups(groups: Seq<VenueGroupView>) -> bool {
    forall|i: int, j: int|
        0 <= i < j < groups.len() ==> (#[trigger] groups[i]).name != (#[trigger] groups[j]).name
}

/// Putting a venue into a category keeps the names of the groups distinct.
pub proof fn lemma_with_venue_distinct(
    groups: Seq<VenueGroupView>,
    name: Seq<char>,
    venue: Seq<char>,
)
    requires
        distinct_groups(groups),
    ensures
        distinct_groups(with_venue(groups, name, venue)),
{
    let p = |g: VenueGroupView| g.name == name;
    lemma_first_index_in_range(groups, p);
    let after = with_venue(groups, name, venue);
    match group_named(groups, name) {
        Some(i) => {
            assert forall|a: int, b: int| 0 <= a < b < after.len() implies (#[trigger] after[a]).name
                != (#[trigger] after[b]).name by {
                assert(after[a].name == groups[a].name);
                assert(after[b].name == groups[b].name);
            }
        },
        None => {
            assert forall|a: int, b: int| 0 <= a < b < after.len() implies (#[trigger] after[a]).name
                != (#[trigger] after[b]).name by {
                assert(after[a] == groups[a]);
                if b < groups.len() {
                    assert(after[b] == groups[b]);
                } else {
                    assert(!p(groups[a]));
                }
            }
        },
    }
}

fn find_group(groups: &Vec<VenueGroup>, name: &str) -> (r: Option<usize>)
    ensures
        pos(r) == group_named(groups_view(groups@), name@),
        r is Some ==> r->0 < groups.len(),
{
    let ghost p = |g: VenueGroupView| g.name == name@;
    let ghost gv = groups_view(groups@);
    let mut i: usize = 0;
    while i < groups.len()
        invariant
            i <= groups.len(),
            gv == groups_view(groups@),
            forall|j: int| 0 <= j < i ==> !p(#[trigger] gv[j]),
            p == (|g: VenueGroupView| g.name == name@),
        decreases groups.len() - i,
    {
        assert(gv[i as int] == groups@[i as int]@);
        if same(groups[i].name.as_str(), name) {
            proof {
                crate::resolve::lemma_first_index(gv, p, Some(i as int));
            }
            return Some(i);
        }
        i += 1;
    }
    proof {
        crate::resolve::lemma_first_index(gv, p, None);
    }
    None
}

/// Puts a venue into one category.
pub fn add_venue_to_category(groups: &mut Vec<VenueGroup>, name: &str, venue: &str)
    ensures
        groups_view(final(groups)@) == with_venue(groups_view(old(groups)@), name@, venue@),
{
    match find_group(groups, name) {
        Some(i) => {
            let mut venues = copy_texts(&groups[i].venues);
            venues.push(venue.to_owned());
            let replaced = VenueGroup { name: groups[i].name.clone(), venues };
            assert(texts(replaced.venues@) =~= texts(old(groups)@[i as int].venues@).push(venue@));
            groups.set(i, replaced);
            assert(groups_view(groups@) =~= with_venue(groups_view(old(groups)@), name@, venue@));
        },
        None => {
            let mut venues: Vec<String> = Vec::new();
            venues.push(venue.to_owned());
            assert(texts(venues@) =~= seq![venue@]);
            groups.push(VenueGroup { name: name.to_owned(), venues });
            assert(groups_view(groups@) =~= with_venue(groups_view(old(groups)@), name@, venue@));
        },
    }
}

/// Puts a newly created venue into every category that its row names. Once
/// all venues are created, each group is one venue category to create.
pub fn add_venue(groups: &mut Vec<VenueGroup>, categories: &Vec<String>, venue: &str)
    ensures
        groups_view(final(groups)@) == with_venue_in_all(
            groups_view(old(groups)@),
            texts(categories@),
            venue@,
        ),
{
    let mut i: usize = 0;
    while i < categories.len()
        invariant
            i <= categories.len(),
            groups_view(groups@) == with_venue_in_all(
                groups_view(old(groups)@),
                texts(categories@).take(i as int),
                venue@,
            ),
        decreases categories.len() - i,
    {
        add_venue_to_category(groups, categories[i].as_str(), venue);
        proof {
            let names = texts(categories@);
            assert(names.take(i as int + 1).drop_last() == names.take(i as int));
            assert(names.take(i as int + 1).last() == categories@[i as int]@);
        }
        i += 1;
    }
    assert(texts(categories@).take(categories.len() as int) == texts(categories@));
}

/// What is sent to create a judge. A judge is created with no conflicts
/// against teams or other judges.
#[derive(Debug, Clone, PartialEq, Eq)]
pub struct JudgeDraft {
    pub name: String,
    /// URL of the institution.
    pub institution: Option<String>,
    /// URLs of the institutions that the judge is in conflict with.
    pub institution_conflicts: Vec<String>,
    pub email: Option<String>,
    pub independent: bool,
    pub adj_core: bool,
    /// Sent only where the row has one.
    pub base_score: Option<String>,
}

/// The institution has one of the keys as its name or as its code.
pub open spec fn named_by_any(inst: Institution, keys: Seq<Seq<char>>) -> bool {
    exists|k: int| 0 <= k < keys.len() && institution_has(inst, #[trigger] keys[k], keys[k])
}

/// The URLs of the institutions that one of the keys names, in the order of
/// the institutions.
pub open spec fn conflicts_of(insts: Seq<Institution>, keys: Seq<Seq<char>>) -> Seq<Seq<char>>
    decreases insts.len(),
{
    if insts.len() == 0 {
        Seq::empty()
    } else {
        let before = conflicts_of(insts.drop_last(), keys);
        if named_by_any(insts.last(), keys) {
            before.push(insts.last().url@)
        } else {
            before
        }
    }
}

fn is_named_by_any(inst: &Institution, keys: &Vec<String>) -> (r: bool)
    ensures
        r == named_by_any(*inst, texts(keys@)),
{
    let mut k: usize = 0;
    while k < keys.len()
        invariant
            k <= keys.len(),
            forall|j: int| 0 <= j < k ==> !institution_has(*inst, keys@[j]@, keys@[j]@),
        decreases keys.len() - k,
    {
        if same(inst.name.as_str(), keys[k].as_str()) || same(
            inst.code.as_str(),
            keys[k].as_str(),
        ) {
            assert(texts(keys@)[k as int] == keys@[k as int]@);
            return true;
        }
        k += 1;
    }
    assert forall|j: int| 0 <= j < texts(keys@).len() implies !institution_has(
        *inst,
        #[trigger] texts(keys@)[j],
        texts(keys@)[j],
    ) by {
        assert(texts(keys@)[j] == keys@[j]@);
    }
    false
}

/// The URLs of the institutions that a judge row declares a clash with.
pub fn conflict_urls(insts: &Vec<Institution>, keys: &Vec<String>) -> (r: Vec<String>)
    ensures
        texts(r@) == conflicts_of(insts@, texts(keys@)),
{
    let mut r: Vec<String> = Vec::new();
    let mut i: usize = 0;
    assert(texts(r@) =~= Seq::<Seq<char>>::empty());
    while i < insts.len()
        invariant
            i <= insts.len(),
            texts(r@) == conflicts_of(insts@.take(i as int), texts(keys@)),
        decreases insts.len() - i,
    {
        proof {
            assert(insts@.take(i as int + 1).drop_last() == insts@.take(i as int));
            assert(insts@.take(i as int + 1).last() == insts@[i as int]);
        }
        if is_named_by_any(&insts[i], keys) {
            let ghost before = texts(r@);
            r.push(insts[i].url.clone());
            assert(texts(r@) =~= before.push(insts@[i as int].url@));
        }
        i += 1;
    }
    assert(insts@.take(insts.len() as int) == insts@);
    r
}

/// The rule by which a judge is found under a name.
pub open spec fn judge_hit() -> spec_fn(Seq<char>, Adjudicator) -> bool {
    |k: Seq<char>, e: Adjudicator| judge_has(e, k)
}

/// The institution that a judge row names: the first one that has the text as
/// its name or as its code.
pub open spec fn judge_institution(key: Option<String>, insts: Seq<Institution>) -> Option<int> {
    match key {
        Some(k) => first_index(insts, |c: Institution| institution_has(c, k@, k@)),
        None => None,
    }
}

/// `d` is what is sent for a judge row whose institution has the URL `inst`.
pub open spec fn is_judge_draft(
    d: JudgeDraft,
    row: JudgeRow,
    inst: Option<Seq<char>>,
    insts: Seq<Institution>,
) -> bool {
    &&& d.name == row.name
    &&& opt_text(d.institution) == inst
    &&& texts(d.institution_conflicts@) == conflicts_of(insts, texts(row.institution_clashes@))
    &&& d.email == row.email
    &&& d.independent == row.is_ia
    &&& d.adj_core == row.is_ca
    &&& d.base_score == row.base_score
}

/// What to create for a judge row.
///
/// Nothing where a judge of that name is known. Otherwise the row must name a
/// known institution or none, and the judge is created with the URL of that
/// institution and with the URLs of the institutions it declares a clash with.
pub fn plan_judge(row: &JudgeRow, judges: &Vec<Adjudicator>, insts: &Vec<Institution>) -> (r:
    Result<Option<JudgeDraft>, ImportError>)
    ensures
        known(judges@, row.name@, judge_hit()) ==> r == Ok::<Option<JudgeDraft>, ImportError>(
            None,
        ),
        !known(judges@, row.name@, judge_hit()) ==> match r {
            Ok(d) => d is Some && (row.institution is Some ==> judge_institution(
                row.institution,
                insts@,
            ) is Some) && is_judge_draft(
                d->0,
                *row,
                match judge_institution(row.institution, insts@) {
                    Some(i) => Some(insts@[i].url@),
                    None => None,
                },
                insts@,
            ),
            Err(e) => row.institution is Some && judge_institution(row.institution, insts@)
                is None && e == ImportError::UnknownInstitution(row.institution->0),
        },
{
    let found = resolve_judge(row, judges);
    proof {
        let p = |c: Adjudicator| judge_has(c, row.name@);
        lemma_first_index_in_range(judges@, p);
        if known(judges@, row.name@, judge_hit()) {
            let j = choose|j: int|
                0 <= j < judges@.len() && judge_hit()(row.name@, #[trigger] judges@[j]);
            assert(p(judges@[j]));
        }
        if found is Some {
            assert(judge_hit()(row.name@, judges@[found->0 as int]));
        }
    }
    if found.is_some() {
        return Ok(None);
    }
    let institution = match &row.institution {
        Some(key) => {
            match find_institution(insts, key.as_str(), key.as_str()) {
                Some(i) => Some(insts[i].url.clone()),
                None => {
                    return Err(ImportError::UnknownInstitution(key.clone()));
                },
            }
        },
        None => None,
    };
    Ok(
        Some(
            JudgeDraft {
                name: row.name.clone(),
                institution,
                institution_conflicts: conflict_urls(insts, &row.institution_clashes),
                email: copy_opt(&row.email),
                independent: row.is_ia,
                adj_core: row.is_ca,
                base_score: copy_opt(&row.base_score),
            },
        ),
    )
}

/// Whether a judge is marked as available in a round.
#[derive(Debug, Clone, Copy, PartialEq, Eq)]
pub struct AvailabilityMark {
    /// The sequence number of the round.
    pub round_seq: i64,
    pub available: bool,
}

/// One of the tags is the abbreviation or the name of the round, up to ASCII
/// letter case.
pub open spec fn round_tagged(round: Round, tags: Seq<Seq<char>>) -> bool {
    exists|k: int|
        0 <= k < tags.len() && (eq_ignore_case(#[trigger] tags[k], round.abbreviation@)
            || eq_ignore_case(tags[k], round.name@))
}

fn is_round_tagged(round: &Round, tags: &Vec<String>) -> (r: bool)
    ensures
        r == round_tagged(*round, texts(tags@)),
{
    let mut k: usize = 0;
    while k < tags.len()
        invariant
            k <= tags.len(),
            forall|j: int|
                0 <= j < k ==> !(eq_ignore_case(tags@[j]@, round.abbreviation@) || eq_ignore_case(
                    tags@[j]@,
                    round.name@,
                )),
        decreases tags.len() - k,
    {
        if same_ignoring_case(tags[k].as_str(), round.abbreviation.as_str()) || same_ignoring_case(
            tags[k].as_str(),
            round.name.as_str(),
        ) {
            assert(texts(tags@)[k as int] == tags@[k as int]@);
            return true;
        }
        k += 1;
    }
    assert forall|j: int| 0 <= j < texts(tags@).len() implies !(eq_ignore_case(
        #[trigger] texts(tags@)[j],
        round.abbreviation@,
    ) || eq_ignore_case(texts(tags@)[j], round.name@)) by {
        assert(texts(tags@)[j] == tags@[j]@);
    }
    false
}

/// For every round, in order, whether a new judge with the given availability
/// tags is available in it: the judge is, where a tag is the abbreviation or
/// the name of the round.
pub fn availability_marks(tags: &Vec<String>, rounds: &Vec<Round>) -> (r: Vec<AvailabilityMark>)
    ensures
        r.len() == rounds.len(),
        forall|i: int|
            0 <= i < rounds.len() ==> (#[trigger] r[i]).round_seq == rounds[i].seq && r[i].available
                == round_tagged(rounds[i], texts(tags@)),
{
    let mut r: Vec<AvailabilityMark> = Vec::new();
    let mut i: usize = 0;
    while i < rounds.len()
        invariant
            i <= rounds.len(),
            r.len() == i,
            forall|j: int|
                0 <= j < i ==> (#[trigger] r[j]).round_seq == rounds[j].seq && r[j].available
                    == round_tagged(rounds[j], texts(tags@)),
        decreases rounds.len() - i,
    {
        let available = is_round_tagged(&rounds[i], tags);
        r.push(AvailabilityMark { round_seq: rounds[i].seq, available });
        i += 1;
    }
    r
}

/// How a request is sent.
#[derive(Debug, Clone, Copy, PartialEq, Eq)]
pub enum Method {
    Get,
    Post,
    Put,
    Patch,
    Delete,
}

/// How an availability is sent: a judge is marked as available with `PUT` and
/// as unavailable with `POST`.
pub fn availability_method(available: bool) -> (r: Method)
    ensures
        r == if available {
            Method::Put
        } else {
            Method::Post
        },
{
    if available {
        Method::Put
    } else {
        Method::Post
    }
}

/// What is sent to create a team. Speakers are created afterwards, one by one.
#[derive(Debug, Clone, PartialEq, Eq)]
pub struct TeamDraft {
    /// URL of the institution.
    pub institution: Option<String>,
    pub reference: String,
    /// Sent only where the row has a short name.
    pub short_reference: Option<String>,
    /// Sent only where the row has a code name.
    pub code_name: Option<String>,
    pub seed: Option<u32>,
    pub emoji: Option<String>,
    pub use_institution_prefix: bool,
    /// URLs of the break categories.
    pub break_categories: Vec<String>,
}

/// What to do about a team row.
#[derive(Debug, Clone, Copy, PartialEq, Eq)]
pub enum TeamStep {
    /// The team is known: its position among the known teams. Its speakers
    /// are still looked at.
    Existing(usize),
    /// The team has to be created, with the institution at the given position
    /// among the known institutions, or with none.
    Create(Option<usize>),
}

/// One of the names is empty.
pub open spec fn has_empty(names: Seq<Seq<char>>) -> bool {
    exists|i: int| 0 <= i < names.len() && (#[trigger] names[i]).len() == 0
}

fn any_empty(names: &Vec<String>) -> (r: bool)
    ensures
        r == has_empty(texts(names@)),
{
    let mut i: usize = 0;
    while i < names.len()
        invariant
            i <= names.len(),
            forall|j: int| 0 <= j < i ==> names@[j]@.len() != 0,
        decreases names.len() - i,
    {
        if names[i].as_str().is_empty() {
            assert(texts(names@)[i as int] == names@[i as int]@);
            return true;
        }
        i += 1;
    }
    assert forall|j: int| 0 <= j < texts(names@).len() implies (#[trigger] texts(names@)[j]).len()
        != 0 by {
        assert(texts(names@)[j] == names@[j]@);
    }
    false
}

/// What has to be done about a team row.
///
/// A row whose team is known creates nothing. Any other row must name a known
/// institution or none, and no category with an empty name; its team is then
/// created.
pub open spec fn team_step(
    row: TeamRow,
    teams: Seq<Team>,
    insts: Seq<Institution>,
    prefix_all: bool,
) -> Result<TeamStep, ImportError> {
    match team_of_row(row, teams, insts, prefix_all) {
        Some(i) => Ok(TeamStep::Existing(i as usize)),
        None => match team_institution(row.institution, insts) {
            Some(k) => if has_empty(texts(row.categories@)) {
                Err(ImportError::EmptyCategory)
            } else {
                Ok(TeamStep::Create(Some(k as usize)))
            },
            None => if row.institution is Some {
                Err(ImportError::UnknownInstitution(row.institution->0))
            } else if has_empty(texts(row.categories@)) {
                Err(ImportError::EmptyCategory)
            } else {
                Ok(TeamStep::Create(None))
            },
        },
    }
}

/// Decides what has to be done about a team row.
pub fn plan_team(row: &TeamRow, teams: &Vec<Team>, insts: &Vec<Institution>, prefix_all: bool) -> (r:
    Result<TeamStep, ImportError>)
    ensures
        r == team_step(*row, teams@, insts@, prefix_all),
        r matches Ok(TeamStep::Existing(i)) ==> i < teams.len(),
        r matches Ok(TeamStep::Create(Some(k))) ==> k < insts.len(),
        r matches Ok(TeamStep::Existing(_)) <==> known(
            teams@,
            team_key(
                *row,
                institution_at(insts@, team_institution(row.institution, insts@)),
                prefix_all,
            ),
            team_hit(),
        ),
{
    proof {
        lemma_team_found_iff_known(
            teams@,
            team_key(
                *row,
                institution_at(insts@, team_institution(row.institution, insts@)),
                prefix_all,
            ),
        );
    }
    match resolve_team(row, teams, insts, prefix_all) {
        Some(i) => Ok(TeamStep::Existing(i)),
        None => {
            let inst = resolve_team_institution(&row.institution, insts);
            match (inst, &row.institution) {
                (None, Some(key)) => Err(ImportError::UnknownInstitution(key.clone())),
                _ => {
                    if any_empty(&row.categories) {
                        Err(ImportError::EmptyCategory)
                    } else {
                        Ok(TeamStep::Create(inst))
                    }
                },
            }
        },
    }
}

/// What is sent to create the team of a row, given the URL of its institution
/// and the URLs of its break categories.
pub fn team_draft(
    row: &TeamRow,
    institution: Option<String>,
    break_categories: Vec<String>,
    prefix_all: bool,
) -> (r: TeamDraft)
    ensures
        r.institution == institution,
        r.reference == row.full_name,
        r.short_reference == row.short_name,
        r.code_name == row.code_name,
        r.seed == row.seed,
        r.emoji == row.emoji,
        r.use_institution_prefix == (prefix_all || row.use_institution_prefix),
        r.break_categories == break_categories,
{
    TeamDraft {
        institution,
        reference: row.full_name.clone(),
        short_reference: copy_opt(&row.short_name),
        code_name: copy_opt(&row.code_name),
        seed: row.seed,
        emoji: copy_opt(&row.emoji),
        use_institution_prefix: prefix_all || row.use_institution_prefix,
        break_categories,
    }
}

/// What is sent to create a speaker.
#[derive(Debug, Clone, PartialEq, Eq)]
pub struct SpeakerDraft {
    pub name: String,
    /// URL of the team.
    pub team: String,
    /// URLs of the speaker categories.
    pub categories: Vec<String>,
    pub email: Option<String>,
    pub anonymous: bool,
    /// The last four are sent only where the row has them.
    pub code_name: Option<String>,
    pub phone: Option<String>,
    pub gender: Option<String>,
    pub pronoun: Option<String>,
}

/// The key of a speaker row: its name and its URL key.
pub open spec fn speaker_key(row: Speaker) -> (Seq<char>, Option<Seq<char>>) {
    (row.name@, opt_text(row.url_key))
}

/// The rule by which a speaker is found under a key.
pub open spec fn speaker_hit() -> spec_fn((Seq<char>, Option<Seq<char>>), SpeakerRecord) -> bool {
    |k: (Seq<char>, Option<Seq<char>>), e: SpeakerRecord| speaker_has(e, k.0, k.1)
}

/// Whether a speaker has to be created for a speaker row: where no known
/// speaker, of whatever team, has the row's name or URL key.
pub fn speaker_is_new(row: &Speaker, speakers: &Vec<SpeakerRecord>) -> (r: bool)
    ensures
        r == !known(speakers@, speaker_key(*row), speaker_hit()),
{
    let found = resolve_speaker(row, speakers);
    proof {
        let p = |c: SpeakerRecord| speaker_has(c, row.name@, opt_text(row.url_key));
        lemma_first_index_in_range(speakers@, p);
        if known(speakers@, speaker_key(*row), speaker_hit()) {
            let j = choose|j: int|
                0 <= j < speakers@.len() && speaker_hit()(speaker_key(*row), #[trigger] speakers@[j]);
            assert(p(speakers@[j]));
        }
        if found is Some {
            assert(speaker_hit()(speaker_key(*row), speakers@[found->0 as int]));
        }
    }
    found.is_none()
}

/// What is sent to create the speaker of a row in the team with the given
/// URL, given the URLs of the speaker's categories.
pub fn speaker_draft(row: &Speaker, team: String, categories: Vec<String>) -> (r: SpeakerDraft)
    ensures
        r.name == row.name,
        r.team == team,
        r.categories == categories,
        r.email == row.email,
        r.anonymous == row.anonymous,
        r.code_name == row.code_name,
        r.phone == row.phone,
        r.gender == row.gender,
        r.pronoun == row.pronoun,
{
    SpeakerDraft {
        name: row.name.clone(),
        team,
        categories,
        email: copy_opt(&row.email),
        anonymous: row.anonymous,
        code_name: copy_opt(&row.code_name),
        phone: copy_opt(&row.phone),
        gender: copy_opt(&row.gender),
        pronoun: copy_opt(&row.pronoun),
    }
}

/// The position of the first team with the given URL.
pub fn find_team_by_url(teams: &Vec<Team>, url: &str) -> (r: Option<usize>)
    ensures
        pos(r) == first_index(teams@, |t: Team| t.url@ == url@),
        r is Some ==> r->0 < teams.len(),
{
    let ghost p = |t: Team| t.url@ == url@;
    let mut i: usize = 0;
    while i < teams.len()
        invariant
            i <= teams.len(),
            forall|j: int| 0 <= j < i ==> !p(#[trigger] teams@[j]),
            p == (|t: Team| t.url@ == url@),
        decreases teams.len() - i,
    {
        if same(teams[i].url.as_str(), url) {
            proof {
                crate::resolve::lemma_first_index(teams@, p, Some(i as int));
            }
            return Some(i);
        }
        i += 1;
    }
    proof {
        crate::resolve::lemma_first_index(teams@, p, None);
    }
    None
}

/// Puts the record that the service returned for a team in the place of the
/// known record with the same URL. A speaker belongs to a team by what the
/// service says, so the team is fetched again after each new speaker.
/// Returns whether a team with that URL was known.
pub fn replace_team(teams: &mut Vec<Team>, fresh: Team) -> (r: bool)
    ensures
        match first_index(old(teams)@, |t: Team| t.url@ == fresh.url@) {
            Some(i) => r && final(teams)@ == old(teams)@.update(i, fresh),
            None => !r && final(teams)@ == old(teams)@,
        },
{
    match find_team_by_url(teams, fresh.url.as_str()) {
        Some(i) => {
            teams.set(i, fresh);
            true
        },
        None => false,
    }
}

/// The position of the first judge with the given URL.
pub fn find_judge_by_url(judges: &Vec<Adjudicator>, url: &str) -> (r: Option<usize>)
    ensures
        pos(r) == first_index(judges@, |t: Adjudicator| t.url@ == url@),
        r is Some ==> r->0 < judges.len(),
{
    let ghost p = |t: Adjudicator| t.url@ == url@;
    let mut i: usize = 0;
    while i < judges.len()
        invariant
            i <= judges.len(),
            forall|j: int| 0 <= j < i ==> !p(#[trigger] judges@[j]),
            p == (|t: Adjudicator| t.url@ == url@),
        decreases judges.len() - i,
    {
        if same(judges[i].url.as_str(), url) {
            proof {
                crate::resolve::lemma_first_index(judges@, p, Some(i as int));
            }
            return Some(i);
        }
        i += 1;
    }
    proof {
        crate::resolve::lemma_first_index(judges@, p, None);
    }
    None
}

/// Puts the record that the service returned for a judge in the place of the
/// known record with the same URL. Returns whether a judge with that URL was
/// known.
pub fn replace_judge(judges: &mut Vec<Adjudicator>, fresh: Adjudicator) -> (r: bool)
    ensures
        match first_index(old(judges)@, |t: Adjudicator| t.url@ == fresh.url@) {
            Some(i) => r && final(judges)@ == old(judges)@.update(i, fresh),
            None => !r && final(judges)@ == old(judges)@,
        },
{
    match find_judge_by_url(judges, fresh.url.as_str()) {
        Some(i) => {
            judges.set(i, fresh);
            true
        },
        None => false,
    }
}

/// The records of the service as far as a run knows them.
#[derive(Debug, Clone, PartialEq, Eq)]
pub struct Baseline {
    pub institutions: Vec<Institution>,
    pub teams: Vec<Team>,
    pub speakers: Vec<SpeakerRecord>,
    pub judges: Vec<Adjudicator>,
    pub break_categories: Vec<Category>,
    pub speaker_categories: Vec<Category>,
    pub rounds: Vec<Round>,
}

impl Baseline {
    /// Forgets every institution, team, speaker and judge, as they are after
    /// all of them have been deleted, so that every row is taken as new.
    pub fn forget_deleted(&mut self)
        ensures
            final(self).institutions@.len() == 0,
            final(self).teams@.len() == 0,
            final(self).speakers@.len() == 0,
            final(self).judges@.len() == 0,
            final(self).break_categories == old(self).break_categories,
            final(self).speaker_categories == old(self).speaker_categories,
            final(self).rounds == old(self).rounds,
    {
        self.institutions = Vec::new();
        self.teams = Vec::new();
        self.speakers = Vec::new();
        self.judges = Vec::new();
    }
}

/// The rows of a phase that are worked on at the same time.
#[derive(Debug, Clone, Copy, PartialEq, Eq)]
pub struct TaskBatch {
    /// How many rows are being worked on.
    pub in_flight: usize,
    /// How many rows have failed.
    pub failed: usize,
}

impl TaskBatch {
    /// A batch of `count` rows, all of them started.
    pub fn started(count: usize) -> (r: TaskBatch)
        ensures
            r == (TaskBatch { in_flight: count, failed: 0 }),
    {
        TaskBatch { in_flight: count, failed: 0 }
    }

    /// Records that the work on one row has ended, with success or not.
    /// Nothing changes where no row is being worked on.
    pub fn finished(&mut self, ok: bool)
        ensures
            old(self).in_flight == 0 ==> *final(self) == *old(self),
            old(self).in_flight > 0 ==> final(self).in_flight == old(self).in_flight - 1,
            old(self).in_flight > 0 && ok ==> final(self).failed == old(self).failed,
            old(self).in_flight > 0 && !ok ==> final(self).failed == if old(self).failed
                < usize::MAX {
                old(self).failed + 1
            } else {
                usize::MAX as int
            },
    {
        if self.in_flight > 0 {
            self.in_flight = self.in_flight - 1;
            if !ok && self.failed < usize::MAX {
                self.failed = self.failed + 1;
            }
        }
    }

    /// Whether the phase has ended, and how: nothing while a row is being
    /// worked on; then success where no row has failed, and failure otherwise.
    /// A failure is acted on only once every row of the batch has ended.
    pub fn outcome(&self) -> (r: Option<bool>)
        ensures
            r == if self.in_flight > 0 {
                None
            } else {
                Some(self.failed == 0)
            },
    {
        if self.in_flight > 0 {
            None
        } else {
            Some(self.failed == 0)
        }
    }
}

/// The three kinds of records that an overwriting run deletes, in the order in
/// which it deletes them: a judge refers to teams and institutions, a team to
/// an institution.
#[derive(Debug, Clone, Copy, PartialEq, Eq)]
pub enum DeletionStage {
    Judges,
    Teams,
    Institutions,
}

/// The deletions of one kind.
#[derive(Debug, Clone, Copy, PartialEq, Eq)]
pub struct Batch {
    /// How many records there are to delete.
    pub total: usize,
    /// Whether the deletions have been handed out.
    pub released: bool,
    /// How many deletions have ended.
    pub completed: usize,
}

impl Batch {
    /// The deletions were handed out and all of them have ended.
    pub open spec fn done(self) -> bool {
        self.released && self.completed == self.total
    }

    /// Some deletions were handed out and have not ended.
    pub open spec fn in_flight(self) -> bool {
        self.released && self.completed < self.total
    }

    pub open spec fn wf(self) -> bool {
        self.completed <= self.total && (!self.released ==> self.completed == 0)
    }
}

/// The progress of the deletions of an overwriting run.
#[derive(Debug, Clone, Copy, PartialEq, Eq)]
pub struct Overwrite {
    pub judges: Batch,
    pub teams: Batch,
    pub institutions: Batch,
}

impl Overwrite {
    /// The deletions are in order: those of teams are handed out only once
    /// every deletion of a judge has ended, and those of institutions only
    /// once every deletion of a team has ended.
    pub open spec fn wf(self) -> bool {
        &&& self.judges.wf()
        &&& self.teams.wf()
        &&& self.institutions.wf()
        &&& (self.teams.released ==> self.judges.done())
        &&& (self.institutions.released ==> self.teams.done())
    }

    /// The batch of a stage.
    pub open spec fn batch(self, stage: DeletionStage) -> Batch {
        match stage {
            DeletionStage::Judges => self.judges,
            DeletionStage::Teams => self.teams,
            DeletionStage::Institutions => self.institutions,
        }
    }

    /// The stage whose deletions may be handed out now, if there is one: the
    /// first stage not yet handed out, provided that nothing is in flight.
    pub open spec fn next_stage(self) -> Option<DeletionStage> {
        if !self.judges.released {
            Some(DeletionStage::Judges)
        } else if !self.judges.done() {
            None
        } else if !self.teams.released {
            Some(DeletionStage::Teams)
        } else if !self.teams.done() {
            None
        } else if !self.institutions.released {
            Some(DeletionStage::Institutions)
        } else {
            None
        }
    }

    /// The state after the deletions of a stage have been handed out.
    pub open spec fn with_released(self, stage: DeletionStage) -> Overwrite {
        match stage {
            DeletionStage::Judges => Overwrite {
                judges: Batch { released: true, ..self.judges },
                ..self
            },
            DeletionStage::Teams => Overwrite { teams: Batch { released: true, ..self.teams }, ..self },
            DeletionStage::Institutions => Overwrite {
                institutions: Batch { released: true, ..self.institutions },
                ..self
            },
        }
    }

    /// The state after one more deletion of a stage has ended.
    pub open spec fn with_completed(self, stage: DeletionStage) -> Overwrite {
        match stage {
            DeletionStage::Judges => Overwrite {
                judges: Batch { completed: (self.judges.completed + 1) as usize, ..self.judges },
                ..self
            },
            DeletionStage::Teams => Overwrite {
                teams: Batch { completed: (self.teams.completed + 1) as usize, ..self.teams },
                ..self
            },
            DeletionStage::Institutions => Overwrite {
                institutions: Batch {
                    completed: (self.institutions.completed + 1) as usize,
                    ..self.institutions
                },
                ..self
            },
        }
    }

    /// Whether the deletions are in order.
    pub fn is_well_formed(&self) -> (r: bool)
        ensures
            r == self.wf(),
    {
        let judges_ok = self.judges.completed <= self.judges.total && (self.judges.released
            || self.judges.completed == 0);
        let teams_ok = self.teams.completed <= self.teams.total && (self.teams.released
            || self.teams.completed == 0);
        let institutions_ok = self.institutions.completed <= self.institutions.total && (
        self.institutions.released || self.institutions.completed == 0);
        let judges_done = self.judges.released && self.judges.completed == self.judges.total;
        let teams_done = self.teams.released && self.teams.completed == self.teams.total;
        judges_ok && teams_ok && institutions_ok && (!self.teams.released || judges_done) && (
        !self.institutions.released || teams_done)
    }

    /// The start of an overwriting run that has the given numbers of judges,
    /// teams and institutions to delete: nothing is handed out yet.
    pub fn begin(judges: usize, teams: usize, institutions: usize) -> (r: Overwrite)
        ensures
            r.wf(),
            r.judges == (Batch { total: judges, released: false, completed: 0 }),
            r.teams == (Batch { total: teams, released: false, completed: 0 }),
            r.institutions == (Batch { total: institutions, released: false, completed: 0 }),
    {
        Overwrite {
            judges: Batch { total: judges, released: false, completed: 0 },
            teams: Batch { total: teams, released: false, completed: 0 },
            institutions: Batch { total: institutions, released: false, completed: 0 },
        }
    }

    /// Hands out the deletions of the next stage, where there is one and no
    /// deletion is in flight. The caller then starts all deletions of the
    /// stage that is returned, and reports each one that ends.
    pub fn release(&mut self) -> (r: Option<DeletionStage>)
        requires
            old(self).wf(),
        ensures
            final(self).wf(),
            r == old(self).next_stage(),
            match r {
                Some(stage) => *final(self) == old(self).with_released(stage),
                None => *final(self) == *old(self),
            },
    {
        if !self.judges.released {
            self.judges.released = true;
            Some(DeletionStage::Judges)
        } else if self.judges.completed != self.judges.total {
            None
        } else if !self.teams.released {
            self.teams.released = true;
            Some(DeletionStage::Teams)
        } else if self.teams.completed != self.teams.total {
            None
        } else if !self.institutions.released {
            self.institutions.released = true;
            Some(DeletionStage::Institutions)
        } else {
            None
        }
    }

    /// Records that one deletion of a stage has ended. Returns whether a
    /// deletion of that stage was in flight; nothing changes where none was.
    pub fn completed(&mut self, stage: DeletionStage) -> (r: bool)
        requires
            old(self).wf(),
        ensures
            final(self).wf(),
            r == old(self).batch(stage).in_flight(),
            r ==> *final(self) == old(self).with_completed(stage),
            !r ==> *final(self) == *old(self),
    {
        match stage {
            DeletionStage::Judges => {
                if self.judges.released && self.judges.completed < self.judges.total {
                    self.judges.completed = self.judges.completed + 1;
                    true
                } else {
                    false
                }
            },
            DeletionStage::Teams => {
                if self.teams.released && self.teams.completed < self.teams.total {
                    self.teams.completed = self.teams.completed + 1;
                    true
                } else {
                    false
                }
            },
            DeletionStage::Institutions => {
                if self.institutions.released && self.institutions.completed
                    < self.institutions.total {
                    self.institutions.completed = self.institutions.completed + 1;
                    true
                } else {
                    false
                }
            },
        }
    }

    /// Whether every deletion has ended, so that the known records can be
    /// forgotten and the import can start.
    pub fn is_finished(&self) -> (r: bool)
        ensures
            r == (self.judges.done() && self.teams.done() && self.institutions.done()),
    {
        self.judges.released && self.judges.completed == self.judges.total && self.teams.released
            && self.teams.completed == self.teams.total && self.institutions.released
            && self.institutions.completed == self.institutions.total
    }
}

/// Order of an overwrite. In every state that an overwriting run can be in,
/// a deletion of a team has begun only if every deletion of a judge has ended,
/// and a deletion of an institution has begun only if every deletion of a team,
/// and so of a judge, has ended.
pub proof fn lemma_deletions_in_order(o: Overwrite)
    requires
        o.wf(),
    ensures
        o.teams.released ==> o.judges.released && o.judges.completed == o.judges.total,
        o.institutions.released ==> o.teams.released && o.teams.completed == o.teams.total
            && o.judges.completed == o.judges.total,
        o.judges.in_flight() ==> o.teams.completed == 0 && o.institutions.completed == 0,
        o.teams.in_flight() ==> o.institutions.completed == 0,
{
}

/// The URLs of the judges to delete.
pub fn judge_urls(judges: &Vec<Adjudicator>) -> (r: Vec<String>)
    ensures
        r@.len() == judges@.len(),
        forall|i: int| 0 <= i < judges@.len() ==> #[trigger] r@[i] == judges@[i].url,
{
    let mut r: Vec<String> = Vec::new();
    let mut i: usize = 0;
    while i < judges.len()
        invariant
            i <= judges.len(),
            r@.len() == i,
            forall|j: int| 0 <= j < i ==> #[trigger] r@[j] == judges@[j].url,
        decreases judges.len() - i,
    {
        r.push(judges[i].url.clone());
        i += 1;
    }
    r
}

/// The URLs of the teams to delete.
pub fn team_urls(teams: &Vec<Team>) -> (r: Vec<String>)
    ensures
        r@.len() == teams@.len(),
        forall|i: int| 0 <= i < teams@.len() ==> #[trigger] r@[i] == teams@[i].url,
{
    let mut r: Vec<String> = Vec::new();
    let mut i: usize = 0;
    while i < teams.len()
        invariant
            i <= teams.len(),
            r@.len() == i,
            forall|j: int| 0 <= j < i ==> #[trigger] r@[j] == teams@[j].url,
        decreases teams.len() - i,
    {
        r.push(teams[i].url.clone());
        i += 1;
    }
    r
}

/// The URLs of the institutions to delete.
pub fn institution_urls(insts: &Vec<Institution>) -> (r: Vec<String>)
    ensures
        r@.len() == insts@.len(),
        forall|i: int| 0 <= i < insts@.len() ==> #[trigger] r@[i] == insts@[i].url,
{
    let mut r: Vec<String> = Vec::new();
    let mut i: usize = 0;
    while i < insts.len()
        invariant
            i <= insts.len(),
            r@.len() == i,
            forall|j: int| 0 <= j < i ==> #[trigger] r@[j] == insts@[j].url,
        decreases insts.len() - i,
    {
        r.push(insts[i].url.clone());
        i += 1;
    }
    r
}

/// The URLs that the deletions of a stage are sent to, one `DELETE` each.
pub fn deletion_urls(baseline: &Baseline, stage: DeletionStage) -> (r: Vec<String>)
    ensures
        match stage {
            DeletionStage::Judges => r@.len() == baseline.judges@.len() && forall|i: int|
                0 <= i < r@.len() ==> #[trigger] r@[i] == baseline.judges@[i].url,
            DeletionStage::Teams => r@.len() == baseline.teams@.len() && forall|i: int|
                0 <= i < r@.len() ==> #[trigger] r@[i] == baseline.teams@[i].url,
            DeletionStage::Institutions => r@.len() == baseline.institutions@.len() && forall|
                i: int,
            | 0 <= i < r@.len() ==> #[trigger] r@[i] == baseline.institutions@[i].url,
        },
{
    match stage {
        DeletionStage::Judges => judge_urls(&baseline.judges),
        DeletionStage::Teams => team_urls(&baseline.teams),
        DeletionStage::Institutions => institution_urls(&baseline.institutions),
    }
}

/// The rule by which a team is found under the keys of a row.
pub open spec fn team_hit() -> spec_fn(TeamKey, Team) -> bool {
    |k: TeamKey, t: Team| long_name_hit(t, k) || short_name_hit(t, k) || code_name_hit(t, k)
}

/// A team is found for a row exactly if some known team is a hit for the keys
/// of the row.
pub proof fn lemma_team_found_iff_known(cands: Seq<Team>, k: TeamKey)
    ensures
        team_match(cands, k) is Some <==> known(cands, k, team_hit()),
{
    let pl = |t: Team| long_name_hit(t, k);
    let ps = |t: Team| short_name_hit(t, k);
    let pc = |t: Team| code_name_hit(t, k);
    lemma_first_index_in_range(cands, pl);
    lemma_first_index_in_range(cands, ps);
    lemma_first_index_in_range(cands, pc);
    if known(cands, k, team_hit()) {
        let j = choose|j: int| 0 <= j < cands.len() && team_hit()(k, #[trigger] cands[j]);
        if long_name_hit(cands[j], k) {
            assert(pl(cands[j]));
        } else if short_name_hit(cands[j], k) {
            assert(ps(cands[j]));
        } else {
            assert(pc(cands[j]));
            if !any_match(cands, pl) && !any_match(cands, ps) {
                assert(any_match(cands, pc));
            }
        }
    }
    if team_match(cands, k) is Some {
        let i = team_match(cands, k)->0;
        assert(team_hit()(k, cands[i]));
    }
}

/// The keys of institution rows.
pub open spec fn institution_keys(rows: Seq<InstitutionRow>) -> Seq<(Seq<char>, Seq<char>)> {
    rows.map_values(|r: InstitutionRow| institution_key(r))
}

/// The keys of judge rows.
pub open spec fn judge_keys(rows: Seq<JudgeRow>) -> Seq<Seq<char>> {
    rows.map_values(|r: JudgeRow| r.name@)
}

/// The keys of speaker rows.
pub open spec fn speaker_keys(rows: Seq<Speaker>) -> Seq<(Seq<char>, Option<Seq<char>>)> {
    rows.map_values(|r: Speaker| speaker_key(r))
}

/// The keys of team rows, given the known institutions and whether the run
/// puts the institution in front of every team's names.
pub open spec fn team_keys_of(rows: Seq<TeamRow>, insts: Seq<Institution>, prefix_all: bool) -> Seq<
    TeamKey,
> {
    rows.map_values(
        |r: TeamRow|
            team_key(r, institution_at(insts, team_institution(r.institution, insts)), prefix_all),
    )
}

/// No two teams are created for one key. Of two team rows with the same keys,
/// the later one has no team created, whatever the other rows are, provided
/// that the service answers every creation with a team which the resolver
/// finds again for its row.
pub proof fn lemma_team_created_once(
    rows: Seq<TeamRow>,
    insts: Seq<Institution>,
    prefix_all: bool,
    teams: Seq<Team>,
    answers: Seq<Team>,
    i: int,
    j: int,
)
    requires
        faithful(team_keys_of(rows, insts, prefix_all), answers, team_hit()),
        0 <= i < j < rows.len(),
        team_keys_of(rows, insts, prefix_all)[i] == team_keys_of(rows, insts, prefix_all)[j],
    ensures
        !creates(team_keys_of(rows, insts, prefix_all), teams, answers, team_hit(), j),
{
    crate::sync::lemma_same_key_created_once(
        team_keys_of(rows, insts, prefix_all),
        teams,
        answers,
        team_hit(),
        i,
        j,
    );
}

/// Idempotence of an import. Take the rows of one kind, the records known at
/// the start, and a service that answers every creation with a record which
/// the resolver finds again for the row. After one import of the rows, a
/// second import of the same rows creates no institution, no judge, no team
/// and no speaker: the known records are the same, and so is their number.
pub proof fn lemma_import_is_idempotent(
    institution_rows: Seq<InstitutionRow>,
    institutions: Seq<Institution>,
    institution_answers: (Seq<Institution>, Seq<Institution>),
    judge_rows: Seq<JudgeRow>,
    judges: Seq<Adjudicator>,
    judge_answers: (Seq<Adjudicator>, Seq<Adjudicator>),
    team_rows: Seq<TeamRow>,
    teams: Seq<Team>,
    team_answers: (Seq<Team>, Seq<Team>),
    prefix_all: bool,
    speaker_rows: Seq<Speaker>,
    speakers: Seq<SpeakerRecord>,
    speaker_answers: (Seq<SpeakerRecord>, Seq<SpeakerRecord>),
)
    requires
        faithful(institution_keys(institution_rows), institution_answers.0, institution_hit()),
        faithful(judge_keys(judge_rows), judge_answers.0, judge_hit()),
        faithful(speaker_keys(speaker_rows), speaker_answers.0, speaker_hit()),
        faithful(
            team_keys_of(
                team_rows,
                run(
                    institution_keys(institution_rows),
                    institutions,
                    institution_answers.0,
                    institution_hit(),
                ),
                prefix_all,
            ),
            team_answers.0,
            team_hit(),
        ),
    ensures
        ({
            let keys = institution_keys(institution_rows);
            let first = run(keys, institutions, institution_answers.0, institution_hit());
            let second = run(keys, first, institution_answers.1, institution_hit());
            second == first && second.len() == first.len()
        }),
        ({
            let keys = judge_keys(judge_rows);
            let first = run(keys, judges, judge_answers.0, judge_hit());
            let second = run(keys, first, judge_answers.1, judge_hit());
            second == first && second.len() == first.len()
        }),
        ({
            let insts = run(
                institution_keys(institution_rows),
                institutions,
                institution_answers.0,
                institution_hit(),
            );
            let keys = team_keys_of(team_rows, insts, prefix_all);
            let first = run(keys, teams, team_answers.0, team_hit());
            let second = run(keys, first, team_answers.1, team_hit());
            second == first && second.len() == first.len()
        }),
        ({
            let keys = speaker_keys(speaker_rows);
            let first = run(keys, speakers, speaker_answers.0, speaker_hit());
            let second = run(keys, first, speaker_answers.1, speaker_hit());
            second == first && second.len() == first.len()
        }),
{
    let insts = run(
        institution_keys(institution_rows),
        institutions,
        institution_answers.0,
        institution_hit(),
    );
    lemma_second_run_creates_nothing(
        institution_keys(institution_rows),
        institutions,
        institution_answers.0,
        institution_answers.1,
        institution_hit(),
    );
    lemma_second_run_creates_nothing(
        judge_keys(judge_rows),
        judges,
        judge_answers.0,
        judge_answers.1,
        judge_hit(),
    );
    lemma_second_run_creates_nothing(
        team_keys_of(team_rows, insts, prefix_all),
        teams,
        team_answers.0,
        team_answers.1,
        team_hit(),
    );
    lemma_second_run_creates_nothing(
        speaker_keys(speaker_rows),
        speakers,
        speaker_answers.0,
        speaker_answers.1,
        speaker_hit(),
    );
}

} // verus!
