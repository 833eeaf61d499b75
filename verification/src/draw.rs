//! Editing a draw: swapping two teams or two judges, putting a judge on a
//! panel and taking one off.
//!
//! Every edit works on the pairings of a round as they were fetched, and
//! yields the patches to send: for each pairing that changes, its new teams or
//! its new panel.

use crate::entities::{copy_texts, opt_text, texts, Adjudicator, Team};
use crate::resolve::{
    any_match, first_equal_in_either, first_index, lemma_first_index,
    lemma_first_index_in_range, lemma_first_index_mapped, pairs_of_texts, pos,
};
use crate::text::{
    decimal, lowercase, parse_i64, parsed_i64, same, to_decimal, to_lower, trim, trimmed,
};
use vstd::prelude::*;

verus! {

/// The side of a team in a debate.
#[derive(Debug, Clone, Copy, PartialEq, Eq)]
pub enum Side {
    Aff,
    Neg,
    Cg,
    Co,
    Bye,
}

/// A team in a pairing.
#[derive(Debug, Clone, PartialEq, Eq)]
pub struct DebateTeam {
    /// URL of the team.
    pub team: String,
    pub side: Option<Side>,
    pub flags: Vec<String>,
}

/// The judges of a pairing, by URL.
#[derive(Debug, Clone, PartialEq, Eq)]
pub struct Panel {
    pub chair: Option<String>,
    pub panellists: Vec<String>,
    pub trainees: Vec<String>,
}

/// A panel as texts.
pub struct PanelView {
    pub chair: Option<Seq<char>>,
    pub panellists: Seq<Seq<char>>,
    pub trainees: Seq<Seq<char>>,
}

impl View for Panel {
    type V = PanelView;

    open spec fn view(&self) -> PanelView {
        PanelView {
            chair: opt_text(self.chair),
            panellists: texts(self.panellists@),
            trainees: texts(self.trainees@),
        }
    }
}

/// One debate of a round.
#[derive(Debug, Clone, PartialEq, Eq)]
pub struct Pairing {
    pub id: i64,
    pub url: String,
    pub teams: Vec<DebateTeam>,
    pub adjudicators: Option<Panel>,
    pub room_rank: Option<i32>,
    pub sides_confirmed: Option<bool>,
}

/// What a key of an edit stands for, with its position among the known
/// records of its kind.
#[derive(Debug, Clone, Copy, PartialEq, Eq)]
pub enum Kind {
    Judge(usize),
    Team(usize),
}

/// Why a draw could not be edited.
#[derive(Debug, Clone, PartialEq, Eq)]
pub enum DrawError {
    /// The key stands for no team and no judge.
    Unknown(String),
    /// Both keys stand for the same record.
    Identical,
    /// One key stands for a judge and the other for a team.
    JudgeAgainstTeam,
    /// The record with this URL is in no pairing of the round.
    NotOnDraw(String),
    /// The key stands for a team where a judge is needed.
    NotAJudge,
    /// The room is no whole number.
    BadRoom,
    /// The role is none of `c`, `chair`, `p`, `panellist`, `t`, `trainee`.
    BadRole,
    /// No pairing has this number.
    NoSuchPairing(i64),
}

/// A key as it is compared: in lower case and trimmed.
pub open spec fn folded(s: Seq<char>) -> Seq<char> {
    trimmed(lowercase(s))
}

/// The team has the folded key as its long or as its short name.
pub open spec fn team_answers(team: Team, key: Seq<char>) -> bool {
    folded(team.long_name@) == key || folded(team.short_name@) == key
}

/// The judge has the folded key as its name or as its number.
pub open spec fn judge_answers(judge: Adjudicator, key: Seq<char>) -> bool {
    folded(judge.name@) == key || trimmed(decimal(judge.id as int)) == key
}

/// What a folded key stands for: the first team that answers to it, or else
/// the first judge.
pub open spec fn kind_of(key: Seq<char>, teams: Seq<Team>, judges: Seq<Adjudicator>) -> Option<Kind> {
    if any_match(teams, |t: Team| team_answers(t, key)) {
        Some(Kind::Team(first_index(teams, |t: Team| team_answers(t, key))->0 as usize))
    } else if any_match(judges, |j: Adjudicator| judge_answers(j, key)) {
        Some(Kind::Judge(first_index(judges, |j: Adjudicator| judge_answers(j, key))->0 as usize))
    } else {
        None
    }
}

/// The position that a kind holds lies within the records of its kind.
pub open spec fn kind_in_range(kind: Kind, teams: Seq<Team>, judges: Seq<Adjudicator>) -> bool {
    match kind {
        Kind::Judge(i) => i < judges.len(),
        Kind::Team(i) => i < teams.len(),
    }
}

fn fold(s: &str) -> (r: String)
    ensures
        r@ == folded(s@),
{
    let lower = to_lower(s);
    trim(lower.as_str())
}

fn folded_team_names(teams: &Vec<Team>) -> (r: Vec<(String, String)>)
    ensures
        r@.len() == teams@.len(),
        forall|i: int|
            0 <= i < teams@.len() ==> (#[trigger] r@[i]).0@ == folded(teams@[i].long_name@)
                && r@[i].1@ == folded(teams@[i].short_name@),
{
    let mut r: Vec<(String, String)> = Vec::new();
    let mut i: usize = 0;
    while i < teams.len()
        invariant
            i <= teams.len(),
            r@.len() == i,
            forall|j: int|
                0 <= j < i ==> (#[trigger] r@[j]).0@ == folded(teams@[j].long_name@) && r@[j].1@
                    == folded(teams@[j].short_name@),
        decreases teams.len() - i,
    {
        r.push((fold(teams[i].long_name.as_str()), fold(teams[i].short_name.as_str())));
        i += 1;
    }
    r
}

fn folded_judge_names(judges: &Vec<Adjudicator>) -> (r: Vec<(String, String)>)
    ensures
        r@.len() == judges@.len(),
        forall|i: int|
            0 <= i < judges@.len() ==> (#[trigger] r@[i]).0@ == folded(judges@[i].name@)
                && r@[i].1@ == trimmed(decimal(judges@[i].id as int)),
{
    let mut r: Vec<(String, String)> = Vec::new();
    let mut i: usize = 0;
    while i < judges.len()
        invariant
            i <= judges.len(),
            r@.len() == i,
            forall|j: int|
                0 <= j < i ==> (#[trigger] r@[j]).0@ == folded(judges@[j].name@) && r@[j].1@
                    == trimmed(decimal(judges@[j].id as int)),
        decreases judges.len() - i,
    {
        let digits = to_decimal(judges[i].id);
        r.push((fold(judges[i].name.as_str()), trim(digits.as_str())));
        i += 1;
    }
    r
}

fn find_team_answering(teams: &Vec<Team>, key: &str) -> (r: Option<usize>)
    ensures
        pos(r) == first_index(teams@, |t: Team| team_answers(t, key@)),
        r is Some <==> any_match(teams@, |t: Team| team_answers(t, key@)),
        r is Some ==> r->0 < teams.len(),
{
    let names = folded_team_names(teams);
    proof {
        assert forall|i: int| 0 <= i < names@.len() implies (|t: (Seq<char>, Seq<char>)|
            t.0 == key@ || t.1 == key@)(#[trigger] pairs_of_texts(names@)[i]) == (|t: Team|
            team_answers(t, key@))(teams@[i]) by {
            assert(pairs_of_texts(names@)[i] == (names@[i].0@, names@[i].1@));
        }
        lemma_first_index_mapped(
            pairs_of_texts(names@),
            teams@,
            |t: (Seq<char>, Seq<char>)| t.0 == key@ || t.1 == key@,
            |t: Team| team_answers(t, key@),
        );
        lemma_first_index_in_range(teams@, |t: Team| team_answers(t, key@));
        lemma_first_index(
            teams@,
            |t: Team| team_answers(t, key@),
            first_index(teams@, |t: Team| team_answers(t, key@)),
        );
    }
    first_equal_in_either(&names, key)
}

fn find_judge_answering(judges: &Vec<Adjudicator>, key: &str) -> (r: Option<usize>)
    ensures
        pos(r) == first_index(judges@, |j: Adjudicator| judge_answers(j, key@)),
        r is Some <==> any_match(judges@, |j: Adjudicator| judge_answers(j, key@)),
        r is Some ==> r->0 < judges.len(),
{
    let names = folded_judge_names(judges);
    proof {
        assert forall|i: int| 0 <= i < names@.len() implies (|t: (Seq<char>, Seq<char>)|
            t.0 == key@ || t.1 == key@)(#[trigger] pairs_of_texts(names@)[i]) == (|j: Adjudicator|
            judge_answers(j, key@))(judges@[i]) by {
            assert(pairs_of_texts(names@)[i] == (names@[i].0@, names@[i].1@));
        }
        lemma_first_index_mapped(
            pairs_of_texts(names@),
            judges@,
            |t: (Seq<char>, Seq<char>)| t.0 == key@ || t.1 == key@,
            |j: Adjudicator| judge_answers(j, key@),
        );
        lemma_first_index_in_range(judges@, |j: Adjudicator| judge_answers(j, key@));
        lemma_first_index(
            judges@,
            |j: Adjudicator| judge_answers(j, key@),
            first_index(judges@, |j: Adjudicator| judge_answers(j, key@)),
        );
    }
    first_equal_in_either(&names, key)
}

/// What a folded key stands for.
pub fn find_kind(key: &str, teams: &Vec<Team>, judges: &Vec<Adjudicator>) -> (r: Option<Kind>)
    ensures
        r == kind_of(key@, teams@, judges@),
        r is Some ==> kind_in_range(r->0, teams@, judges@),
{
    if let Some(i) = find_team_answering(teams, key) {
        return Some(Kind::Team(i));
    }
    if let Some(i) = find_judge_answering(judges, key) {
        return Some(Kind::Judge(i));
    }
    None
}

/// What a key stands for: a team by its long or short name, or else a judge by
/// name or number, without regard to letter case or to white space around
/// the key.
pub fn kind(a: &str, teams: &Vec<Team>, judges: &Vec<Adjudicator>) -> (r: Result<Kind, DrawError>)
    ensures
        match r {
            Ok(k) => kind_of(folded(a@), teams@, judges@) == Some(k) && kind_in_range(
                k,
                teams@,
                judges@,
            ),
            Err(e) => kind_of(folded(a@), teams@, judges@) is None && e is Unknown
                && e->Unknown_0@ == a@,
        },
{
    let key = fold(a);
    match find_kind(key.as_str(), teams, judges) {
        Some(k) => Ok(k),
        None => Err(DrawError::Unknown(a.to_owned())),
    }
}

impl Kind {
    /// The URL of the record.
    pub fn url(&self, teams: &Vec<Team>, judges: &Vec<Adjudicator>) -> (r: String)
        requires
            kind_in_range(*self, teams@, judges@),
        ensures
            r@ == kind_url(*self, teams@, judges@),
    {
        match self {
            Kind::Judge(i) => judges[*i].url.clone(),
            Kind::Team(i) => teams[*i].url.clone(),
        }
    }
}

/// The URL of the record that a kind stands for.
pub open spec fn kind_url(kind: Kind, teams: Seq<Team>, judges: Seq<Adjudicator>) -> Seq<char> {
    match kind {
        Kind::Judge(i) => judges[i as int].url@,
        Kind::Team(i) => teams[i as int].url@,
    }
}

/// A place on a panel.
#[derive(Debug, Clone, Copy, PartialEq, Eq)]
pub enum Seat {
    Chair,
    Panellist(usize),
    Trainee(usize),
}

/// The last position of `item` in `list`.
pub open spec fn last_index(list: Seq<Seq<char>>, item: Seq<char>) -> Option<int>
    decreases list.len(),
{
    if list.len() == 0 {
        None
    } else if list.last() == item {
        Some(list.len() - 1)
    } else {
        last_index(list.drop_last(), item)
    }
}

/// The judge is on the panel.
pub open spec fn on_panel(panel: PanelView, url: Seq<char>) -> bool {
    panel.chair == Some(url) || panel.panellists.contains(url) || panel.trainees.contains(url)
}

/// The seat of a judge that an edit changes: the last trainee's seat that the
/// judge has, or else the last panellist's seat, or else the chair.
pub open spec fn seat_of(panel: PanelView, url: Seq<char>) -> Option<Seat> {
    if last_index(panel.trainees, url) is Some {
        Some(Seat::Trainee(last_index(panel.trainees, url)->0 as usize))
    } else if last_index(panel.panellists, url) is Some {
        Some(Seat::Panellist(last_index(panel.panellists, url)->0 as usize))
    } else if panel.chair == Some(url) {
        Some(Seat::Chair)
    } else {
        None
    }
}

/// The panel with another judge on a seat.
pub open spec fn with_seat(panel: PanelView, seat: Seat, url: Seq<char>) -> PanelView {
    match seat {
        Seat::Chair => PanelView { chair: Some(url), ..panel },
        Seat::Panellist(i) => PanelView {
            panellists: panel.panellists.update(i as int, url),
            ..panel
        },
        Seat::Trainee(i) => PanelView { trainees: panel.trainees.update(i as int, url), ..panel },
    }
}

/// The panel with `to` on the seat of `from`, or nothing where `from` is not
/// on the panel.
pub open spec fn reseated(panel: PanelView, from: Seq<char>, to: Seq<char>) -> Option<PanelView> {
    match seat_of(panel, from) {
        Some(seat) => Some(with_seat(panel, seat, to)),
        None => None,
    }
}

/// What [`last_index`] finds is a position of the item, and the list holds the
/// item exactly if it finds one.
pub proof fn lemma_last_index(list: Seq<Seq<char>>, item: Seq<char>)
    ensures
        last_index(list, item) is Some <==> list.contains(item),
        last_index(list, item) is Some ==> 0 <= last_index(list, item)->0 < list.len()
            && list[last_index(list, item)->0] == item,
    decreases list.len(),
{
    if list.len() > 0 {
        lemma_last_index(list.drop_last(), item);
        if list.last() != item {
            if list.contains(item) {
                let i = choose|i: int| 0 <= i < list.len() && list[i] == item;
                assert(list.drop_last()[i] == item);
            }
            if list.drop_last().contains(item) {
                let i = choose|i: int| 0 <= i < list.drop_last().len() && list.drop_last()[i] == item;
                assert(list[i] == item);
            }
        } else {
            assert(list[list.len() - 1] == item);
        }
    }
}

fn find_last(list: &Vec<String>, item: &str) -> (r: Option<usize>)
    ensures
        pos(r) == last_index(texts(list@), item@),
        r is Some ==> r->0 < list.len(),
{
    let ghost all = texts(list@);
    let mut i: usize = list.len();
    assert(all.take(i as int) == all);
    while i > 0
        invariant
            i <= list.len(),
            all == texts(list@),
            last_index(all, item@) == last_index(all.take(i as int), item@),
        decreases i,
    {
        i -= 1;
        proof {
            assert(all.take(i as int + 1).drop_last() == all.take(i as int));
            assert(all.take(i as int + 1).last() == list@[i as int]@);
        }
        if same(list[i].as_str(), item) {
            return Some(i);
        }
    }
    None
}

/// The seat of a judge on a panel.
pub fn find_seat(panel: &Panel, url: &str) -> (r: Option<Seat>)
    ensures
        r == seat_of(panel@, url@),
        r is Some <==> on_panel(panel@, url@),
        r matches Some(Seat::Panellist(i)) ==> i < panel.panellists.len(),
        r matches Some(Seat::Trainee(i)) ==> i < panel.trainees.len(),
        r is Some ==> has_seat(panel@, r->0),
{
    proof {
        lemma_last_index(panel@.trainees, url@);
        lemma_last_index(panel@.panellists, url@);
    }
    if let Some(i) = find_last(&panel.trainees, url) {
        return Some(Seat::Trainee(i));
    }
    if let Some(i) = find_last(&panel.panellists, url) {
        return Some(Seat::Panellist(i));
    }
    match &panel.chair {
        Some(c) => {
            if same(c.as_str(), url) {
                Some(Seat::Chair)
            } else {
                None
            }
        },
        None => None,
    }
}

/// A copy of a panel.
pub fn copy_panel(panel: &Panel) -> (r: Panel)
    ensures
        r@ == panel@,
{
    let chair = match &panel.chair {
        Some(c) => Some(c.clone()),
        None => None,
    };
    let panellists = copy_texts(&panel.panellists);
    let trainees = copy_texts(&panel.trainees);
    Panel { chair, panellists, trainees }
}

/// The panel has the seat.
pub open spec fn has_seat(panel: PanelView, seat: Seat) -> bool {
    match seat {
        Seat::Chair => true,
        Seat::Panellist(i) => i < panel.panellists.len(),
        Seat::Trainee(i) => i < panel.trainees.len(),
    }
}

/// The panel with another judge on one of its seats.
pub fn put_on_seat(panel: &Panel, seat: Seat, url: &str) -> (r: Panel)
    requires
        has_seat(panel@, seat),
    ensures
        r@ == with_seat(panel@, seat, url@),
{
    let mut next = copy_panel(panel);
    match seat {
        Seat::Chair => {
            next.chair = Some(url.to_owned());
        },
        Seat::Panellist(i) => {
            next.panellists.set(i, url.to_owned());
            assert(texts(next.panellists@) =~= texts(panel.panellists@).update(i as int, url@));
        },
        Seat::Trainee(i) => {
            next.trainees.set(i, url.to_owned());
            assert(texts(next.trainees@) =~= texts(panel.trainees@).update(i as int, url@));
        },
    }
    next
}

/// The panel with `to` on the seat of `from`.
pub fn reseat(panel: &Panel, from: &str, to: &str) -> (r: Option<Panel>)
    ensures
        match r {
            Some(p) => reseated(panel@, from@, to@) == Some(p@),
            None => reseated(panel@, from@, to@) is None,
        },
{
    match find_seat(panel, from) {
        Some(seat) => Some(put_on_seat(panel, seat, to)),
        None => None,
    }
}

/// The panel after two of its judges have changed seats: the seat of the
/// first has the second, the seat of the second has the first, and every
/// other seat is as it was. Nothing where one of the two is not on the panel.
pub open spec fn seats_swapped(panel: PanelView, first: Seq<char>, second: Seq<char>) -> Option<
    PanelView,
> {
    match (seat_of(panel, first), seat_of(panel, second)) {
        (Some(a), Some(b)) => Some(with_seat(with_seat(panel, a, second), b, first)),
        _ => None,
    }
}

/// The panel after two of its judges have changed seats.
pub fn swap_seats(panel: &Panel, first: &str, second: &str) -> (r: Option<Panel>)
    ensures
        match r {
            Some(p) => seats_swapped(panel@, first@, second@) == Some(p@),
            None => seats_swapped(panel@, first@, second@) is None,
        },
{
    let a = match find_seat(panel, first) {
        Some(a) => a,
        None => {
            return None;
        },
    };
    let b = match find_seat(panel, second) {
        Some(b) => b,
        None => {
            return None;
        },
    };
    let one = put_on_seat(panel, a, second);
    Some(put_on_seat(&one, b, first))
}

/// A team in a pairing, as texts.
pub struct DebateTeamView {
    pub team: Seq<char>,
    pub side: Option<Side>,
    pub flags: Seq<Seq<char>>,
}

impl View for DebateTeam {
    type V = DebateTeamView;

    open spec fn view(&self) -> DebateTeamView {
        DebateTeamView { team: self.team@, side: self.side, flags: texts(self.flags@) }
    }
}

/// The teams of a pairing as texts.
pub open spec fn teams_view(teams: Seq<DebateTeam>) -> Seq<DebateTeamView> {
    teams.map_values(|t: DebateTeam| t@)
}

/// A change to one pairing: its URL, and its new panel or its new teams.
#[derive(Debug, Clone, PartialEq, Eq)]
pub enum PairingPatch {
    Adjudicators { url: String, panel: Panel },
    Teams { url: String, teams: Vec<DebateTeam> },
}

/// A change to one pairing, as texts.
pub enum PatchView {
    Adjudicators { url: Seq<char>, panel: PanelView },
    Teams { url: Seq<char>, teams: Seq<DebateTeamView> },
}

impl View for PairingPatch {
    type V = PatchView;

    open spec fn view(&self) -> PatchView {
        match self {
            PairingPatch::Adjudicators { url, panel } => PatchView::Adjudicators {
                url: url@,
                panel: panel@,
            },
            PairingPatch::Teams { url, teams } => PatchView::Teams {
                url: url@,
                teams: teams_view(teams@),
            },
        }
    }
}

/// The patches as texts.
pub open spec fn patches_view(patches: Seq<PairingPatch>) -> Seq<PatchView> {
    patches.map_values(|p: PairingPatch| p@)
}

/// The judge is on the panel of the pairing.
pub open spec fn judge_in(pairing: Pairing, url: Seq<char>) -> bool {
    pairing.adjudicators is Some && on_panel(pairing.adjudicators->0@, url)
}

/// The first pairing that has the judge on its panel.
pub fn get_adj_pairing(pairings: &Vec<Pairing>, url: &str) -> (r: Option<usize>)
    ensures
        pos(r) == first_index(pairings@, |p: Pairing| judge_in(p, url@)),
        r is Some ==> r->0 < pairings.len() && judge_in(pairings@[r->0 as int], url@),
{
    let ghost p = |p: Pairing| judge_in(p, url@);
    let mut i: usize = 0;
    while i < pairings.len()
        invariant
            i <= pairings.len(),
            forall|j: int| 0 <= j < i ==> !p(#[trigger] pairings@[j]),
            p == (|p: Pairing| judge_in(p, url@)),
        decreases pairings.len() - i,
    {
        let hit = match &pairings[i].adjudicators {
            Some(panel) => find_seat(panel, url).is_some(),
            None => false,
        };
        if hit {
            proof {
                lemma_first_index(pairings@, p, Some(i as int));
            }
            return Some(i);
        }
        i += 1;
    }
    proof {
        lemma_first_index(pairings@, p, None);
    }
    None
}

/// The patches that swap two judges, or the URL of the judge that is not on
/// the draw.
///
/// Each judge is looked for in the first pairing that has it. Where the two
/// pairings have the same URL, the judges change seats within the first one,
/// which must have both. Otherwise each judge takes the seat of the other in
/// the other's pairing. No other seat changes.
pub open spec fn judge_swap(pairings: Seq<Pairing>, first: Seq<char>, second: Seq<char>) -> Result<
    Seq<PatchView>,
    Seq<char>,
> {
    let a = first_index(pairings, |p: Pairing| judge_in(p, first));
    let b = first_index(pairings, |p: Pairing| judge_in(p, second));
    if a is None {
        Err(first)
    } else if b is None {
        Err(second)
    } else {
        let pa = pairings[a->0];
        let pb = pairings[b->0];
        if pa.url@ == pb.url@ {
            match seats_swapped(pa.adjudicators->0@, first, second) {
                Some(panel) => Ok(seq![PatchView::Adjudicators { url: pa.url@, panel }]),
                None => Err(second),
            }
        } else {
            match (
                reseated(pa.adjudicators->0@, first, second),
                reseated(pb.adjudicators->0@, second, first),
            ) {
                (Some(x), Some(y)) => Ok(
                    seq![
                        PatchView::Adjudicators { url: pa.url@, panel: x },
                        PatchView::Adjudicators { url: pb.url@, panel: y },
                    ],
                ),
                (None, _) => Err(first),
                (_, None) => Err(second),
            }
        }
    }
}

/// Swaps two judges on the draw.
pub fn swap_judges(pairings: &Vec<Pairing>, first: &str, second: &str) -> (r: Result<
    Vec<PairingPatch>,
    DrawError,
>)
    ensures
        match r {
            Ok(patches) => judge_swap(pairings@, first@, second@) == Ok::<
                Seq<PatchView>,
                Seq<char>,
            >(patches_view(patches@)),
            Err(e) => e is NotOnDraw && judge_swap(pairings@, first@, second@) == Err::<
                Seq<PatchView>,
                Seq<char>,
            >(e->NotOnDraw_0@),
        },
{
    let a = match get_adj_pairing(pairings, first) {
        Some(a) => a,
        None => {
            return Err(DrawError::NotOnDraw(first.to_owned()));
        },
    };
    let b = match get_adj_pairing(pairings, second) {
        Some(b) => b,
        None => {
            return Err(DrawError::NotOnDraw(second.to_owned()));
        },
    };
    let panel_a = match &pairings[a].adjudicators {
        Some(p) => p,
        None => {
            return Err(DrawError::NotOnDraw(first.to_owned()));
        },
    };
    let panel_b = match &pairings[b].adjudicators {
        Some(p) => p,
        None => {
            return Err(DrawError::NotOnDraw(second.to_owned()));
        },
    };
    let mut patches: Vec<PairingPatch> = Vec::new();
    if same(pairings[a].url.as_str(), pairings[b].url.as_str()) {
        let panel = match swap_seats(panel_a, first, second) {
            Some(p) => p,
            None => {
                return Err(DrawError::NotOnDraw(second.to_owned()));
            },
        };
        patches.push(PairingPatch::Adjudicators { url: pairings[a].url.clone(), panel });
        assert(patches_view(patches@) =~= seq![
            PatchView::Adjudicators { url: pairings@[a as int].url@, panel: panel@ },
        ]);
    } else {
        let x = match reseat(panel_a, first, second) {
            Some(p) => p,
            None => {
                return Err(DrawError::NotOnDraw(first.to_owned()));
            },
        };
        let y = match reseat(panel_b, second, first) {
            Some(p) => p,
            None => {
                return Err(DrawError::NotOnDraw(second.to_owned()));
            },
        };
        patches.push(PairingPatch::Adjudicators { url: pairings[a].url.clone(), panel: x });
        patches.push(PairingPatch::Adjudicators { url: pairings[b].url.clone(), panel: y });
        assert(patches_view(patches@) =~= seq![
            PatchView::Adjudicators { url: pairings@[a as int].url@, panel: x@ },
            PatchView::Adjudicators { url: pairings@[b as int].url@, panel: y@ },
        ]);
    }
    Ok(patches)
}

/// The teams after two URLs have changed places: a team with the first URL
/// has the second, a team with the second has the first, and every other team
/// is as it was.
pub open spec fn swapped(teams: Seq<DebateTeamView>, first: Seq<char>, second: Seq<char>) -> Seq<
    DebateTeamView,
> {
    teams.map_values(
        |t: DebateTeamView|
            if t.team == first {
                DebateTeamView { team: second, ..t }
            } else if t.team == second {
                DebateTeamView { team: first, ..t }
            } else {
                t
            },
    )
}

/// One of the teams has the URL.
pub open spec fn team_in(teams: Seq<DebateTeamView>, url: Seq<char>) -> bool {
    exists|i: int| 0 <= i < teams.len() && (#[trigger] teams[i]).team == url
}

/// The teams of a pairing after two URLs have changed places.
pub fn swap_team_urls(teams: &Vec<DebateTeam>, first: &str, second: &str) -> (r: Vec<DebateTeam>)
    ensures
        teams_view(r@) == swapped(teams_view(teams@), first@, second@),
{
    let mut r: Vec<DebateTeam> = Vec::new();
    let mut i: usize = 0;
    while i < teams.len()
        invariant
            i <= teams.len(),
            r@.len() == i,
            forall|j: int|
                0 <= j < i ==> (#[trigger] r@[j])@ == swapped(teams_view(teams@), first@, second@)[j],
        decreases teams.len() - i,
    {
        let old_team = &teams[i];
        assert(teams_view(teams@)[i as int] == old_team@);
        let team = if same(old_team.team.as_str(), first) {
            second.to_owned()
        } else if same(old_team.team.as_str(), second) {
            first.to_owned()
        } else {
            old_team.team.clone()
        };
        r.push(DebateTeam { team, side: old_team.side, flags: copy_texts(&old_team.flags) });
        i += 1;
    }
    assert(teams_view(r@) =~= swapped(teams_view(teams@), first@, second@));
    r
}

fn has_team(teams: &Vec<DebateTeam>, url: &str) -> (r: bool)
    ensures
        r == team_in(teams_view(teams@), url@),
{
    let mut i: usize = 0;
    while i < teams.len()
        invariant
            i <= teams.len(),
            forall|j: int| 0 <= j < i ==> (#[trigger] teams_view(teams@)[j]).team != url@,
        decreases teams.len() - i,
    {
        assert(teams_view(teams@)[i as int] == teams@[i as int]@);
        if same(teams[i].team.as_str(), url) {
            return true;
        }
        i += 1;
    }
    false
}

/// The first of the lists of teams that holds the URL.
pub fn pairing_of_team(lists: &Vec<Vec<DebateTeam>>, url: &str) -> (r: Option<usize>)
    ensures
        pos(r) == first_index(lists@, |l: Vec<DebateTeam>| team_in(teams_view(l@), url@)),
        r is Some ==> r->0 < lists.len(),
{
    let ghost p = |l: Vec<DebateTeam>| team_in(teams_view(l@), url@);
    let mut i: usize = 0;
    while i < lists.len()
        invariant
            i <= lists.len(),
            forall|j: int| 0 <= j < i ==> !p(#[trigger] lists@[j]),
            p == (|l: Vec<DebateTeam>| team_in(teams_view(l@), url@)),
        decreases lists.len() - i,
    {
        if has_team(&lists[i], url) {
            proof {
                lemma_first_index(lists@, p, Some(i as int));
            }
            return Some(i);
        }
        i += 1;
    }
    proof {
        lemma_first_index(lists@, p, None);
    }
    None
}

/// The teams of every pairing after two URLs have changed places.
pub open spec fn all_swapped(pairings: Seq<Pairing>, first: Seq<char>, second: Seq<char>) -> Seq<
    Seq<DebateTeamView>,
> {
    pairings.map_values(|p: Pairing| swapped(teams_view(p.teams@), first, second))
}

/// The position of the first list of teams that holds the URL.
pub open spec fn holder(lists: Seq<Seq<DebateTeamView>>, url: Seq<char>) -> Option<int> {
    first_index(lists, |l: Seq<DebateTeamView>| team_in(l, url))
}

/// The patches that swap two teams, or the URL of the team that is not on the
/// draw.
///
/// The two URLs change places in every pairing. The pairings that are sent are
/// the first one that then holds the first team and the first one that then
/// holds the second team, once where the two have the same URL.
pub open spec fn team_swap(pairings: Seq<Pairing>, first: Seq<char>, second: Seq<char>) -> Result<
    Seq<PatchView>,
    Seq<char>,
> {
    let after = all_swapped(pairings, first, second);
    let a = holder(after, first);
    let b = holder(after, second);
    if a is None {
        Err(first)
    } else if b is None {
        Err(second)
    } else if pairings[a->0].url@ != pairings[b->0].url@ {
        Ok(
            seq![
                PatchView::Teams { url: pairings[a->0].url@, teams: after[a->0] },
                PatchView::Teams { url: pairings[b->0].url@, teams: after[b->0] },
            ],
        )
    } else {
        Ok(seq![PatchView::Teams { url: pairings[a->0].url@, teams: after[a->0] }])
    }
}

/// The lists of teams as texts.
pub open spec fn lists_view(lists: Seq<Vec<DebateTeam>>) -> Seq<Seq<DebateTeamView>> {
    lists.map_values(|l: Vec<DebateTeam>| teams_view(l@))
}

fn copy_teams(teams: &Vec<DebateTeam>) -> (r: Vec<DebateTeam>)
    ensures
        teams_view(r@) == teams_view(teams@),
{
    let mut r: Vec<DebateTeam> = Vec::new();
    let mut i: usize = 0;
    while i < teams.len()
        invariant
            i <= teams.len(),
            r@.len() == i,
            forall|j: int| 0 <= j < i ==> (#[trigger] r@[j])@ == teams@[j]@,
        decreases teams.len() - i,
    {
        let t = &teams[i];
        r.push(DebateTeam { team: t.team.clone(), side: t.side, flags: copy_texts(&t.flags) });
        i += 1;
    }
    assert(teams_view(r@) =~= teams_view(teams@));
    r
}

/// Swaps two teams on the draw.
pub fn swap_teams(pairings: &Vec<Pairing>, first: &str, second: &str) -> (r: Result<
    Vec<PairingPatch>,
    DrawError,
>)
    ensures
        match r {
            Ok(patches) => team_swap(pairings@, first@, second@) == Ok::<Seq<PatchView>, Seq<char>>(
                patches_view(patches@),
            ),
            Err(e) => e is NotOnDraw && team_swap(pairings@, first@, second@) == Err::<
                Seq<PatchView>,
                Seq<char>,
            >(e->NotOnDraw_0@),
        },
{
    let ghost after = all_swapped(pairings@, first@, second@);
    let mut lists: Vec<Vec<DebateTeam>> = Vec::new();
    let mut i: usize = 0;
    while i < pairings.len()
        invariant
            i <= pairings.len(),
            lists@.len() == i,
            after == all_swapped(pairings@, first@, second@),
            forall|j: int| 0 <= j < i ==> teams_view((#[trigger] lists@[j])@) == after[j],
        decreases pairings.len() - i,
    {
        lists.push(swap_team_urls(&pairings[i].teams, first, second));
        i += 1;
    }
    assert(lists_view(lists@) =~= after);
    let a = pairing_of_team(&lists, first);
    let b = pairing_of_team(&lists, second);
    proof {
        let pa = |l: Vec<DebateTeam>| team_in(teams_view(l@), first@);
        let pb = |l: Vec<DebateTeam>| team_in(teams_view(l@), second@);
        let qa = |l: Seq<DebateTeamView>| team_in(l, first@);
        let qb = |l: Seq<DebateTeamView>| team_in(l, second@);
        lemma_first_index_mapped(lists@, after, pa, qa);
        lemma_first_index_mapped(lists@, after, pb, qb);
    }
    let a = match a {
        Some(a) => a,
        None => {
            return Err(DrawError::NotOnDraw(first.to_owned()));
        },
    };
    let b = match b {
        Some(b) => b,
        None => {
            return Err(DrawError::NotOnDraw(second.to_owned()));
        },
    };
    let mut patches: Vec<PairingPatch> = Vec::new();
    let teams_a = copy_teams(&lists[a]);
    patches.push(PairingPatch::Teams { url: pairings[a].url.clone(), teams: teams_a });
    if !same(pairings[a].url.as_str(), pairings[b].url.as_str()) {
        let teams_b = copy_teams(&lists[b]);
        patches.push(PairingPatch::Teams { url: pairings[b].url.clone(), teams: teams_b });
        assert(patches_view(patches@) =~= seq![
            PatchView::Teams { url: pairings@[a as int].url@, teams: after[a as int] },
            PatchView::Teams { url: pairings@[b as int].url@, teams: after[b as int] },
        ]);
    } else {
        assert(patches_view(patches@) =~= seq![
            PatchView::Teams { url: pairings@[a as int].url@, teams: after[a as int] },
        ]);
    }
    Ok(patches)
}

/// What has to be sent to swap the records that two folded keys stand for.
pub open spec fn swap_of(
    key_a: Seq<char>,
    key_b: Seq<char>,
    teams: Seq<Team>,
    judges: Seq<Adjudicator>,
    pairings: Seq<Pairing>,
) -> Result<Seq<PatchView>, Seq<char>>
    recommends
        kind_of(key_a, teams, judges) is Some,
        kind_of(key_b, teams, judges) is Some,
{
    let a = kind_of(key_a, teams, judges)->0;
    let b = kind_of(key_b, teams, judges)->0;
    if a is Judge {
        judge_swap(pairings, kind_url(a, teams, judges), kind_url(b, teams, judges))
    } else {
        team_swap(pairings, kind_url(a, teams, judges), kind_url(b, teams, judges))
    }
}

/// Swaps two teams, or two judges, on the draw of a round.
///
/// Both keys must stand for a team or a judge, for two different records, and
/// for two of a kind; the first key is looked at first.
pub fn swap(
    a: &str,
    b: &str,
    teams: &Vec<Team>,
    judges: &Vec<Adjudicator>,
    pairings: &Vec<Pairing>,
) -> (r: Result<Vec<PairingPatch>, DrawError>)
    ensures
        ({
            let ka = kind_of(folded(a@), teams@, judges@);
            let kb = kind_of(folded(b@), teams@, judges@);
            match r {
                Ok(patches) => ka is Some && kb is Some && kind_url(ka->0, teams@, judges@)
                    != kind_url(kb->0, teams@, judges@) && (ka->0 is Judge <==> kb->0 is Judge)
                    && swap_of(folded(a@), folded(b@), teams@, judges@, pairings@) == Ok::<
                    Seq<PatchView>,
                    Seq<char>,
                >(patches_view(patches@)),
                Err(DrawError::Unknown(key)) => (ka is None && key@ == a@) || (ka is Some && kb
                    is None && key@ == b@),
                Err(DrawError::Identical) => ka is Some && kb is Some && kind_url(
                    ka->0,
                    teams@,
                    judges@,
                ) == kind_url(kb->0, teams@, judges@),
                Err(DrawError::JudgeAgainstTeam) => ka is Some && kb is Some && kind_url(
                    ka->0,
                    teams@,
                    judges@,
                ) != kind_url(kb->0, teams@, judges@) && !(ka->0 is Judge <==> kb->0 is Judge),
                Err(DrawError::NotOnDraw(url)) => ka is Some && kb is Some && kind_url(
                    ka->0,
                    teams@,
                    judges@,
                ) != kind_url(kb->0, teams@, judges@) && (ka->0 is Judge <==> kb->0 is Judge)
                    && swap_of(folded(a@), folded(b@), teams@, judges@, pairings@) == Err::<
                    Seq<PatchView>,
                    Seq<char>,
                >(url@),
                Err(_) => false,
            }
        }),
{
    let ka = match kind(a, teams, judges) {
        Ok(k) => k,
        Err(e) => {
            return Err(e);
        },
    };
    let kb = match kind(b, teams, judges) {
        Ok(k) => k,
        Err(e) => {
            return Err(e);
        },
    };
    let url_a = ka.url(teams, judges);
    let url_b = kb.url(teams, judges);
    if same(url_a.as_str(), url_b.as_str()) {
        return Err(DrawError::Identical);
    }
    match (ka, kb) {
        (Kind::Judge(_), Kind::Judge(_)) => swap_judges(pairings, url_a.as_str(), url_b.as_str()),
        (Kind::Team(_), Kind::Team(_)) => swap_teams(pairings, url_a.as_str(), url_b.as_str()),
        _ => Err(DrawError::JudgeAgainstTeam),
    }
}

/// The role of a judge on a panel.
#[derive(Debug, Clone, Copy, PartialEq, Eq)]
pub enum Role {
    C,
    P,
    T,
}

/// The role that a word in lower case names.
pub open spec fn role_named(word: Seq<char>) -> Option<Role> {
    if word == "c"@ || word == "chair"@ {
        Some(Role::C)
    } else if word == "p"@ || word == "panellist"@ {
        Some(Role::P)
    } else if word == "t"@ || word == "trainee"@ {
        Some(Role::T)
    } else {
        None
    }
}

/// The role that a word in lower case names.
pub fn role_from_word(word: &str) -> (r: Option<Role>)
    ensures
        r == role_named(word@),
{
    if same(word, "c") || same(word, "chair") {
        Some(Role::C)
    } else if same(word, "p") || same(word, "panellist") {
        Some(Role::P)
    } else if same(word, "t") || same(word, "trainee") {
        Some(Role::T)
    } else {
        None
    }
}

/// The panel of a pairing, an empty one where it has none.
pub open spec fn panel_or_empty(pairing: Pairing) -> PanelView {
    match pairing.adjudicators {
        Some(p) => p@,
        None => PanelView { chair: None, panellists: Seq::empty(), trainees: Seq::empty() },
    }
}

/// The panel with one more judge in a role: a chair takes the place of the
/// chair, a panellist or a trainee comes last among these.
pub open spec fn with_judge(panel: PanelView, role: Role, url: Seq<char>) -> PanelView {
    match role {
        Role::C => PanelView { chair: Some(url), ..panel },
        Role::P => PanelView { panellists: panel.panellists.push(url), ..panel },
        Role::T => PanelView { trainees: panel.trainees.push(url), ..panel },
    }
}

/// The first pairing with the given number.
pub fn find_pairing(pairings: &Vec<Pairing>, id: i64) -> (r: Option<usize>)
    ensures
        pos(r) == first_index(pairings@, |p: Pairing| p.id == id),
        r is Some ==> r->0 < pairings.len(),
{
    let ghost p = |p: Pairing| p.id == id;
    let mut i: usize = 0;
    while i < pairings.len()
        invariant
            i <= pairings.len(),
            forall|j: int| 0 <= j < i ==> !p(#[trigger] pairings@[j]),
            p == (|p: Pairing| p.id == id),
        decreases pairings.len() - i,
    {
        if pairings[i].id == id {
            proof {
                lemma_first_index(pairings@, p, Some(i as int));
            }
            return Some(i);
        }
        i += 1;
    }
    proof {
        lemma_first_index(pairings@, p, None);
    }
    None
}

/// Puts the judge with the given URL on the panel of a pairing.
pub fn seat_judge(pairing: &Pairing, role: Role, url: &str) -> (r: PairingPatch)
    ensures
        r@ == (PatchView::Adjudicators {
            url: pairing.url@,
            panel: with_judge(panel_or_empty(*pairing), role, url@),
        }),
{
    let mut panel = match &pairing.adjudicators {
        Some(p) => copy_panel(p),
        None => {
            let empty = Panel { chair: None, panellists: Vec::new(), trainees: Vec::new() };
            assert(empty@.panellists =~= Seq::<Seq<char>>::empty());
            assert(empty@.trainees =~= Seq::<Seq<char>>::empty());
            empty
        },
    };
    let ghost before = panel@;
    match role {
        Role::C => {
            panel.chair = Some(url.to_owned());
        },
        Role::P => {
            panel.panellists.push(url.to_owned());
            assert(texts(panel.panellists@) =~= before.panellists.push(url@));
        },
        Role::T => {
            panel.trainees.push(url.to_owned());
            assert(texts(panel.trainees@) =~= before.trainees.push(url@));
        },
    }
    PairingPatch::Adjudicators { url: pairing.url.clone(), panel }
}

/// Puts a judge on a panel, given the room and the role as they were read.
pub fn add_judge_to(
    room: Option<i64>,
    role: Option<Role>,
    a: &str,
    teams: &Vec<Team>,
    judges: &Vec<Adjudicator>,
    pairings: &Vec<Pairing>,
) -> (r: Result<PairingPatch, DrawError>)
    ensures
        ({
            let k = kind_of(folded(a@), teams@, judges@);
            let at = first_index(pairings@, |p: Pairing| p.id == room->0);
            match r {
                Ok(patch) => room is Some && role is Some && k is Some && k->0 is Judge && at
                    is Some && patch@ == (PatchView::Adjudicators {
                    url: pairings@[at->0].url@,
                    panel: with_judge(
                        panel_or_empty(pairings@[at->0]),
                        role->0,
                        kind_url(k->0, teams@, judges@),
                    ),
                }),
                Err(DrawError::BadRoom) => room is None,
                Err(DrawError::BadRole) => room is Some && role is None,
                Err(DrawError::Unknown(key)) => room is Some && role is Some && k is None && key@
                    == a@,
                Err(DrawError::NotAJudge) => room is Some && role is Some && k is Some && k->0
                    is Team,
                Err(DrawError::NoSuchPairing(id)) => room == Some(id) && role is Some && k
                    is Some && k->0 is Judge && at is None,
                Err(_) => false,
            }
        }),
{
    let room = match room {
        Some(n) => n,
        None => {
            return Err(DrawError::BadRoom);
        },
    };
    let role = match role {
        Some(r) => r,
        None => {
            return Err(DrawError::BadRole);
        },
    };
    let judge = match kind(a, teams, judges) {
        Ok(Kind::Judge(i)) => i,
        Ok(Kind::Team(_)) => {
            return Err(DrawError::NotAJudge);
        },
        Err(e) => {
            return Err(e);
        },
    };
    match find_pairing(pairings, room) {
        Some(at) => Ok(seat_judge(&pairings[at], role, judges[judge].url.as_str())),
        None => Err(DrawError::NoSuchPairing(room)),
    }
}

/// Puts a judge on the panel of the pairing with the number `to`, in the role
/// that `role` names in any letter case. The room is checked first, then the
/// role, then the judge.
pub fn add_judge(
    to: &str,
    a: &str,
    role: &str,
    teams: &Vec<Team>,
    judges: &Vec<Adjudicator>,
    pairings: &Vec<Pairing>,
) -> (r: Result<PairingPatch, DrawError>)
    ensures
        ({
            let room = parsed_i64(to@);
            let part = role_named(lowercase(role@));
            let k = kind_of(folded(a@), teams@, judges@);
            let at = first_index(pairings@, |p: Pairing| p.id == room->0);
            match r {
                Ok(patch) => room is Some && part is Some && k is Some && k->0 is Judge && at
                    is Some && patch@ == (PatchView::Adjudicators {
                    url: pairings@[at->0].url@,
                    panel: with_judge(
                        panel_or_empty(pairings@[at->0]),
                        part->0,
                        kind_url(k->0, teams@, judges@),
                    ),
                }),
                Err(DrawError::BadRoom) => room is None,
                Err(DrawError::BadRole) => room is Some && part is None,
                Err(DrawError::Unknown(key)) => room is Some && part is Some && k is None && key@
                    == a@,
                Err(DrawError::NotAJudge) => room is Some && part is Some && k is Some && k->0
                    is Team,
                Err(DrawError::NoSuchPairing(id)) => room == Some(id) && part is Some && k
                    is Some && k->0 is Judge && at is None,
                Err(_) => false,
            }
        }),
{
    let room = parse_i64(to);
    let lower = to_lower(role);
    let part = role_from_word(lower.as_str());
    add_judge_to(room, part, a, teams, judges, pairings)
}

/// The list without the item.
pub open spec fn without(list: Seq<Seq<char>>, item: Seq<char>) -> Seq<Seq<char>>
    decreases list.len(),
{
    if list.len() == 0 {
        Seq::empty()
    } else if list.last() == item {
        without(list.drop_last(), item)
    } else {
        without(list.drop_last(), item).push(list.last())
    }
}

/// The panel without a judge, whatever seats the judge has.
pub open spec fn without_judge(panel: PanelView, url: Seq<char>) -> PanelView {
    PanelView {
        chair: if panel.chair == Some(url) {
            None
        } else {
            panel.chair
        },
        panellists: without(panel.panellists, url),
        trainees: without(panel.trainees, url),
    }
}

fn remove_text(list: &Vec<String>, item: &str) -> (r: Vec<String>)
    ensures
        texts(r@) == without(texts(list@), item@),
{
    let ghost all = texts(list@);
    let mut r: Vec<String> = Vec::new();
    let mut i: usize = 0;
    assert(texts(r@) =~= without(all.take(0), item@));
    while i < list.len()
        invariant
            i <= list.len(),
            all == texts(list@),
            texts(r@) == without(all.take(i as int), item@),
        decreases list.len() - i,
    {
        proof {
            assert(all.take(i as int + 1).drop_last() == all.take(i as int));
            assert(all.take(i as int + 1).last() == list@[i as int]@);
        }
        if !same(list[i].as_str(), item) {
            let ghost before = texts(r@);
            r.push(list[i].clone());
            assert(texts(r@) =~= before.push(list@[i as int]@));
        }
        i += 1;
    }
    assert(all.take(list.len() as int) == all);
    r
}

/// Takes the judge with the given URL off a panel.
pub fn unseat_judge(panel: &Panel, url: &str) -> (r: Panel)
    ensures
        r@ == without_judge(panel@, url@),
{
    let chair = match &panel.chair {
        Some(c) => {
            if same(c.as_str(), url) {
                None
            } else {
                Some(c.clone())
            }
        },
        None => None,
    };
    Panel {
        chair,
        panellists: remove_text(&panel.panellists, url),
        trainees: remove_text(&panel.trainees, url),
    }
}

/// Takes a judge off the draw of a round: off every seat of the first panel
/// that has the judge.
pub fn remove(a: &str, teams: &Vec<Team>, judges: &Vec<Adjudicator>, pairings: &Vec<Pairing>) -> (r:
    Result<PairingPatch, DrawError>)
    ensures
        ({
            let k = kind_of(folded(a@), teams@, judges@);
            let url = kind_url(k->0, teams@, judges@);
            let at = first_index(pairings@, |p: Pairing| judge_in(p, url));
            match r {
                Ok(patch) => k is Some && k->0 is Judge && at is Some && patch@
                    == (PatchView::Adjudicators {
                    url: pairings@[at->0].url@,
                    panel: without_judge(pairings@[at->0].adjudicators->0@, url),
                }),
                Err(DrawError::Unknown(key)) => k is None && key@ == a@,
                Err(DrawError::NotAJudge) => k is Some && k->0 is Team,
                Err(DrawError::NotOnDraw(u)) => k is Some && k->0 is Judge && at is None && u@
                    == url,
                Err(_) => false,
            }
        }),
{
    let judge = match kind(a, teams, judges) {
        Ok(Kind::Judge(i)) => i,
        Ok(Kind::Team(_)) => {
            return Err(DrawError::NotAJudge);
        },
        Err(e) => {
            return Err(e);
        },
    };
    let url = &judges[judge].url;
    let at = match get_adj_pairing(pairings, url.as_str()) {
        Some(at) => at,
        None => {
            return Err(DrawError::NotOnDraw(url.clone()));
        },
    };
    match &pairings[at].adjudicators {
        Some(panel) => Ok(
            PairingPatch::Adjudicators {
                url: pairings[at].url.clone(),
                panel: unseat_judge(panel, url.as_str()),
            },
        ),
        None => Err(DrawError::NotOnDraw(url.clone())),
    }
}

} // verus!
