//! The draw of a round as a table: one row for each debate, with the teams by
//! side and the panel.

use crate::draw::{teams_view, DebateTeam, DebateTeamView, Pairing, Panel, PanelView, Side};
use crate::entities::{texts, Adjudicator, Team};
use crate::resolve::first_index;
use crate::text::join;
use vstd::prelude::*;

verus! {

/// One cell of the table.
#[derive(Debug, Clone, PartialEq, Eq)]
pub struct TableCell {
    pub text: String,
    /// Whether the cell is shown as a warning.
    pub warning: bool,
}

/// A cell as text.
pub struct CellText {
    pub text: Seq<char>,
    pub warning: bool,
}

impl View for TableCell {
    type V = CellText;

    open spec fn view(&self) -> CellText {
        CellText { text: self.text@, warning: self.warning }
    }
}

/// The table of a draw.
#[derive(Debug, Clone, PartialEq, Eq)]
pub struct DrawTable {
    pub headers: Vec<String>,
    pub rows: Vec<Vec<TableCell>>,
}

/// Why a draw could not be shown.
#[derive(Debug, Clone, Copy, PartialEq, Eq)]
pub enum ViewError {
    /// A debate has this many teams, which is neither 2 nor 4.
    TeamCount(i64),
    /// A team of a pairing is not among the known teams.
    UnknownTeam,
    /// A judge of a panel is not among the known judges.
    UnknownJudge,
    /// A team of a pairing has no side.
    NoSide,
    /// A team has a side that a debate of this size does not have.
    SideOutOfRange,
}

/// The headers of the table for debates of `count` teams.
pub open spec fn headers_for(count: i64) -> Option<Seq<Seq<char>>> {
    if count == 2 {
        Some(seq!["Nb"@, "Prop"@, "Opp"@, "Panel"@])
    } else if count == 4 {
        Some(seq!["Nb"@, "OG"@, "OO"@, "CG"@, "CO"@, "Panel"@])
    } else {
        None
    }
}

/// The headers of the table.
pub fn headers(count: i64) -> (r: Result<Vec<String>, ViewError>)
    ensures
        match r {
            Ok(h) => headers_for(count) == Some(texts(h@)),
            Err(e) => headers_for(count) is None && e == ViewError::TeamCount(count),
        },
{
    let mut h: Vec<String> = Vec::new();
    h.push("Nb".to_owned());
    if count == 2 {
        h.push("Prop".to_owned());
        h.push("Opp".to_owned());
    } else if count == 4 {
        h.push("OG".to_owned());
        h.push("OO".to_owned());
        h.push("CG".to_owned());
        h.push("CO".to_owned());
    } else {
        return Err(ViewError::TeamCount(count));
    }
    h.push("Panel".to_owned());
    assert(texts(h@) =~= headers_for(count)->0);
    Ok(h)
}

/// The short name of the first known team with the URL.
pub open spec fn team_name(teams: Seq<Team>, url: Seq<char>) -> Option<Seq<char>> {
    match first_index(teams, |t: Team| t.url@ == url) {
        Some(i) => Some(teams[i].short_name@),
        None => None,
    }
}

/// The name of the first known judge with the URL.
pub open spec fn judge_name(judges: Seq<Adjudicator>, url: Seq<char>) -> Option<Seq<char>> {
    match first_index(judges, |j: Adjudicator| j.url@ == url) {
        Some(i) => Some(judges[i].name@),
        None => None,
    }
}

/// The short name of the team with the URL.
pub fn name_of_team(teams: &Vec<Team>, url: &str) -> (r: Option<String>)
    ensures
        crate::entities::opt_text(r) == team_name(teams@, url@),
{
    match crate::import::find_team_by_url(teams, url) {
        Some(i) => Some(teams[i].short_name.clone()),
        None => None,
    }
}

/// The name of the judge with the URL.
pub fn name_of_judge(judges: &Vec<Adjudicator>, url: &str) -> (r: Option<String>)
    ensures
        crate::entities::opt_text(r) == judge_name(judges@, url@),
{
    match crate::import::find_judge_by_url(judges, url) {
        Some(i) => Some(judges[i].name.clone()),
        None => None,
    }
}

/// The column of a side among the columns of the teams.
pub open spec fn side_column(side: Side) -> int {
    match side {
        Side::Aff => 0,
        Side::Neg => 1,
        Side::Cg => 2,
        Side::Co => 3,
        Side::Bye => 4,
    }
}

/// One of the teams has a bye.
pub open spec fn has_bye(teams: Seq<DebateTeamView>) -> bool {
    exists|i: int| 0 <= i < teams.len() && (#[trigger] teams[i]).side == Some(Side::Bye)
}

/// The cells of the teams of a debate of `count` teams without a bye: every
/// team stands in the column of its side, by its short name. The first team in
/// order that has no side, is not known, or has a side beyond the columns, is
/// an error.
pub open spec fn placed(teams: Seq<DebateTeamView>, known: Seq<Team>, count: int) -> Result<
    Seq<Seq<char>>,
    ViewError,
>
    decreases teams.len(),
{
    if teams.len() == 0 {
        Ok(Seq::new(count as nat, |i: int| Seq::<char>::empty()))
    } else {
        match placed(teams.drop_last(), known, count) {
            Err(e) => Err(e),
            Ok(cells) => {
                let team = teams.last();
                if team.side is None {
                    Err(ViewError::NoSide)
                } else if team_name(known, team.team) is None {
                    Err(ViewError::UnknownTeam)
                } else if side_column(team.side->0) >= count {
                    Err(ViewError::SideOutOfRange)
                } else {
                    Ok(cells.update(side_column(team.side->0), team_name(known, team.team)->0))
                }
            },
        }
    }
}

/// The cells of the teams of a debate. A debate with a bye has one cell, for
/// its first team.
pub open spec fn team_cells(teams: Seq<DebateTeamView>, known: Seq<Team>, count: int) -> Result<
    Seq<Seq<char>>,
    ViewError,
> {
    if has_bye(teams) {
        match team_name(known, teams[0].team) {
            Some(name) => Ok(seq![name]),
            None => Err(ViewError::UnknownTeam),
        }
    } else {
        placed(teams, known, count)
    }
}

/// The line break between two judges.
pub open spec fn line_break() -> Seq<char> {
    seq!['\n']
}

/// The text of a list of judges behind `text`: each name with the mark of its
/// role behind it, and a line break in front where the panel has a chair.
pub open spec fn listed(
    text: Seq<char>,
    urls: Seq<Seq<char>>,
    judges: Seq<Adjudicator>,
    broken: bool,
    mark: Seq<char>,
) -> Option<Seq<char>>
    decreases urls.len(),
{
    if urls.len() == 0 {
        Some(text)
    } else {
        match listed(text, urls.drop_last(), judges, broken, mark) {
            None => None,
            Some(before) => match judge_name(judges, urls.last()) {
                None => None,
                Some(name) => Some(
                    before + (if broken {
                        line_break()
                    } else {
                        Seq::<char>::empty()
                    }) + name + mark,
                ),
            },
        }
    }
}

/// The text of the chair.
pub open spec fn chair_text(panel: PanelView, judges: Seq<Adjudicator>) -> Option<Seq<char>> {
    match panel.chair {
        Some(url) => match judge_name(judges, url) {
            Some(name) => Some(name + " (c)"@),
            None => None,
        },
        None => Some(Seq::<char>::empty()),
    }
}

/// The text of a panel: the chair with `(c)`, the panellists, the trainees
/// with `(t)`.
pub open spec fn panel_text(panel: Option<PanelView>, judges: Seq<Adjudicator>) -> Option<Seq<char>> {
    match panel {
        None => Some(Seq::<char>::empty()),
        Some(p) => match chair_text(p, judges) {
            None => None,
            Some(chair) => match listed(
                chair,
                p.panellists,
                judges,
                p.chair is Some,
                Seq::<char>::empty(),
            ) {
                None => None,
                Some(with_panel) => listed(with_panel, p.trainees, judges, p.chair is Some, " (t)"@),
            },
        },
    }
}

fn list_judges(
    head: &String,
    urls: &Vec<String>,
    judges: &Vec<Adjudicator>,
    broken: bool,
    mark: &str,
) -> (r: Option<String>)
    ensures
        crate::entities::opt_text(r) == listed(head@, texts(urls@), judges@, broken, mark@),
{
    let ghost all = texts(urls@);
    let ghost start = head@;
    let mut text = head.clone();
    let mut i: usize = 0;
    while i < urls.len()
        invariant
            i <= urls.len(),
            all == texts(urls@),
            start == head@,
            listed(start, all.take(i as int), judges@, broken, mark@) == Some(text@),
        decreases urls.len() - i,
    {
        proof {
            assert(all.take(i as int + 1).drop_last() == all.take(i as int));
            assert(all.take(i as int + 1).last() == urls@[i as int]@);
        }
        match name_of_judge(judges, urls[i].as_str()) {
            None => {
                proof {
                    assert(listed(start, all.take(i as int + 1), judges@, broken, mark@) is None);
                    lemma_listed_fails(start, all, judges@, broken, mark@, i as int + 1);
                }
                return None;
            },
            Some(name) => {
                if broken {
                    proof {
                        reveal_strlit("\n");
                        assert("\n"@ =~= line_break());
                    }
                    text.append("\n");
                } else {
                    assert(text@ + Seq::<char>::empty() =~= text@);
                }
                text.append(name.as_str());
                text.append(mark);
            },
        }
        i += 1;
    }
    assert(all.take(urls.len() as int) == all);
    Some(text)
}

/// A list that fails on a beginning fails as a whole.
proof fn lemma_listed_fails(
    text: Seq<char>,
    urls: Seq<Seq<char>>,
    judges: Seq<Adjudicator>,
    broken: bool,
    mark: Seq<char>,
    upto: int,
)
    requires
        0 <= upto <= urls.len(),
        listed(text, urls.take(upto), judges, broken, mark) is None,
    ensures
        listed(text, urls, judges, broken, mark) is None,
    decreases urls.len(),
{
    if upto < urls.len() {
        assert(urls.drop_last().take(upto) == urls.take(upto));
        lemma_listed_fails(text, urls.drop_last(), judges, broken, mark, upto);
    } else {
        assert(urls.take(upto) == urls);
    }
}

/// The text of a panel.
pub fn panel_cell(panel: &Option<Panel>, judges: &Vec<Adjudicator>) -> (r: Option<String>)
    ensures
        crate::entities::opt_text(r) == panel_text(
            match panel {
                Some(p) => Some(p@),
                None => None,
            },
            judges@,
        ),
{
    proof {
        reveal_strlit("");
        assert(""@ =~= Seq::<char>::empty());
    }
    match panel {
        None => Some(String::new()),
        Some(p) => {
            let chair = match &p.chair {
                Some(url) => match name_of_judge(judges, url.as_str()) {
                    Some(name) => join(name.as_str(), " (c)"),
                    None => {
                        return None;
                    },
                },
                None => String::new(),
            };
            let broken = p.chair.is_some();
            match list_judges(&chair, &p.panellists, judges, broken, "") {
                None => None,
                Some(with_panel) => list_judges(&with_panel, &p.trainees, judges, broken, " (t)"),
            }
        },
    }
}

fn any_bye(teams: &Vec<DebateTeam>) -> (r: bool)
    ensures
        r == has_bye(teams_view(teams@)),
{
    let mut i: usize = 0;
    while i < teams.len()
        invariant
            i <= teams.len(),
            forall|j: int| 0 <= j < i ==> (#[trigger] teams_view(teams@)[j]).side != Some(Side::Bye),
        decreases teams.len() - i,
    {
        assert(teams_view(teams@)[i as int] == teams@[i as int]@);
        match teams[i].side {
            Some(Side::Bye) => {
                return true;
            },
            _ => {},
        }
        i += 1;
    }
    false
}

fn column_of_side(side: Side) -> (r: usize)
    ensures
        r == side_column(side),
{
    match side {
        Side::Aff => 0,
        Side::Neg => 1,
        Side::Cg => 2,
        Side::Co => 3,
        Side::Bye => 4,
    }
}

/// A team cannot be placed once an earlier team could not.
proof fn lemma_placed_fails(
    teams: Seq<DebateTeamView>,
    known: Seq<Team>,
    count: int,
    upto: int,
)
    requires
        0 <= upto <= teams.len(),
        placed(teams.take(upto), known, count) is Err,
    ensures
        placed(teams, known, count) == placed(teams.take(upto), known, count),
    decreases teams.len(),
{
    if upto < teams.len() {
        assert(teams.drop_last().take(upto) == teams.take(upto));
        lemma_placed_fails(teams.drop_last(), known, count, upto);
    } else {
        assert(teams.take(upto) == teams);
    }
}

/// The cells of the teams of a debate.
pub fn cells_of_teams(teams: &Vec<DebateTeam>, known: &Vec<Team>, count: usize) -> (r: Result<
    Vec<String>,
    ViewError,
>)
    ensures
        match r {
            Ok(cells) => team_cells(teams_view(teams@), known@, count as int) == Ok::<
                Seq<Seq<char>>,
                ViewError,
            >(texts(cells@)),
            Err(e) => team_cells(teams_view(teams@), known@, count as int) == Err::<
                Seq<Seq<char>>,
                ViewError,
            >(e),
        },
{
    let ghost tv = teams_view(teams@);
    if any_bye(teams) {
        assert(teams.len() > 0);
        assert(tv[0] == teams@[0]@);
        return match name_of_team(known, teams[0].team.as_str()) {
            Some(name) => {
                let mut cells: Vec<String> = Vec::new();
                cells.push(name);
                assert(texts(cells@) =~= seq![name@]);
                Ok(cells)
            },
            None => Err(ViewError::UnknownTeam),
        };
    }
    let mut cells: Vec<String> = Vec::new();
    let mut k: usize = 0;
    while k < count
        invariant
            k <= count,
            cells@.len() == k,
            forall|j: int| 0 <= j < k ==> (#[trigger] cells@[j])@ == Seq::<char>::empty(),
        decreases count - k,
    {
        cells.push(String::new());
        k += 1;
    }
    assert(texts(cells@) =~= Seq::new(count as nat, |i: int| Seq::<char>::empty()));
    let mut i: usize = 0;
    assert(tv.take(0).len() == 0);
    while i < teams.len()
        invariant
            i <= teams.len(),
            tv == teams_view(teams@),
            !has_bye(tv),
            cells@.len() == count,
            placed(tv.take(i as int), known@, count as int) == Ok::<Seq<Seq<char>>, ViewError>(
                texts(cells@),
            ),
        decreases teams.len() - i,
    {
        proof {
            assert(tv.take(i as int + 1).drop_last() == tv.take(i as int));
            assert(tv.take(i as int + 1).last() == teams@[i as int]@);
        }
        let side = match teams[i].side {
            Some(s) => s,
            None => {
                proof {
                    assert(placed(tv.take(i as int + 1), known@, count as int) == Err::<
                        Seq<Seq<char>>,
                        ViewError,
                    >(ViewError::NoSide));
                    lemma_placed_fails(tv, known@, count as int, i as int + 1);
                }
                return Err(ViewError::NoSide);
            },
        };
        let name = match name_of_team(known, teams[i].team.as_str()) {
            Some(n) => n,
            None => {
                proof {
                    assert(placed(tv.take(i as int + 1), known@, count as int) == Err::<
                        Seq<Seq<char>>,
                        ViewError,
                    >(ViewError::UnknownTeam));
                    lemma_placed_fails(tv, known@, count as int, i as int + 1);
                }
                return Err(ViewError::UnknownTeam);
            },
        };
        let column = column_of_side(side);
        if column >= count {
            proof {
                assert(placed(tv.take(i as int + 1), known@, count as int) == Err::<
                    Seq<Seq<char>>,
                    ViewError,
                >(ViewError::SideOutOfRange));
                lemma_placed_fails(tv, known@, count as int, i as int + 1);
            }
            return Err(ViewError::SideOutOfRange);
        }
        let ghost before = texts(cells@);
        cells.set(column, name);
        assert(texts(cells@) =~= before.update(column as int, name@));
        i += 1;
    }
    assert(tv.take(teams.len() as int) == tv);
    Ok(cells)
}

/// The text of the first cell of a row: a warning unless the sides of the
/// debate are confirmed.
pub open spec fn sides_cell(confirmed: Option<bool>) -> CellText {
    if confirmed == Some(true) {
        CellText { text: Seq::<char>::empty(), warning: false }
    } else {
        CellText { text: "Sides not confirmed!"@, warning: true }
    }
}

/// A cell of plain text.
pub open spec fn plain(text: Seq<char>) -> CellText {
    CellText { text, warning: false }
}

/// The cells as text.
pub open spec fn row_view(row: Seq<TableCell>) -> Seq<CellText> {
    row.map_values(|c: TableCell| c@)
}

/// The row of a pairing: the cell of the sides, the cells of the teams, the
/// cell of the panel. Teams are looked at before judges.
pub open spec fn row_of(
    pairing: Pairing,
    teams: Seq<Team>,
    judges: Seq<Adjudicator>,
    count: int,
) -> Result<Seq<CellText>, ViewError> {
    match team_cells(teams_view(pairing.teams@), teams, count) {
        Err(e) => Err(e),
        Ok(cells) => match panel_text(
            match pairing.adjudicators {
                Some(p) => Some(p@),
                None => None,
            },
            judges,
        ) {
            None => Err(ViewError::UnknownJudge),
            Some(panel) => Ok(
                seq![sides_cell(pairing.sides_confirmed)] + cells.map_values(
                    |t: Seq<char>| plain(t),
                ) + seq![plain(panel)],
            ),
        },
    }
}

/// The row of a pairing.
pub fn row(pairing: &Pairing, teams: &Vec<Team>, judges: &Vec<Adjudicator>, count: usize) -> (r:
    Result<Vec<TableCell>, ViewError>)
    ensures
        match r {
            Ok(cells) => row_of(*pairing, teams@, judges@, count as int) == Ok::<
                Seq<CellText>,
                ViewError,
            >(row_view(cells@)),
            Err(e) => row_of(*pairing, teams@, judges@, count as int) == Err::<
                Seq<CellText>,
                ViewError,
            >(e),
        },
{
    let names = match cells_of_teams(&pairing.teams, teams, count) {
        Ok(names) => names,
        Err(e) => {
            return Err(e);
        },
    };
    let panel = match panel_cell(&pairing.adjudicators, judges) {
        Some(text) => text,
        None => {
            return Err(ViewError::UnknownJudge);
        },
    };
    let mut cells: Vec<TableCell> = Vec::new();
    match pairing.sides_confirmed {
        Some(true) => {
            cells.push(TableCell { text: String::new(), warning: false });
        },
        _ => {
            cells.push(TableCell { text: "Sides not confirmed!".to_owned(), warning: true });
        },
    }
    let mut i: usize = 0;
    while i < names.len()
        invariant
            i <= names.len(),
            cells@.len() == i + 1,
            cells@[0]@ == sides_cell(pairing.sides_confirmed),
            forall|j: int| 0 <= j < i ==> (#[trigger] cells@[j + 1])@ == plain(names@[j]@),
        decreases names.len() - i,
    {
        cells.push(TableCell { text: names[i].clone(), warning: false });
        i += 1;
    }
    cells.push(TableCell { text: panel, warning: false });
    proof {
        let middle = texts(names@).map_values(|t: Seq<char>| plain(t));
        let wanted = seq![sides_cell(pairing.sides_confirmed)] + middle + seq![plain(panel@)];
        assert(wanted.len() == names@.len() + 2);
        assert forall|j: int| 0 <= j < wanted.len() implies row_view(cells@)[j] == wanted[j] by {
            if j == 0 {
            } else if j <= names@.len() {
                assert(cells@[(j - 1) + 1]@ == plain(names@[j - 1]@));
                assert(middle[j - 1] == plain(names@[j - 1]@));
            } else {
            }
        }
        assert(row_view(cells@) =~= wanted);
    }
    Ok(cells)
}

/// The rows as text.
pub open spec fn rows_view(rows: Seq<Vec<TableCell>>) -> Seq<Seq<CellText>> {
    rows.map_values(|r: Vec<TableCell>| row_view(r@))
}

/// The rows of all pairings, in order, or the error of the first pairing that
/// cannot be shown.
pub open spec fn rows_of(
    pairings: Seq<Pairing>,
    teams: Seq<Team>,
    judges: Seq<Adjudicator>,
    count: int,
) -> Result<Seq<Seq<CellText>>, ViewError>
    decreases pairings.len(),
{
    if pairings.len() == 0 {
        Ok(Seq::empty())
    } else {
        match rows_of(pairings.drop_last(), teams, judges, count) {
            Err(e) => Err(e),
            Ok(rows) => match row_of(pairings.last(), teams, judges, count) {
                Err(e) => Err(e),
                Ok(row) => Ok(rows.push(row)),
            },
        }
    }
}

/// The rows cannot be made once the rows of a beginning cannot.
proof fn lemma_rows_fail(
    pairings: Seq<Pairing>,
    teams: Seq<Team>,
    judges: Seq<Adjudicator>,
    count: int,
    upto: int,
)
    requires
        0 <= upto <= pairings.len(),
        rows_of(pairings.take(upto), teams, judges, count) is Err,
    ensures
        rows_of(pairings, teams, judges, count) == rows_of(
            pairings.take(upto),
            teams,
            judges,
            count,
        ),
    decreases pairings.len(),
{
    if upto < pairings.len() {
        assert(pairings.drop_last().take(upto) == pairings.take(upto));
        lemma_rows_fail(pairings.drop_last(), teams, judges, count, upto);
    } else {
        assert(pairings.take(upto) == pairings);
    }
}

/// What is shown for a round: nothing where it has no draw; otherwise the
/// headers for debates of 2 or 4 teams and one row for each pairing.
pub open spec fn table_of(
    teams_in_debate: i64,
    pairings: Seq<Pairing>,
    teams: Seq<Team>,
    judges: Seq<Adjudicator>,
) -> Result<Option<(Seq<Seq<char>>, Seq<Seq<CellText>>)>, ViewError> {
    if pairings.len() == 0 {
        Ok(None)
    } else if headers_for(teams_in_debate) is None {
        Err(ViewError::TeamCount(teams_in_debate))
    } else {
        match rows_of(pairings, teams, judges, teams_in_debate as int) {
            Err(e) => Err(e),
            Ok(rows) => Ok(Some((headers_for(teams_in_debate)->0, rows))),
        }
    }
}

/// The table as text.
pub open spec fn table_view(table: Option<DrawTable>) -> Option<
    (Seq<Seq<char>>, Seq<Seq<CellText>>),
> {
    match table {
        Some(t) => Some((texts(t.headers@), rows_view(t.rows@))),
        None => None,
    }
}

/// The table of a draw, or nothing where the round has no draw.
pub fn view_draw(
    teams_in_debate: i64,
    pairings: &Vec<Pairing>,
    teams: &Vec<Team>,
    judges: &Vec<Adjudicator>,
) -> (r: Result<Option<DrawTable>, ViewError>)
    ensures
        match r {
            Ok(table) => table_of(teams_in_debate, pairings@, teams@, judges@) == Ok::<
                Option<(Seq<Seq<char>>, Seq<Seq<CellText>>)>,
                ViewError,
            >(table_view(table)),
            Err(e) => table_of(teams_in_debate, pairings@, teams@, judges@) == Err::<
                Option<(Seq<Seq<char>>, Seq<Seq<CellText>>)>,
                ViewError,
            >(e),
        },
{
    if pairings.len() == 0 {
        return Ok(None);
    }
    let head = match headers(teams_in_debate) {
        Ok(h) => h,
        Err(e) => {
            return Err(e);
        },
    };
    let count: usize = if teams_in_debate == 2 {
        2
    } else {
        4
    };
    let mut rows: Vec<Vec<TableCell>> = Vec::new();
    let mut i: usize = 0;
    assert(rows_view(rows@) =~= Seq::<Seq<CellText>>::empty());
    assert(pairings@.take(0).len() == 0);
    while i < pairings.len()
        invariant
            i <= pairings.len(),
            pairings@.len() > 0,
            count == teams_in_debate,
            headers_for(teams_in_debate) == Some(texts(head@)),
            rows_of(pairings@.take(i as int), teams@, judges@, count as int) == Ok::<
                Seq<Seq<CellText>>,
                ViewError,
            >(rows_view(rows@)),
        decreases pairings.len() - i,
    {
        proof {
            assert(pairings@.take(i as int + 1).drop_last() == pairings@.take(i as int));
            assert(pairings@.take(i as int + 1).last() == pairings@[i as int]);
        }
        match row(&pairings[i], teams, judges, count) {
            Ok(cells) => {
                let ghost before = rows_view(rows@);
                rows.push(cells);
                assert(rows_view(rows@) =~= before.push(row_view(cells@)));
            },
            Err(e) => {
                proof {
                    assert(rows_of(pairings@.take(i as int + 1), teams@, judges@, count as int)
                        == Err::<Seq<Seq<CellText>>, ViewError>(e));
                    lemma_rows_fail(pairings@, teams@, judges@, count as int, i as int + 1);
                }
                return Err(e);
            },
        }
        i += 1;
    }
    assert(pairings@.take(pairings.len() as int) == pairings@);
    Ok(Some(DrawTable { headers: head, rows }))
}

} // verus!
