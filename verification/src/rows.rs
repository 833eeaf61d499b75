//! Rows of the input sheets, one type per sheet.

use crate::entities::{opt_text, texts};
use crate::order::{is_stable_order, stable_order};
use crate::resolve::{first_index, lemma_first_index};
use crate::text::{
    eq_ignore_case, lowercase, parse_u8, parsed_u8, same, same_ignoring_case, split, split_first,
    split_on, split_once, starts_with, strip_prefix, to_lower, trim, trimmed,
};
use vstd::prelude::*;

verus! {

#[derive(Debug, Clone, PartialEq, Eq)]
pub struct InstitutionRow {
    pub region: Option<String>,
    pub short_code: String,
    pub full_name: String,
}

#[derive(Debug, Clone, PartialEq, Eq)]
pub struct RoomRow {
    pub categories: Vec<String>,
    pub external_url: Option<String>,
    pub barcode: Option<String>,
    pub name: String,
    pub priority: i64,
}

#[derive(Debug, Clone, PartialEq, Eq)]
pub struct Speaker {
    pub name: String,
    pub categories: Vec<String>,
    pub email: Option<String>,
    pub phone: Option<String>,
    pub anonymous: bool,
    pub code_name: Option<String>,
    pub url_key: Option<String>,
    pub gender: Option<String>,
    pub pronoun: Option<String>,
}

#[derive(Debug, Clone, PartialEq, Eq)]
pub struct TeamRow {
    pub full_name: String,
    /// Where absent, the service shortens the full name.
    pub short_name: Option<String>,
    pub categories: Vec<String>,
    pub code_name: Option<String>,
    pub institution: Option<String>,
    pub seed: Option<u32>,
    pub emoji: Option<String>,
    pub use_institution_prefix: bool,
    pub speakers: Vec<Speaker>,
}

#[derive(Debug, Clone, PartialEq, Eq)]
pub struct Clash {
    pub object_1: String,
    pub object_2: String,
}

#[derive(Debug, Clone, PartialEq, Eq)]
pub struct JudgeRow {
    pub name: String,
    pub institution: Option<String>,
    pub institution_clashes: Vec<String>,
    pub email: Option<String>,
    /// Member of the adjudication core.
    pub is_ca: bool,
    /// Independent adjudicator.
    pub is_ia: bool,
    /// The base score as the decimal text of the sheet; it is passed on
    /// unread.
    pub base_score: Option<String>,
    /// Names or abbreviations of the rounds in which the judge is available.
    pub availability: Vec<String>,
}

/// The default of a judge's flags when the sheet has no such column.
pub fn ret_false() -> (r: bool)
    ensures
        !r,
{
    false
}

/// The default of a team's institution-prefix flag when the sheet has no such
/// column.
pub fn not_true() -> (r: bool)
    ensures
        !r,
{
    false
}

/// Why a sheet could not be read.
#[derive(Debug, Clone, PartialEq, Eq)]
pub enum RowError {
    /// A flag is neither a word for yes nor a word for no. Holds the text.
    NotAFlag(String),
    /// The column at this position begins with `speaker` but does not go on
    /// with a number from 0 to 255, an underscore and a field.
    MalformedColumn(usize),
    /// The speaker of this number has no name.
    MissingName(u8),
}

/// What a word says about a flag: `t`, `true`, `1`, `on`, `y` and `yes` are
/// yes; `f`, `false`, `0`, `off`, `n`, `no` and the empty word are no.
pub open spec fn flag_of(word: Seq<char>) -> Option<bool> {
    if word == "t"@ || word == "true"@ || word == "1"@ || word == "on"@ || word == "y"@ || word
        == "yes"@ {
        Some(true)
    } else if word == "f"@ || word == "false"@ || word == "0"@ || word == "off"@ || word == "n"@
        || word == "no"@ || word == ""@ {
        Some(false)
    } else {
        None
    }
}

/// What a word, in lower case and trimmed, says about a flag.
pub fn flag_from_word(word: &str) -> (r: Option<bool>)
    ensures
        r == flag_of(word@),
{
    if same(word, "t") || same(word, "true") || same(word, "1") || same(word, "on") || same(
        word,
        "y",
    ) || same(word, "yes") {
        Some(true)
    } else if same(word, "f") || same(word, "false") || same(word, "0") || same(word, "off")
        || same(word, "n") || same(word, "no") || same(word, "") {
        Some(false)
    } else {
        None
    }
}

/// Reads a flag of a sheet, without regard to letter case or to white space
/// around it.
pub fn bool_from_str(text: &str) -> (r: Result<bool, RowError>)
    ensures
        match flag_of(trimmed(lowercase(text@))) {
            Some(b) => r == Ok::<bool, RowError>(b),
            None => r is Err && r->Err_0 is NotAFlag && r->Err_0->NotAFlag_0@ == trimmed(
                lowercase(text@),
            ),
        },
{
    let lower = to_lower(text);
    let word = trim(lower.as_str());
    match flag_from_word(word.as_str()) {
        Some(b) => Ok(b),
        None => Err(RowError::NotAFlag(word)),
    }
}

/// The texts of a list that are not empty, in order.
pub open spec fn non_empty(parts: Seq<Seq<char>>) -> Seq<Seq<char>>
    decreases parts.len(),
{
    if parts.len() == 0 {
        Seq::empty()
    } else if parts.last().len() == 0 {
        non_empty(parts.drop_last())
    } else {
        non_empty(parts.drop_last()).push(parts.last())
    }
}

/// The pieces of a list that are not empty.
pub fn keep_non_empty(parts: Vec<String>) -> (r: Vec<String>)
    ensures
        texts(r@) == non_empty(texts(parts@)),
{
    let ghost all = texts(parts@);
    let mut r: Vec<String> = Vec::new();
    let mut i: usize = 0;
    assert(texts(r@) =~= non_empty(all.take(0)));
    while i < parts.len()
        invariant
            i <= parts.len(),
            all == texts(parts@),
            texts(r@) == non_empty(all.take(i as int)),
        decreases parts.len() - i,
    {
        proof {
            assert(all.take(i as int + 1).drop_last() == all.take(i as int));
            assert(all.take(i as int + 1).last() == parts@[i as int]@);
        }
        if !parts[i].as_str().is_empty() {
            let ghost before = texts(r@);
            r.push(parts[i].clone());
            assert(texts(r@) =~= before.push(parts@[i as int]@));
        }
        i += 1;
    }
    assert(all.take(parts.len() as int) == all);
    r
}

/// Reads a list of tags: the pieces between commas, without the empty ones.
pub fn tags_deserialize(text: &str) -> (r: Vec<String>)
    ensures
        texts(r@) == non_empty(split_on(text@, ',')),
{
    keep_non_empty(split(text, ','))
}

/// The texts of a list that are not blank, in order and as they are.
pub open spec fn non_blank(parts: Seq<Seq<char>>) -> Seq<Seq<char>>
    decreases parts.len(),
{
    if parts.len() == 0 {
        Seq::empty()
    } else if trimmed(parts.last()).len() == 0 {
        non_blank(parts.drop_last())
    } else {
        non_blank(parts.drop_last()).push(parts.last())
    }
}

/// The texts of a list whose flag is set, in order. A text without a flag is
/// dropped.
pub open spec fn flagged(parts: Seq<Seq<char>>, keep: Seq<bool>) -> Seq<Seq<char>>
    decreases parts.len(),
{
    if parts.len() == 0 {
        Seq::empty()
    } else if parts.len() <= keep.len() && keep[parts.len() - 1] {
        flagged(parts.drop_last(), keep).push(parts.last())
    } else {
        flagged(parts.drop_last(), keep)
    }
}

/// The texts of a list whose flag is set.
pub fn keep_flagged(parts: &Vec<String>, keep: &Vec<bool>) -> (r: Vec<String>)
    ensures
        texts(r@) == flagged(texts(parts@), keep@),
{
    let ghost all = texts(parts@);
    let mut r: Vec<String> = Vec::new();
    let mut i: usize = 0;
    assert(texts(r@) =~= flagged(all.take(0), keep@));
    while i < parts.len()
        invariant
            i <= parts.len(),
            all == texts(parts@),
            texts(r@) == flagged(all.take(i as int), keep@),
        decreases parts.len() - i,
    {
        proof {
            assert(all.take(i as int + 1).drop_last() == all.take(i as int));
            assert(all.take(i as int + 1).last() == parts@[i as int]@);
        }
        if i < keep.len() && keep[i] {
            let ghost before = texts(r@);
            r.push(parts[i].clone());
            assert(texts(r@) =~= before.push(parts@[i as int]@));
        }
        i += 1;
    }
    assert(all.take(parts.len() as int) == all);
    r
}

/// Keeping the texts that are flagged as not blank keeps the texts that are
/// not blank.
pub proof fn lemma_flagged_non_blank(parts: Seq<Seq<char>>, keep: Seq<bool>)
    requires
        keep.len() == parts.len(),
        forall|i: int| 0 <= i < parts.len() ==> #[trigger] keep[i] == (trimmed(parts[i]).len() != 0),
    ensures
        flagged(parts, keep) == non_blank(parts),
    decreases parts.len(),
{
    if parts.len() > 0 {
        assert forall|i: int| 0 <= i < parts.drop_last().len() implies #[trigger] keep.drop_last()[i]
            == (trimmed(parts.drop_last()[i]).len() != 0) by {
            assert(keep.drop_last()[i] == keep[i]);
            assert(parts.drop_last()[i] == parts[i]);
        }
        lemma_flagged_non_blank(parts.drop_last(), keep.drop_last());
        lemma_flags_beyond(parts.drop_last(), keep);
    }
}

/// Flags beyond the end of the list do not count.
proof fn lemma_flags_beyond(parts: Seq<Seq<char>>, keep: Seq<bool>)
    requires
        parts.len() < keep.len(),
    ensures
        flagged(parts, keep) == flagged(parts, keep.drop_last()),
    decreases parts.len(),
{
    if parts.len() > 0 {
        lemma_flags_beyond(parts.drop_last(), keep);
        if parts.len() < keep.drop_last().len() {
            lemma_flags_beyond(parts.drop_last(), keep.drop_last());
        }
        assert(keep.drop_last()[parts.len() - 1] == keep[parts.len() - 1]);
    }
}

/// The pieces of a list that are more than white space.
pub fn keep_non_blank(parts: Vec<String>) -> (r: Vec<String>)
    ensures
        texts(r@) == non_blank(texts(parts@)),
{
    let mut keep: Vec<bool> = Vec::new();
    let mut i: usize = 0;
    while i < parts.len()
        invariant
            i <= parts.len(),
            keep@.len() == i,
            forall|j: int| 0 <= j < i ==> #[trigger] keep@[j] == (trimmed(parts@[j]@).len() != 0),
        decreases parts.len() - i,
    {
        let core = trim(parts[i].as_str());
        keep.push(!core.as_str().is_empty());
        i += 1;
    }
    proof {
        assert forall|j: int| 0 <= j < texts(parts@).len() implies #[trigger] keep@[j] == (trimmed(
            texts(parts@)[j],
        ).len() != 0) by {
            assert(texts(parts@)[j] == parts@[j]@);
        }
        lemma_flagged_non_blank(texts(parts@), keep@);
    }
    keep_flagged(&parts, &keep)
}

/// One field of one speaker, as a column of a team row gives it.
#[derive(Debug, Clone, PartialEq, Eq)]
pub struct Cell {
    /// The number of the speaker.
    pub number: u8,
    pub field: String,
    pub value: String,
    /// Whether the value is white space only.
    pub blank: bool,
}

/// A cell as texts.
pub struct CellView {
    pub number: u8,
    pub field: Seq<char>,
    pub value: Seq<char>,
    pub blank: bool,
}

impl View for Cell {
    type V = CellView;

    open spec fn view(&self) -> CellView {
        CellView { number: self.number, field: self.field@, value: self.value@, blank: self.blank }
    }
}

/// What a column says of a speaker.
pub enum Column {
    /// The column is not about a speaker.
    Other,
    /// The column begins with `speaker` and does not name a speaker and a
    /// field.
    Malformed,
    /// The column gives a field of a speaker.
    Field(CellView),
}

/// What the two parts of a column's name behind `speaker` say, given the
/// number that the first part writes: the second part is the field.
pub open spec fn column_of_parts(
    parts: Option<(Seq<char>, Seq<char>)>,
    number: Option<u8>,
    value: Seq<char>,
    blank: bool,
) -> Column {
    match (parts, number) {
        (Some(p), Some(n)) => Column::Field(CellView { number: n, field: p.1, value, blank }),
        _ => Column::Malformed,
    }
}

/// The number that the first part of a column's name writes, once trimmed.
pub open spec fn number_of(parts: Option<(Seq<char>, Seq<char>)>) -> Option<u8> {
    match parts {
        Some(p) => parsed_u8(trimmed(p.0)),
        None => None,
    }
}

/// What a column says of a speaker. A column about a speaker is named
/// `speaker`, the number of the speaker, an underscore and the field. The
/// field is all that follows the first underscore, so `speaker1_url_key` is
/// the field `url_key` of speaker 1.
pub open spec fn column_of(name: Seq<char>, value: Seq<char>) -> Column {
    if !starts_with(name, "speaker"@) {
        Column::Other
    } else {
        let parts = split_first(
            name.subrange("speaker"@.len() as int, name.len() as int),
            '_',
        );
        column_of_parts(parts, number_of(parts), value, trimmed(value).len() == 0)
    }
}

/// The columns as texts.
pub open spec fn columns_view(columns: Seq<(String, String)>) -> Seq<(Seq<char>, Seq<char>)> {
    columns.map_values(|c: (String, String)| (c.0@, c.1@))
}

/// The cells that the columns give, in the order of the columns.
pub open spec fn cells_of(columns: Seq<(Seq<char>, Seq<char>)>) -> Seq<CellView>
    decreases columns.len(),
{
    if columns.len() == 0 {
        Seq::empty()
    } else {
        let before = cells_of(columns.drop_last());
        match column_of(columns.last().0, columns.last().1) {
            Column::Field(cell) => before.push(cell),
            _ => before,
        }
    }
}

/// The cells as texts.
pub open spec fn cells_view(cells: Seq<Cell>) -> Seq<CellView> {
    cells.map_values(|c: Cell| c@)
}

/// The cell that gives a field of a speaker: the last one for it.
pub open spec fn cell_in(cells: Seq<CellView>, number: u8, field: Seq<char>) -> Option<CellView>
    decreases cells.len(),
{
    if cells.len() == 0 {
        None
    } else if cells.last().number == number && cells.last().field == field {
        Some(cells.last())
    } else {
        cell_in(cells.drop_last(), number, field)
    }
}

/// The value of a field of a speaker: that of the last cell for it.
pub open spec fn value_in(cells: Seq<CellView>, number: u8, field: Seq<char>) -> Option<Seq<char>> {
    match cell_in(cells, number, field) {
        Some(cell) => Some(cell.value),
        None => None,
    }
}

/// Some cell is about the speaker of this number.
pub open spec fn present(cells: Seq<CellView>, number: u8) -> bool {
    exists|i: int| 0 <= i < cells.len() && (#[trigger] cells[i]).number == number
}

/// Every field of the speaker has a value of white space only.
pub open spec fn blank(cells: Seq<CellView>, number: u8) -> bool {
    forall|i: int|
        0 <= i < cells.len() && (#[trigger] cells[i]).number == number ==> cell_in(
            cells,
            number,
            cells[i].field,
        )->0.blank
}

/// The speaker of this number is kept: it has a field, and not all its fields
/// are blank.
pub open spec fn kept(cells: Seq<CellView>, number: u8) -> bool {
    present(cells, number) && !blank(cells, number)
}

/// The numbers below `upto` of the speakers that are kept, in rising order.
pub open spec fn kept_numbers(cells: Seq<CellView>, upto: int) -> Seq<u8>
    decreases upto,
{
    if upto <= 0 {
        Seq::empty()
    } else {
        let before = kept_numbers(cells, upto - 1);
        if kept(cells, (upto - 1) as u8) {
            before.push((upto - 1) as u8)
        } else {
            before
        }
    }
}

/// The code of a gender: `M`, `F` and `O` for `male`, `female` and `other` in
/// any letter case, and the text itself for anything else.
pub open spec fn gender_code(text: Seq<char>) -> Seq<char> {
    if lowercase(text) == "male"@ {
        "M"@
    } else if lowercase(text) == "female"@ {
        "F"@
    } else if lowercase(text) == "other"@ {
        "O"@
    } else {
        text
    }
}

/// The code of a gender, given the text and its lower-case form.
pub fn gender_code_of(text: &str, lower: &str) -> (r: String)
    ensures
        r@ == if lower@ == "male"@ {
            "M"@
        } else if lower@ == "female"@ {
            "F"@
        } else if lower@ == "other"@ {
            "O"@
        } else {
            text@
        },
{
    if same(lower, "male") {
        "M".to_owned()
    } else if same(lower, "female") {
        "F".to_owned()
    } else if same(lower, "other") {
        "O".to_owned()
    } else {
        text.to_owned()
    }
}

/// An optional text put through a function.
pub open spec fn opt_map(o: Option<Seq<char>>, f: spec_fn(Seq<char>) -> Seq<char>) -> Option<
    Seq<char>,
> {
    match o {
        Some(s) => Some(f(s)),
        None => None,
    }
}

/// `s` is the speaker of this number as the cells give it. The fields are
/// `name`, `categories`, `email`, `phone`, `anonymous`, `code_name`,
/// `url_key`, `gender` and `pronoun`. The categories are the pieces between
/// commas that are not blank; a speaker is anonymous where the field says
/// `true` in any letter case.
pub open spec fn is_speaker_of(s: Speaker, cells: Seq<CellView>, number: u8) -> bool {
    &&& Some(s.name@) == value_in(cells, number, "name"@)
    &&& texts(s.categories@) == match value_in(cells, number, "categories"@) {
        Some(list) => non_blank(split_on(list, ',')),
        None => Seq::empty(),
    }
    &&& opt_text(s.email) == value_in(cells, number, "email"@)
    &&& opt_text(s.phone) == value_in(cells, number, "phone"@)
    &&& s.anonymous == match value_in(cells, number, "anonymous"@) {
        Some(word) => eq_ignore_case(word, "true"@),
        None => false,
    }
    &&& opt_text(s.code_name) == value_in(cells, number, "code_name"@)
    &&& opt_text(s.url_key) == value_in(cells, number, "url_key"@)
    &&& opt_text(s.gender) == opt_map(
        value_in(cells, number, "gender"@),
        |g: Seq<char>| gender_code(g),
    )
    &&& opt_text(s.pronoun) == value_in(cells, number, "pronoun"@)
}

/// What was read from a column.
pub enum ColumnRead {
    Other,
    Malformed,
    Field(Cell),
}

/// The two parts as texts.
pub open spec fn parts_view(parts: Option<(String, String)>) -> Option<(Seq<char>, Seq<char>)> {
    match parts {
        Some(p) => Some((p.0@, p.1@)),
        None => None,
    }
}

/// Reads the two parts of a column's name behind `speaker`, given the number
/// that the first part writes and whether the value is blank.
pub fn read_parts(parts: &Option<(String, String)>, number: Option<u8>, value: &str, blank: bool) -> (r:
    ColumnRead)
    ensures
        match r {
            ColumnRead::Other => false,
            ColumnRead::Malformed => column_of_parts(parts_view(*parts), number, value@, blank)
                is Malformed,
            ColumnRead::Field(cell) => column_of_parts(parts_view(*parts), number, value@, blank)
                == Column::Field(cell@),
        },
{
    match (parts, number) {
        (Some(p), Some(n)) => ColumnRead::Field(
            Cell { number: n, field: p.1.clone(), value: value.to_owned(), blank },
        ),
        _ => ColumnRead::Malformed,
    }
}

/// Reads one column of a team row.
pub fn read_column(name: &str, value: &str) -> (r: ColumnRead)
    ensures
        match r {
            ColumnRead::Other => column_of(name@, value@) is Other,
            ColumnRead::Malformed => column_of(name@, value@) is Malformed,
            ColumnRead::Field(cell) => column_of(name@, value@) == Column::Field(cell@),
        },
{
    match strip_prefix(name, "speaker") {
        None => ColumnRead::Other,
        Some(rest) => {
            let parts = split_once(rest.as_str(), '_');
            let number = match &parts {
                Some(p) => {
                    let digits = trim(p.0.as_str());
                    parse_u8(digits.as_str())
                },
                None => None,
            };
            let core = trim(value);
            read_parts(&parts, number, value, core.as_str().is_empty())
        },
    }
}

/// The column begins with `speaker` and does not name a speaker and a field.
pub open spec fn is_malformed(column: (Seq<char>, Seq<char>)) -> bool {
    column_of(column.0, column.1) is Malformed
}

/// Reads the cells of all columns. Fails with the position of the first
/// malformed column.
pub fn read_cells(columns: &Vec<(String, String)>) -> (r: Result<Vec<Cell>, usize>)
    ensures
        match r {
            Ok(cells) => first_index(
                columns_view(columns@),
                |c: (Seq<char>, Seq<char>)| is_malformed(c),
            ) is None && cells_view(cells@) == cells_of(columns_view(columns@)),
            Err(i) => first_index(
                columns_view(columns@),
                |c: (Seq<char>, Seq<char>)| is_malformed(c),
            ) == Some(i as int),
        },
{
    let ghost cv = columns_view(columns@);
    let ghost p = |c: (Seq<char>, Seq<char>)| is_malformed(c);
    let mut cells: Vec<Cell> = Vec::new();
    let mut i: usize = 0;
    assert(cells_view(cells@) =~= cells_of(cv.take(0)));
    while i < columns.len()
        invariant
            i <= columns.len(),
            cv == columns_view(columns@),
            p == (|c: (Seq<char>, Seq<char>)| is_malformed(c)),
            forall|j: int| 0 <= j < i ==> !p(#[trigger] cv[j]),
            cells_view(cells@) == cells_of(cv.take(i as int)),
        decreases columns.len() - i,
    {
        proof {
            assert(cv.take(i as int + 1).drop_last() == cv.take(i as int));
            assert(cv.take(i as int + 1).last() == cv[i as int]);
            assert(cv[i as int] == (columns@[i as int].0@, columns@[i as int].1@));
        }
        match read_column(columns[i].0.as_str(), columns[i].1.as_str()) {
            ColumnRead::Other => {},
            ColumnRead::Malformed => {
                proof {
                    lemma_first_index(cv, p, Some(i as int));
                }
                return Err(i);
            },
            ColumnRead::Field(cell) => {
                let ghost before = cells_view(cells@);
                cells.push(cell);
                assert(cells_view(cells@) =~= before.push(cell@));
            },
        }
        i += 1;
    }
    proof {
        lemma_first_index(cv, p, None);
        assert(cv.take(columns.len() as int) == cv);
    }
    Ok(cells)
}

/// The position of the cell that gives a field of a speaker.
pub fn find_value(cells: &Vec<Cell>, number: u8, field: &str) -> (r: Option<usize>)
    ensures
        match r {
            Some(i) => i < cells.len() && cell_in(cells_view(cells@), number, field@) == Some(
                cells@[i as int]@,
            ),
            None => cell_in(cells_view(cells@), number, field@) is None,
        },
{
    let ghost cv = cells_view(cells@);
    let mut i: usize = cells.len();
    assert(cv.take(i as int) == cv);
    while i > 0
        invariant
            i <= cells.len(),
            cv == cells_view(cells@),
            cell_in(cv, number, field@) == cell_in(cv.take(i as int), number, field@),
        decreases i,
    {
        i -= 1;
        proof {
            assert(cv.take(i as int + 1).drop_last() == cv.take(i as int));
            assert(cv.take(i as int + 1).last() == cv[i as int]);
            assert(cv[i as int] == cells@[i as int]@);
        }
        if cells[i].number == number && same(cells[i].field.as_str(), field) {
            return Some(i);
        }
    }
    None
}

/// The copy of the value of a field of a speaker.
pub fn value_of(cells: &Vec<Cell>, number: u8, field: &str) -> (r: Option<String>)
    ensures
        opt_text(r) == value_in(cells_view(cells@), number, field@),
{
    match find_value(cells, number, field) {
        Some(i) => Some(cells[i].value.clone()),
        None => None,
    }
}

/// Whether every field of a speaker has a value of white space only.
pub fn is_blank(cells: &Vec<Cell>, number: u8) -> (r: bool)
    ensures
        r == blank(cells_view(cells@), number),
{
    let ghost cv = cells_view(cells@);
    let mut i: usize = 0;
    while i < cells.len()
        invariant
            i <= cells.len(),
            cv == cells_view(cells@),
            forall|j: int|
                0 <= j < i && (#[trigger] cv[j]).number == number ==> cell_in(
                    cv,
                    number,
                    cv[j].field,
                )->0.blank,
        decreases cells.len() - i,
    {
        assert(cv[i as int] == cells@[i as int]@);
        if cells[i].number == number {
            let full = match find_value(cells, number, cells[i].field.as_str()) {
                Some(k) => !cells[k].blank,
                None => true,
            };
            if full {
                proof {
                    lemma_value_exists(cv, i as int);
                }
                return false;
            }
        }
        i += 1;
    }
    true
}

/// The field of every cell has a value.
pub proof fn lemma_value_exists(cells: Seq<CellView>, i: int)
    requires
        0 <= i < cells.len(),
    ensures
        cell_in(cells, cells[i].number, cells[i].field) is Some,
    decreases cells.len(),
{
    if i < cells.len() - 1 {
        lemma_value_exists(cells.drop_last(), i);
    }
}

/// The list is in rising order without repetition.
pub open spec fn rising(s: Seq<u8>) -> bool {
    forall|i: int, j: int| 0 <= i < j < s.len() ==> (#[trigger] s[i]) < (#[trigger] s[j])
}

/// A rising list of exactly the numbers of the kept speakers below `upto` is
/// the list of those numbers.
proof fn lemma_rising_prefix(s: Seq<u8>, cells: Seq<CellView>, upto: int) -> (m: int)
    requires
        rising(s),
        forall|n: u8| s.contains(n) <==> kept(cells, n),
        0 <= upto <= 256,
    ensures
        0 <= m <= s.len(),
        s.take(m) == kept_numbers(cells, upto),
        forall|i: int| 0 <= i < m ==> (#[trigger] s[i]) < upto,
        forall|i: int| m <= i < s.len() ==> (#[trigger] s[i]) >= upto,
    decreases upto,
{
    if upto == 0 {
        assert(s.take(0) =~= kept_numbers(cells, 0));
        0
    } else {
        let m = lemma_rising_prefix(s, cells, upto - 1);
        let n = (upto - 1) as u8;
        if kept(cells, n) {
            assert(s.contains(n));
            let j = choose|j: int| 0 <= j < s.len() && s[j] == n;
            if j > m {
                assert(s[m] < s[j]);
            }
            assert(j == m);
            assert(s.take(m + 1) =~= s.take(m).push(n));
            assert forall|i: int| m + 1 <= i < s.len() implies (#[trigger] s[i]) >= upto by {
                assert(s[m] < s[i]);
            }
            m + 1
        } else {
            assert forall|i: int| m <= i < s.len() implies (#[trigger] s[i]) >= upto by {
                if s[i] == n {
                    assert(s.contains(n));
                }
            }
            m
        }
    }
}

/// One of the first `upto` cells is about the speaker of this number.
pub open spec fn named_before(cells: Seq<CellView>, upto: int, number: u8) -> bool {
    exists|j: int| 0 <= j < upto && j < cells.len() && (#[trigger] cells[j]).number == number
}

fn holds(list: &Vec<u8>, n: u8) -> (r: bool)
    ensures
        r == list@.contains(n),
{
    let mut k: usize = 0;
    while k < list.len()
        invariant
            k <= list.len(),
            forall|a: int| 0 <= a < k ==> list@[a] != n,
        decreases list.len() - k,
    {
        if list[k] == n {
            return true;
        }
        k += 1;
    }
    false
}

/// The numbers of the speakers that are kept, each once, in the order in
/// which the columns first name them.
fn kept_in_column_order(cells: &Vec<Cell>) -> (r: Vec<u8>)
    ensures
        forall|a: int, b: int| 0 <= a < b < r@.len() ==> r@[a] != r@[b],
        forall|n: u8| r@.contains(n) <==> kept(cells_view(cells@), n),
{
    let ghost cv = cells_view(cells@);
    let mut r: Vec<u8> = Vec::new();
    let mut i: usize = 0;
    while i < cells.len()
        invariant
            i <= cells.len(),
            cv == cells_view(cells@),
            forall|a: int, b: int| 0 <= a < b < r@.len() ==> r@[a] != r@[b],
            forall|n: u8|
                #[trigger] r@.contains(n) <==> named_before(cv, i as int, n) && !blank(cv, n),
        decreases cells.len() - i,
    {
        let n = cells[i].number;
        assert(cv[i as int] == cells@[i as int]@);
        let seen = holds(&r, n);
        let ghost before = r@;
        let ghost reached = i as int;
        let add = !seen && !is_blank(cells, n);
        if add {
            r.push(n);
        }
        proof {
            assert forall|m: u8| named_before(cv, reached + 1, m) <==> (named_before(
                cv,
                reached,
                m,
            ) || m == n) by {
                if named_before(cv, reached + 1, m) {
                    let j = choose|j: int|
                        0 <= j < reached + 1 && j < cv.len() && (#[trigger] cv[j]).number == m;
                    if j < reached {
                        assert(named_before(cv, reached, m));
                    }
                }
                if named_before(cv, reached, m) {
                    let j = choose|j: int|
                        0 <= j < reached && j < cv.len() && (#[trigger] cv[j]).number == m;
                    assert(cv[j].number == m);
                }
                if m == n {
                    assert(cv[reached].number == m);
                }
            }
            assert forall|m: u8| #[trigger] r@.contains(m) <==> (before.contains(m) || (add && m
                == n)) by {
                if r@.contains(m) {
                    let a = choose|a: int| 0 <= a < r@.len() && r@[a] == m;
                    if a < before.len() {
                        assert(before[a] == m);
                    }
                }
                if before.contains(m) {
                    let a = choose|a: int| 0 <= a < before.len() && before[a] == m;
                    assert(r@[a] == m);
                }
                if add && m == n {
                    assert(r@[before.len() as int] == m);
                }
            }
            assert forall|m: u8| #[trigger]
                r@.contains(m) <==> named_before(cv, reached + 1, m) && !blank(cv, m) by {
                assert(before.contains(m) <==> named_before(cv, reached, m) && !blank(cv, m));
            }
        }
        i += 1;
    }
    proof {
        assert forall|n: u8| named_before(cv, cells.len() as int, n) <==> present(cv, n) by {
            if named_before(cv, cells.len() as int, n) {
                let j = choose|j: int|
                    0 <= j < cells.len() && j < cv.len() && (#[trigger] cv[j]).number == n;
                assert(cv[j].number == n);
            }
            if present(cv, n) {
                let j = choose|j: int| 0 <= j < cv.len() && (#[trigger] cv[j]).number == n;
                assert(cv[j].number == n);
            }
        }
    }
    r
}

/// The numbers of the speakers that are kept, in rising order.
pub fn kept_speakers(cells: &Vec<Cell>) -> (r: Vec<u8>)
    ensures
        r@ == kept_numbers(cells_view(cells@), 256),
        rising(r@),
        forall|n: u8| r@.contains(n) <==> kept(cells_view(cells@), n),
{
    let found = kept_in_column_order(cells);
    let mut keys: Vec<i64> = Vec::new();
    let mut i: usize = 0;
    while i < found.len()
        invariant
            i <= found.len(),
            keys@.len() == i,
            forall|j: int| 0 <= j < i ==> #[trigger] keys@[j] == found@[j] as i64,
        decreases found.len() - i,
    {
        keys.push(found[i] as i64);
        i += 1;
    }
    let order = stable_order(&keys);
    let mut r: Vec<u8> = Vec::new();
    let mut i: usize = 0;
    while i < order.len()
        invariant
            i <= order.len(),
            is_stable_order(keys@, order@),
            keys@.len() == found@.len(),
            r@.len() == i,
            forall|j: int| 0 <= j < i ==> #[trigger] r@[j] == found@[order@[j] as int],
        decreases order.len() - i,
    {
        r.push(found[order[i]]);
        i += 1;
    }
    proof {
        assert forall|a: int, b: int| 0 <= a < b < r@.len() implies (#[trigger] r@[a]) < (
        #[trigger] r@[b]) by {
            let x = order@[a];
            let y = order@[b];
            assert(keys@[x as int] == found@[x as int] as i64);
            assert(keys@[y as int] == found@[y as int] as i64);
            if x < y {
                assert(found@[x as int] != found@[y as int]);
            } else if y < x {
                assert(found@[y as int] != found@[x as int]);
            }
        }
        assert forall|n: u8| r@.contains(n) <==> kept(cells_view(cells@), n) by {
            if r@.contains(n) {
                let a = choose|a: int| 0 <= a < r@.len() && r@[a] == n;
                assert(found@[order@[a] as int] == n);
                assert(found@.contains(n));
            }
            if kept(cells_view(cells@), n) {
                assert(found@.contains(n));
                let k = choose|k: int| 0 <= k < found@.len() && found@[k] == n;
                assert(order@.contains(k as usize));
                let a = choose|a: int| 0 <= a < order@.len() && order@[a] == k as usize;
                assert(r@[a] == n);
            }
        }
        let m = lemma_rising_prefix(r@, cells_view(cells@), 256);
        assert(m == r@.len()) by {
            if m < r@.len() {
                assert(r@[m] >= 256);
            }
        }
        assert(r@.take(m) == r@);
    }
    r
}

/// Makes the speaker of a number from its cells. Fails where it has no name.
pub fn speaker_from_cells(cells: &Vec<Cell>, number: u8) -> (r: Option<Speaker>)
    ensures
        match r {
            Some(s) => is_speaker_of(s, cells_view(cells@), number),
            None => value_in(cells_view(cells@), number, "name"@) is None,
        },
{
    let name = match value_of(cells, number, "name") {
        Some(name) => name,
        None => {
            return None;
        },
    };
    let categories = match value_of(cells, number, "categories") {
        Some(list) => keep_non_blank(split(list.as_str(), ',')),
        None => Vec::new(),
    };
    assert(value_in(cells_view(cells@), number, "categories"@) is None ==> texts(categories@)
        =~= Seq::<Seq<char>>::empty());
    let anonymous = match value_of(cells, number, "anonymous") {
        Some(word) => same_ignoring_case(word.as_str(), "true"),
        None => false,
    };
    let gender = match value_of(cells, number, "gender") {
        Some(g) => {
            let lower = to_lower(g.as_str());
            Some(gender_code_of(g.as_str(), lower.as_str()))
        },
        None => None,
    };
    Some(
        Speaker {
            name,
            categories,
            email: value_of(cells, number, "email"),
            phone: value_of(cells, number, "phone"),
            anonymous,
            code_name: value_of(cells, number, "code_name"),
            url_key: value_of(cells, number, "url_key"),
            gender,
            pronoun: value_of(cells, number, "pronoun"),
        },
    )
}

/// The speakers of a team row, from the columns of the row as names and
/// values.
///
/// The fields are put together by the number of the speaker; where two
/// columns give the same field of the same speaker, the later one counts. The
/// field of a column is all that follows its first underscore. A
/// speaker whose fields are all blank is dropped. The speakers come out in the
/// order of their numbers. A column that begins with `speaker` must name a
/// speaker and a field, and every speaker that is kept must have a name; the
/// first column, or else the lowest speaker, that fails this is reported.
pub fn deserialize_fields_to_vec(columns: &Vec<(String, String)>) -> (r: Result<
    Vec<Speaker>,
    RowError,
>)
    ensures
        ({
            let cells = cells_of(columns_view(columns@));
            let numbers = kept_numbers(cells, 256);
            let malformed = first_index(
                columns_view(columns@),
                |c: (Seq<char>, Seq<char>)| is_malformed(c),
            );
            match r {
                Ok(list) => malformed is None && list@.len() == numbers.len() && forall|i: int|
                    0 <= i < numbers.len() ==> is_speaker_of(#[trigger] list@[i], cells, numbers[i]),
                Err(RowError::MalformedColumn(i)) => malformed == Some(i as int),
                Err(RowError::MissingName(n)) => malformed is None && kept(cells, n) && value_in(
                    cells,
                    n,
                    "name"@,
                ) is None && forall|m: u8|
                    m < n && kept(cells, m) ==> (#[trigger] value_in(cells, m, "name"@)) is Some,
                Err(RowError::NotAFlag(_)) => false,
            }
        }),
{
    let cells = match read_cells(columns) {
        Ok(cells) => cells,
        Err(i) => {
            return Err(RowError::MalformedColumn(i));
        },
    };
    let ghost cv = cells_view(cells@);
    let numbers = kept_speakers(&cells);
    let mut list: Vec<Speaker> = Vec::new();
    let mut i: usize = 0;
    while i < numbers.len()
        invariant
            i <= numbers.len(),
            cv == cells_view(cells@),
            cv == cells_of(columns_view(columns@)),
            first_index(columns_view(columns@), |c: (Seq<char>, Seq<char>)| is_malformed(c))
                is None,
            numbers@ == kept_numbers(cv, 256),
            rising(numbers@),
            forall|n: u8| numbers@.contains(n) <==> kept(cv, n),
            list@.len() == i,
            forall|j: int| 0 <= j < i ==> is_speaker_of(#[trigger] list@[j], cv, numbers@[j]),
        decreases numbers.len() - i,
    {
        match speaker_from_cells(&cells, numbers[i]) {
            Some(s) => {
                list.push(s);
            },
            None => {
                proof {
                    let n = numbers@[i as int];
                    assert(numbers@.contains(n));
                    assert forall|m: u8| m < n && kept(cv, m) implies (#[trigger] value_in(
                        cv,
                        m,
                        "name"@,
                    )) is Some by {
                        assert(numbers@.contains(m));
                        let a = choose|a: int| 0 <= a < numbers@.len() && numbers@[a] == m;
                        if a > i {
                            assert(numbers@[i as int] < numbers@[a]);
                        }
                        assert(a < i);
                        assert(is_speaker_of(list@[a], cv, numbers@[a]));
                    }
                }
                return Err(RowError::MissingName(numbers[i]));
            },
        }
        i += 1;
    }
    Ok(list)
}

} // verus!
