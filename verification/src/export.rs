//! The feedback of a tournament as a table: one record for each feedback, with
//! the answer to every question.

use crate::entities::{texts, Adjudicator, Team};
use crate::resolve::{first_index, lemma_first_index};
use crate::text::{count_to_decimal, digits, has_part, holds_part, join, same};
use crate::view_draw::{judge_name, name_of_judge};
use vstd::prelude::*;

verus! {

/// The forms in which feedback is written out.
#[derive(Debug, Clone, Copy, PartialEq, Eq)]
pub enum ExportFormat {
    Csv,
    Sqlite,
}

/// The form that a word names.
pub open spec fn format_named(word: Seq<char>) -> Option<ExportFormat> {
    if word == "csv"@ {
        Some(ExportFormat::Csv)
    } else if word == "sqlite"@ {
        Some(ExportFormat::Sqlite)
    } else {
        None
    }
}

/// The form in which feedback is to be written out: `csv` or `sqlite`.
pub fn export(format: &str) -> (r: Option<ExportFormat>)
    ensures
        r == format_named(format@),
{
    if same(format, "csv") {
        Some(ExportFormat::Csv)
    } else if same(format, "sqlite") {
        Some(ExportFormat::Sqlite)
    } else {
        None
    }
}

/// An answer to a question.
#[derive(Debug, Clone, PartialEq, Eq)]
pub enum Answer {
    Flag(bool),
    /// A number, as its decimal text.
    Number(String),
    Text(String),
    Choices(Vec<String>),
}

#[derive(Debug, Clone, PartialEq, Eq)]
pub struct FeedbackAnswer {
    /// URL of the question.
    pub question: String,
    pub answer: Answer,
}

#[derive(Debug, Clone, PartialEq, Eq)]
pub struct Feedback {
    /// URL of the team or of the judge that gave the feedback.
    pub source: String,
    /// URL of the judge that the feedback is about.
    pub adjudicator: String,
    pub answers: Vec<FeedbackAnswer>,
}

#[derive(Debug, Clone, PartialEq, Eq)]
pub struct FeedbackQuestion {
    pub url: String,
    pub reference: String,
    pub text: String,
}

/// Why feedback could not be written out.
#[derive(Debug, Clone, Copy, PartialEq, Eq)]
pub enum ExportError {
    /// The source of the feedback at this position is not known.
    UnknownSource(usize),
    /// The judge that the feedback at this position is about is not known.
    UnknownTarget(usize),
}

/// The texts with `sep` between them.
pub open spec fn joined(items: Seq<Seq<char>>, sep: Seq<char>) -> Seq<char>
    decreases items.len(),
{
    if items.len() == 0 {
        Seq::empty()
    } else if items.len() == 1 {
        items[0]
    } else {
        joined(items.drop_last(), sep) + sep + items.last()
    }
}

/// The texts of a list with `sep` between them.
pub fn join_all(items: &Vec<String>, sep: &str) -> (r: String)
    ensures
        r@ == joined(texts(items@), sep@),
{
    let ghost all = texts(items@);
    let mut r = String::new();
    let mut i: usize = 0;
    assert(r@ =~= joined(all.take(0), sep@));
    while i < items.len()
        invariant
            i <= items.len(),
            all == texts(items@),
            r@ == joined(all.take(i as int), sep@),
        decreases items.len() - i,
    {
        proof {
            assert(all.take(i as int + 1).drop_last() == all.take(i as int));
            assert(all.take(i as int + 1).last() == items@[i as int]@);
            assert(all.take(i as int + 1).len() == i + 1);
            if i == 0 {
                assert(all.take(1)[0] == items@[0]@);
                assert(Seq::<char>::empty() + items@[0]@ =~= items@[0]@);
            }
        }
        if i > 0 {
            r.append(sep);
        }
        r.append(items[i].as_str());
        i += 1;
    }
    assert(all.take(items.len() as int) == all);
    r
}

/// The text of an answer: `true` or `false` for a flag, the number, the text,
/// or the choices with commas between them and in double quotes.
pub open spec fn answer_text(answer: Answer) -> Seq<char> {
    match answer {
        Answer::Flag(b) => if b {
            "true"@
        } else {
            "false"@
        },
        Answer::Number(n) => n@,
        Answer::Text(t) => t@,
        Answer::Choices(items) => "\""@ + joined(texts(items@), ","@) + "\""@,
    }
}

/// The text of an answer.
pub fn text_of_answer(answer: &Answer) -> (r: String)
    ensures
        r@ == answer_text(*answer),
{
    match answer {
        Answer::Flag(b) => {
            if *b {
                "true".to_owned()
            } else {
                "false".to_owned()
            }
        },
        Answer::Number(n) => n.clone(),
        Answer::Text(t) => t.clone(),
        Answer::Choices(items) => {
            let inner = join_all(items, ",");
            let open = join("\"", inner.as_str());
            join(open.as_str(), "\"")
        },
    }
}

/// The header of the table: the four fixed columns and one column for each
/// question, named `question_` and the reference of the question.
pub open spec fn header_of(questions: Seq<FeedbackQuestion>) -> Seq<Seq<char>> {
    seq!["feedback_id"@, "source"@, "source_kind"@, "target"@] + questions.map_values(
        |q: FeedbackQuestion| "question_"@ + q.reference@,
    )
}

/// The header of the table.
pub fn csv_header(questions: &Vec<FeedbackQuestion>) -> (r: Vec<String>)
    ensures
        texts(r@) == header_of(questions@),
{
    let mut r: Vec<String> = Vec::new();
    r.push("feedback_id".to_owned());
    r.push("source".to_owned());
    r.push("source_kind".to_owned());
    r.push("target".to_owned());
    let mut i: usize = 0;
    while i < questions.len()
        invariant
            i <= questions.len(),
            r@.len() == 4 + i,
            r@[0]@ == "feedback_id"@,
            r@[1]@ == "source"@,
            r@[2]@ == "source_kind"@,
            r@[3]@ == "target"@,
            forall|j: int|
                0 <= j < i ==> (#[trigger] r@[4 + j])@ == "question_"@ + questions@[j].reference@,
        decreases questions.len() - i,
    {
        r.push(join("question_", questions[i].reference.as_str()));
        i += 1;
    }
    proof {
        let wanted = header_of(questions@);
        assert(wanted.len() == 4 + questions@.len());
        assert forall|j: int| 0 <= j < wanted.len() implies texts(r@)[j] == wanted[j] by {
            if j >= 4 {
                assert(r@[4 + (j - 4)]@ == "question_"@ + questions@[j - 4].reference@);
            }
        }
        assert(texts(r@) =~= wanted);
    }
    r
}

/// Whether the source of a feedback is a team: its URL holds `/team`.
pub open spec fn from_team(feedback: Feedback) -> bool {
    has_part(feedback.source@, "/team"@)
}

/// The long name of the first known team with the URL.
pub open spec fn long_name_of(teams: Seq<Team>, url: Seq<char>) -> Option<Seq<char>> {
    match first_index(teams, |t: Team| t.url@ == url) {
        Some(i) => Some(teams[i].long_name@),
        None => None,
    }
}

/// The name of the source of a feedback: the long name of the team, or the
/// name of the judge.
pub open spec fn source_name(feedback: Feedback, teams: Seq<Team>, judges: Seq<Adjudicator>) -> Option<
    Seq<char>,
> {
    if from_team(feedback) {
        long_name_of(teams, feedback.source@)
    } else {
        judge_name(judges, feedback.source@)
    }
}

/// The answer of a feedback to a question: the first one for the question,
/// and the empty text where there is none.
pub open spec fn answer_to(answers: Seq<FeedbackAnswer>, question: Seq<char>) -> Seq<char> {
    match first_index(answers, |a: FeedbackAnswer| a.question@ == question) {
        Some(i) => answer_text(answers[i].answer),
        None => Seq::empty(),
    }
}

/// The record of the feedback at a position: the position, the name of the
/// source, `team` or `judge`, the name of the judge that the feedback is
/// about, and the answer to every question.
pub open spec fn record_of(
    position: nat,
    feedback: Feedback,
    teams: Seq<Team>,
    judges: Seq<Adjudicator>,
    questions: Seq<FeedbackQuestion>,
) -> Seq<Seq<char>>
    recommends
        source_name(feedback, teams, judges) is Some,
        judge_name(judges, feedback.adjudicator@) is Some,
{
    seq![
        digits(position),
        source_name(feedback, teams, judges)->0,
        if from_team(feedback) {
            "team"@
        } else {
            "judge"@
        },
        judge_name(judges, feedback.adjudicator@)->0,
    ] + questions.map_values(|q: FeedbackQuestion| answer_to(feedback.answers@, q.url@))
}

fn find_answer(answers: &Vec<FeedbackAnswer>, question: &str) -> (r: String)
    ensures
        r@ == answer_to(answers@, question@),
{
    let ghost p = |a: FeedbackAnswer| a.question@ == question@;
    let mut i: usize = 0;
    while i < answers.len()
        invariant
            i <= answers.len(),
            forall|j: int| 0 <= j < i ==> !p(#[trigger] answers@[j]),
            p == (|a: FeedbackAnswer| a.question@ == question@),
        decreases answers.len() - i,
    {
        if same(answers[i].question.as_str(), question) {
            proof {
                lemma_first_index(answers@, p, Some(i as int));
            }
            return text_of_answer(&answers[i].answer);
        }
        i += 1;
    }
    proof {
        lemma_first_index(answers@, p, None);
    }
    String::new()
}

/// The record of a feedback, given the text of its position.
pub fn csv_record(
    position: usize,
    feedback: &Feedback,
    teams: &Vec<Team>,
    judges: &Vec<Adjudicator>,
    questions: &Vec<FeedbackQuestion>,
) -> (r: Result<Vec<String>, ExportError>)
    ensures
        match r {
            Ok(record) => source_name(*feedback, teams@, judges@) is Some && judge_name(
                judges@,
                feedback.adjudicator@,
            ) is Some && texts(record@) == record_of(
                position as nat,
                *feedback,
                teams@,
                judges@,
                questions@,
            ),
            Err(ExportError::UnknownSource(i)) => i == position && source_name(
                *feedback,
                teams@,
                judges@,
            ) is None,
            Err(ExportError::UnknownTarget(i)) => i == position && source_name(
                *feedback,
                teams@,
                judges@,
            ) is Some && judge_name(judges@, feedback.adjudicator@) is None,
        },
{
    let by_team = holds_part(feedback.source.as_str(), "/team");
    let source = if by_team {
        match crate::import::find_team_by_url(teams, feedback.source.as_str()) {
            Some(i) => Some(teams[i].long_name.clone()),
            None => None,
        }
    } else {
        name_of_judge(judges, feedback.source.as_str())
    };
    let source = match source {
        Some(s) => s,
        None => {
            return Err(ExportError::UnknownSource(position));
        },
    };
    let target = match name_of_judge(judges, feedback.adjudicator.as_str()) {
        Some(t) => t,
        None => {
            return Err(ExportError::UnknownTarget(position));
        },
    };
    let mut r: Vec<String> = Vec::new();
    r.push(count_to_decimal(position));
    r.push(source);
    r.push(if by_team {
        "team".to_owned()
    } else {
        "judge".to_owned()
    });
    r.push(target);
    let ghost fixed = texts(r@);
    let mut i: usize = 0;
    while i < questions.len()
        invariant
            i <= questions.len(),
            r@.len() == 4 + i,
            forall|j: int| 0 <= j < 4 ==> (#[trigger] r@[j])@ == fixed[j],
            fixed.len() == 4,
            forall|j: int|
                0 <= j < i ==> (#[trigger] r@[4 + j])@ == answer_to(
                    feedback.answers@,
                    questions@[j].url@,
                ),
        decreases questions.len() - i,
    {
        r.push(find_answer(&feedback.answers, questions[i].url.as_str()));
        i += 1;
    }
    proof {
        let wanted = record_of(position as nat, *feedback, teams@, judges@, questions@);
        assert(wanted.len() == 4 + questions@.len());
        assert forall|j: int| 0 <= j < wanted.len() implies texts(r@)[j] == wanted[j] by {
            if j >= 4 {
                assert(r@[4 + (j - 4)]@ == answer_to(feedback.answers@, questions@[j - 4].url@));
            } else {
                assert(r@[j]@ == fixed[j]);
            }
        }
        assert(texts(r@) =~= wanted);
    }
    Ok(r)
}

/// The feedback of a tournament as a table: the header, and one record for
/// each feedback in order. The first feedback whose source or whose judge is
/// not known is the error.
pub fn export_feedback_csv(
    feedbacks: &Vec<Feedback>,
    teams: &Vec<Team>,
    judges: &Vec<Adjudicator>,
    questions: &Vec<FeedbackQuestion>,
) -> (r: Result<(Vec<String>, Vec<Vec<String>>), ExportError>)
    ensures
        match r {
            Ok(table) => texts(table.0@) == header_of(questions@) && table.1@.len()
                == feedbacks@.len() && forall|i: int|
                0 <= i < feedbacks@.len() ==> source_name(feedbacks@[i], teams@, judges@) is Some
                    && judge_name(judges@, feedbacks@[i].adjudicator@) is Some && texts(
                    (#[trigger] table.1@[i])@,
                ) == record_of(i as nat, feedbacks@[i], teams@, judges@, questions@),
            Err(e) => exists|i: int|
                0 <= i < feedbacks@.len() && (forall|j: int|
                    0 <= j < i ==> (#[trigger] source_name(feedbacks@[j], teams@, judges@)) is Some
                        && judge_name(judges@, feedbacks@[j].adjudicator@) is Some) && (if source_name(
                    #[trigger] feedbacks@[i],
                    teams@,
                    judges@,
                ) is None {
                    e == ExportError::UnknownSource(i as usize)
                } else {
                    judge_name(judges@, feedbacks@[i].adjudicator@) is None && e
                        == ExportError::UnknownTarget(i as usize)
                }),
        },
{
    let header = csv_header(questions);
    let mut records: Vec<Vec<String>> = Vec::new();
    let mut i: usize = 0;
    while i < feedbacks.len()
        invariant
            i <= feedbacks.len(),
            texts(header@) == header_of(questions@),
            records@.len() == i,
            forall|j: int|
                0 <= j < i ==> (#[trigger] source_name(feedbacks@[j], teams@, judges@)) is Some
                    && judge_name(judges@, feedbacks@[j].adjudicator@) is Some,
            forall|j: int|
                0 <= j < i ==> texts((#[trigger] records@[j])@) == record_of(
                    j as nat,
                    feedbacks@[j],
                    teams@,
                    judges@,
                    questions@,
                ),
        decreases feedbacks.len() - i,
    {
        match csv_record(i, &feedbacks[i], teams, judges, questions) {
            Ok(record) => {
                records.push(record);
            },
            Err(e) => {
                assert(feedbacks@[i as int] == feedbacks@[i as int]);
                return Err(e);
            },
        }
        i += 1;
    }
    Ok((header, records))
}

/// A row of one of the tables of records: a URL and a name or a title.
#[derive(Debug, Clone, PartialEq, Eq)]
pub struct NamedRow {
    pub url: String,
    pub name: String,
}

/// The rows to insert into the tables of judges, teams and questions.
#[derive(Debug, Clone, PartialEq, Eq)]
pub struct DbRows {
    pub judges: Vec<NamedRow>,
    pub teams: Vec<NamedRow>,
    pub questions: Vec<NamedRow>,
}

/// The rows of the tables of judges, teams and questions of a feedback
/// database: every judge with its name, every team with its long name, every
/// question with its text, each in order. The feedback itself is inserted by
/// the caller, who learns from the database the number of each feedback.
pub fn export_feedback_db(
    judges: &Vec<Adjudicator>,
    teams: &Vec<Team>,
    questions: &Vec<FeedbackQuestion>,
) -> (r: DbRows)
    ensures
        r.judges@.len() == judges@.len(),
        forall|i: int|
            0 <= i < judges@.len() ==> (#[trigger] r.judges@[i]).url@ == judges@[i].url@
                && r.judges@[i].name@ == judges@[i].name@,
        r.teams@.len() == teams@.len(),
        forall|i: int|
            0 <= i < teams@.len() ==> (#[trigger] r.teams@[i]).url@ == teams@[i].url@
                && r.teams@[i].name@ == teams@[i].long_name@,
        r.questions@.len() == questions@.len(),
        forall|i: int|
            0 <= i < questions@.len() ==> (#[trigger] r.questions@[i]).url@ == questions@[i].url@
                && r.questions@[i].name@ == questions@[i].text@,
{
    let mut judge_rows: Vec<NamedRow> = Vec::new();
    let mut i: usize = 0;
    while i < judges.len()
        invariant
            i <= judges.len(),
            judge_rows@.len() == i,
            forall|j: int|
                0 <= j < i ==> (#[trigger] judge_rows@[j]).url@ == judges@[j].url@
                    && judge_rows@[j].name@ == judges@[j].name@,
        decreases judges.len() - i,
    {
        judge_rows.push(NamedRow { url: judges[i].url.clone(), name: judges[i].name.clone() });
        i += 1;
    }
    let mut team_rows: Vec<NamedRow> = Vec::new();
    let mut i: usize = 0;
    while i < teams.len()
        invariant
            i <= teams.len(),
            team_rows@.len() == i,
            forall|j: int|
                0 <= j < i ==> (#[trigger] team_rows@[j]).url@ == teams@[j].url@
                    && team_rows@[j].name@ == teams@[j].long_name@,
        decreases teams.len() - i,
    {
        team_rows.push(NamedRow { url: teams[i].url.clone(), name: teams[i].long_name.clone() });
        i += 1;
    }
    let mut question_rows: Vec<NamedRow> = Vec::new();
    let mut i: usize = 0;
    while i < questions.len()
        invariant
            i <= questions.len(),
            question_rows@.len() == i,
            forall|j: int|
                0 <= j < i ==> (#[trigger] question_rows@[j]).url@ == questions@[j].url@
                    && question_rows@[j].name@ == questions@[j].text@,
        decreases questions.len() - i,
    {
        question_rows.push(
            NamedRow { url: questions[i].url.clone(), name: questions[i].text.clone() },
        );
        i += 1;
    }
    DbRows { judges: judge_rows, teams: team_rows, questions: question_rows }
}

} // verus!
