//! Records of the remote service, reduced to the fields that the matching and
//! planning rules read.
//!
//! Every record is identified by the URL that the service assigned to it.

use vstd::prelude::*;

verus! {

/// The texts held by a list of strings.
pub open spec fn texts(v: Seq<String>) -> Seq<Seq<char>> {
    v.map_values(|s: String| s@)
}

/// The text held by an optional string.
pub open spec fn opt_text(o: Option<String>) -> Option<Seq<char>> {
    match o {
        Some(s) => Some(s@),
        None => None,
    }
}

#[derive(Debug, Clone, PartialEq, Eq)]
pub struct Institution {
    pub id: i64,
    pub url: String,
    pub name: String,
    pub code: String,
    pub region: Option<String>,
}

/// A break category or a speaker category.
#[derive(Debug, Clone, PartialEq, Eq)]
pub struct Category {
    pub id: i64,
    pub url: String,
    pub name: String,
    pub slug: String,
    pub seq: i64,
}

#[derive(Debug, Clone, PartialEq, Eq)]
pub struct SpeakerRecord {
    pub id: i64,
    pub url: String,
    pub name: String,
    /// URL of the team that the speaker belongs to.
    pub team: String,
    pub url_key: Option<String>,
    /// URLs of the speaker categories.
    pub categories: Vec<String>,
}

#[derive(Debug, Clone, PartialEq, Eq)]
pub struct Team {
    pub id: i64,
    pub url: String,
    pub long_name: String,
    pub short_name: String,
    pub code_name: Option<String>,
    /// URL of the institution.
    pub institution: Option<String>,
    /// URLs of the break categories.
    pub break_categories: Vec<String>,
    /// URLs of the institutions that the team is in conflict with.
    pub institution_conflicts: Vec<String>,
    pub speakers: Vec<SpeakerRecord>,
}

#[derive(Debug, Clone, PartialEq, Eq)]
pub struct Adjudicator {
    pub id: i64,
    pub url: String,
    pub name: String,
    /// URL of the institution.
    pub institution: Option<String>,
    pub institution_conflicts: Vec<String>,
    pub team_conflicts: Vec<String>,
    pub adjudicator_conflicts: Vec<String>,
}

#[derive(Debug, Clone, PartialEq, Eq)]
pub struct Round {
    pub seq: i64,
    pub name: String,
    pub abbreviation: String,
    /// URL under which the pairings of the round are listed.
    pub pairing_link: String,
}

#[derive(Debug, Clone, PartialEq, Eq)]
pub struct Venue {
    pub id: i64,
    pub url: String,
}

/// A copy of a list of strings.
pub fn copy_texts(v: &Vec<String>) -> (r: Vec<String>)
    ensures
        r@ == v@,
{
    let mut r: Vec<String> = Vec::new();
    let mut i: usize = 0;
    while i < v.len()
        invariant
            i <= v.len(),
            r@ == v@.take(i as int),
        decreases v.len() - i,
    {
        r.push(v[i].clone());
        assert(v@.take(i as int + 1) == v@.take(i as int).push(v@[i as int]));
        i += 1;
    }
    assert(v@.take(v.len() as int) == v@);
    r
}

/// Whether `list` holds a string with the text of `item`.
pub fn contains_text(list: &Vec<String>, item: &str) -> (r: bool)
    ensures
        r == texts(list@).contains(item@),
{
    let mut i: usize = 0;
    while i < list.len()
        invariant
            i <= list.len(),
            forall|j: int| 0 <= j < i ==> list@[j]@ != item@,
        decreases list.len() - i,
    {
        if crate::text::same(list[i].as_str(), item) {
            assert(texts(list@)[i as int] == item@);
            return true;
        }
        i += 1;
    }
    assert forall|j: int| 0 <= j < texts(list@).len() implies texts(list@)[j] != item@ by {
        assert(texts(list@)[j] == list@[j]@);
    }
    false
}

} // verus!
