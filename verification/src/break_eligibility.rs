//! Break eligibility: in which break categories a team may break, worked out
//! from the speaker categories of its speakers.
//!
//! Every break category but the open one has a speaker category of the same
//! name, up to ASCII letter case. A speaker counts for a break category when
//! the speaker is in its speaker category. Every team breaks in the open
//! category. In the category for English as a second language, speakers for
//! whom English is a foreign language count as well.

use crate::entities::{texts, Category, SpeakerRecord, Team};
use crate::resolve::{first_index, lemma_first_index, pos};
use crate::text::{ascii_lower, has_part, holds_part, same, to_ascii_lower};
use vstd::prelude::*;

verus! {

/// The rules by which eligibility is worked out.
#[derive(Debug, Clone, Copy, PartialEq, Eq)]
pub enum BreakFormat {
    /// A team is eligible where all of its speakers but one count.
    Wsdc,
    /// A team is eligible where all of its speakers count.
    Bp,
}

/// Why eligibility could not be worked out.
#[derive(Debug, Clone, Copy, PartialEq, Eq)]
pub enum EligibilityError {
    /// No break category has `open` in its name.
    NoOpenCategory,
    /// The break category at this position has no speaker category of its
    /// name.
    NoSpeakerCategory(usize),
    /// A speaker of the team at this position is in a speaker category that
    /// belongs to no break category.
    StrayCategory(usize),
    /// The format is neither `wsdc` nor `bp`.
    UnknownFormat,
    /// No break category has `esl` in its name.
    NoEslCategory,
    /// No break category has `efl` in its name, and the format needs one.
    NoEflCategory,
}

/// The break categories of one team.
#[derive(Debug, Clone, PartialEq, Eq)]
pub struct TeamBreaks {
    /// URL of the team.
    pub team: String,
    /// URLs of the break categories in which the team may break.
    pub break_categories: Vec<String>,
}

/// The name of the category, in lower case, holds the word.
pub open spec fn named_like(cat: Category, word: Seq<char>) -> bool {
    has_part(ascii_lower(cat.name@), word)
}

/// The category has the given name, up to ASCII letter case.
pub open spec fn same_name(cat: Category, name: Seq<char>) -> bool {
    ascii_lower(cat.name@) == ascii_lower(name)
}

/// The position of the first category whose name holds the word.
pub open spec fn category_like(cats: Seq<Category>, word: Seq<char>) -> Option<int> {
    first_index(cats, |c: Category| named_like(c, word))
}

/// The position of the speaker category that belongs to a break category.
pub open spec fn partner(cat: Category, speaker_cats: Seq<Category>) -> Option<int> {
    first_index(speaker_cats, |s: Category| same_name(s, cat.name@))
}

/// The break category is not the open one and has no speaker category.
pub open spec fn lacks_partner(cat: Category, speaker_cats: Seq<Category>) -> bool {
    !named_like(cat, "open"@) && partner(cat, speaker_cats) is None
}

/// For every break category but the open one, in order, the URL of its
/// speaker category and its own URL.
pub open spec fn pairing(break_cats: Seq<Category>, speaker_cats: Seq<Category>) -> Seq<
    (Seq<char>, Seq<char>),
>
    decreases break_cats.len(),
{
    if break_cats.len() == 0 {
        Seq::empty()
    } else {
        let before = pairing(break_cats.drop_last(), speaker_cats);
        let cat = break_cats.last();
        if named_like(cat, "open"@) {
            before
        } else {
            match partner(cat, speaker_cats) {
                Some(k) => before.push((speaker_cats[k].url@, cat.url@)),
                None => before,
            }
        }
    }
}

/// The break category that a speaker category counts for: that of the last
/// pair with the URL of the speaker category.
pub open spec fn counts_for(pairs: Seq<(Seq<char>, Seq<char>)>, key: Seq<char>) -> Option<Seq<char>>
    decreases pairs.len(),
{
    if pairs.len() == 0 {
        None
    } else if pairs.last().0 == key {
        Some(pairs.last().1)
    } else {
        counts_for(pairs.drop_last(), key)
    }
}

/// How many of the speaker categories count for the break category.
pub open spec fn hits_in(
    cats: Seq<Seq<char>>,
    pairs: Seq<(Seq<char>, Seq<char>)>,
    target: Seq<char>,
) -> nat
    decreases cats.len(),
{
    if cats.len() == 0 {
        0
    } else {
        hits_in(cats.drop_last(), pairs, target) + if counts_for(pairs, cats.last()) == Some(
            target,
        ) {
            1nat
        } else {
            0nat
        }
    }
}

/// How often the speakers count for the break category, each speaker once for
/// each of its speaker categories that counts.
pub open spec fn hits(
    speakers: Seq<SpeakerRecord>,
    pairs: Seq<(Seq<char>, Seq<char>)>,
    target: Seq<char>,
) -> nat
    decreases speakers.len(),
{
    if speakers.len() == 0 {
        0
    } else {
        hits(speakers.drop_last(), pairs, target) + hits_in(
            texts(speakers.last().categories@),
            pairs,
            target,
        )
    }
}

/// One of the speaker categories of the speaker counts for no break category.
pub open spec fn speaker_strays(speaker: SpeakerRecord, pairs: Seq<(Seq<char>, Seq<char>)>) -> bool {
    exists|k: int|
        0 <= k < speaker.categories@.len() && counts_for(
            pairs,
            (#[trigger] speaker.categories@[k])@,
        ) is None
}

/// One of the speakers of the team is in a speaker category that counts for
/// no break category.
pub open spec fn team_strays(team: Team, pairs: Seq<(Seq<char>, Seq<char>)>) -> bool {
    exists|k: int| 0 <= k < team.speakers@.len() && speaker_strays(#[trigger] team.speakers@[k], pairs)
}

/// Whether a count is enough for a team of `size` speakers.
pub open spec fn enough(format: BreakFormat, count: nat, size: nat) -> bool {
    match format {
        BreakFormat::Wsdc => count + 1 >= size,
        BreakFormat::Bp => count == size,
    }
}

/// What eligibility is worked out with.
pub struct Rules {
    pub format: BreakFormat,
    pub pairs: Seq<(Seq<char>, Seq<char>)>,
    /// URL of the open category.
    pub open: Seq<char>,
    /// URL of the category for English as a second language.
    pub esl: Seq<char>,
    /// URL of the category for English as a foreign language.
    pub efl: Option<Seq<char>>,
}

/// How often the speakers count for the category of English as a foreign
/// language, where there is one.
pub open spec fn efl_hits(speakers: Seq<SpeakerRecord>, rules: Rules) -> nat {
    match rules.efl {
        Some(url) => hits(speakers, rules.pairs, url),
        None => 0,
    }
}

/// Whether the team may break in the category with the given URL.
pub open spec fn eligible(team: Team, url: Seq<char>, rules: Rules) -> bool {
    let size = team.speakers@.len();
    if url == rules.open {
        true
    } else if url == rules.esl {
        enough(
            rules.format,
            hits(team.speakers@, rules.pairs, rules.esl) + efl_hits(team.speakers@, rules),
            size,
        )
    } else {
        enough(rules.format, hits(team.speakers@, rules.pairs, url), size)
    }
}

/// The URLs of the break categories, in order, in which the team may break.
pub open spec fn breaks_of(team: Team, cats: Seq<Category>, rules: Rules) -> Seq<Seq<char>>
    decreases cats.len(),
{
    if cats.len() == 0 {
        Seq::empty()
    } else {
        let before = breaks_of(team, cats.drop_last(), rules);
        if eligible(team, cats.last().url@, rules) {
            before.push(cats.last().url@)
        } else {
            before
        }
    }
}

/// The format that a word names: `wsdc` or `bp`, in any letter case.
pub open spec fn format_named(word: Seq<char>) -> Option<BreakFormat> {
    if ascii_lower(word) == "wsdc"@ {
        Some(BreakFormat::Wsdc)
    } else if ascii_lower(word) == "bp"@ {
        Some(BreakFormat::Bp)
    } else {
        None
    }
}

/// The format that a word names.
pub fn parse_format(word: &str) -> (r: Option<BreakFormat>)
    ensures
        r == format_named(word@),
{
    let lower = to_ascii_lower(word);
    if same(lower.as_str(), "wsdc") {
        Some(BreakFormat::Wsdc)
    } else if same(lower.as_str(), "bp") {
        Some(BreakFormat::Bp)
    } else {
        None
    }
}

/// The first category whose name, in lower case, holds the word.
pub fn find_category_like(cats: &Vec<Category>, word: &str) -> (r: Option<usize>)
    ensures
        pos(r) == category_like(cats@, word@),
        r is Some ==> r->0 < cats.len(),
{
    let ghost p = |c: Category| named_like(c, word@);
    let mut i: usize = 0;
    while i < cats.len()
        invariant
            i <= cats.len(),
            forall|j: int| 0 <= j < i ==> !p(#[trigger] cats@[j]),
            p == (|c: Category| named_like(c, word@)),
        decreases cats.len() - i,
    {
        let lower = to_ascii_lower(cats[i].name.as_str());
        if holds_part(lower.as_str(), word) {
            proof {
                lemma_first_index(cats@, p, Some(i as int));
            }
            return Some(i);
        }
        i += 1;
    }
    proof {
        lemma_first_index(cats@, p, None);
    }
    None
}

fn find_partner(cat: &Category, speaker_cats: &Vec<Category>) -> (r: Option<usize>)
    ensures
        pos(r) == partner(*cat, speaker_cats@),
        r is Some ==> r->0 < speaker_cats.len(),
{
    let ghost p = |s: Category| same_name(s, cat.name@);
    let wanted = to_ascii_lower(cat.name.as_str());
    let mut i: usize = 0;
    while i < speaker_cats.len()
        invariant
            i <= speaker_cats.len(),
            forall|j: int| 0 <= j < i ==> !p(#[trigger] speaker_cats@[j]),
            p == (|s: Category| same_name(s, cat.name@)),
            wanted@ == ascii_lower(cat.name@),
        decreases speaker_cats.len() - i,
    {
        let lower = to_ascii_lower(speaker_cats[i].name.as_str());
        if same(lower.as_str(), wanted.as_str()) {
            proof {
                lemma_first_index(speaker_cats@, p, Some(i as int));
            }
            return Some(i);
        }
        i += 1;
    }
    proof {
        lemma_first_index(speaker_cats@, p, None);
    }
    None
}

/// The pairs as texts.
pub open spec fn pairs_view(pairs: Seq<(String, String)>) -> Seq<(Seq<char>, Seq<char>)> {
    pairs.map_values(|p: (String, String)| (p.0@, p.1@))
}

/// Pairs every break category but the open one with its speaker category.
/// Fails with the position of the first break category that has none.
pub fn pair_categories(break_cats: &Vec<Category>, speaker_cats: &Vec<Category>) -> (r: Result<
    Vec<(String, String)>,
    usize,
>)
    ensures
        match r {
            Ok(pairs) => first_index(
                break_cats@,
                |c: Category| lacks_partner(c, speaker_cats@),
            ) is None && pairs_view(pairs@) == pairing(break_cats@, speaker_cats@),
            Err(i) => first_index(break_cats@, |c: Category| lacks_partner(c, speaker_cats@))
                == Some(i as int),
        },
{
    let ghost p = |c: Category| lacks_partner(c, speaker_cats@);
    let mut pairs: Vec<(String, String)> = Vec::new();
    let mut i: usize = 0;
    assert(pairs_view(pairs@) =~= pairing(break_cats@.take(0), speaker_cats@));
    while i < break_cats.len()
        invariant
            i <= break_cats.len(),
            forall|j: int| 0 <= j < i ==> !p(#[trigger] break_cats@[j]),
            p == (|c: Category| lacks_partner(c, speaker_cats@)),
            pairs_view(pairs@) == pairing(break_cats@.take(i as int), speaker_cats@),
        decreases break_cats.len() - i,
    {
        proof {
            assert(break_cats@.take(i as int + 1).drop_last() == break_cats@.take(i as int));
            assert(break_cats@.take(i as int + 1).last() == break_cats@[i as int]);
        }
        let lower = to_ascii_lower(break_cats[i].name.as_str());
        if !holds_part(lower.as_str(), "open") {
            match find_partner(&break_cats[i], speaker_cats) {
                Some(k) => {
                    let ghost before = pairs_view(pairs@);
                    pairs.push((speaker_cats[k].url.clone(), break_cats[i].url.clone()));
                    assert(pairs_view(pairs@) =~= before.push(
                        (speaker_cats@[k as int].url@, break_cats@[i as int].url@),
                    ));
                },
                None => {
                    proof {
                        lemma_first_index(break_cats@, p, Some(i as int));
                    }
                    return Err(i);
                },
            }
        }
        i += 1;
    }
    proof {
        lemma_first_index(break_cats@, p, None);
        assert(break_cats@.take(break_cats.len() as int) == break_cats@);
    }
    Ok(pairs)
}

/// The break category that the speaker category with the given URL counts
/// for.
pub fn break_category_of(pairs: &Vec<(String, String)>, key: &str) -> (r: Option<usize>)
    ensures
        match r {
            Some(i) => i < pairs.len() && counts_for(pairs_view(pairs@), key@) == Some(
                pairs@[i as int].1@,
            ),
            None => counts_for(pairs_view(pairs@), key@) is None,
        },
{
    let ghost pv = pairs_view(pairs@);
    let mut i: usize = pairs.len();
    assert(pv.take(i as int) == pv);
    while i > 0
        invariant
            i <= pairs.len(),
            pv == pairs_view(pairs@),
            counts_for(pv, key@) == counts_for(pv.take(i as int), key@),
        decreases i,
    {
        i -= 1;
        proof {
            assert(pv.take(i as int + 1).drop_last() == pv.take(i as int));
            assert(pv.take(i as int + 1).last() == pv[i as int]);
            assert(pv[i as int] == (pairs@[i as int].0@, pairs@[i as int].1@));
        }
        if same(pairs[i].0.as_str(), key) {
            return Some(i);
        }
    }
    None
}

fn categories_stray(speaker: &SpeakerRecord, pairs: &Vec<(String, String)>) -> (r: bool)
    ensures
        r == speaker_strays(*speaker, pairs_view(pairs@)),
{
    let mut k: usize = 0;
    while k < speaker.categories.len()
        invariant
            k <= speaker.categories.len(),
            forall|j: int|
                0 <= j < k ==> counts_for(
                    pairs_view(pairs@),
                    (#[trigger] speaker.categories@[j])@,
                ) is Some,
        decreases speaker.categories.len() - k,
    {
        if break_category_of(pairs, speaker.categories[k].as_str()).is_none() {
            return true;
        }
        k += 1;
    }
    false
}

fn speakers_stray(team: &Team, pairs: &Vec<(String, String)>) -> (r: bool)
    ensures
        r == team_strays(*team, pairs_view(pairs@)),
{
    let mut k: usize = 0;
    while k < team.speakers.len()
        invariant
            k <= team.speakers.len(),
            forall|j: int|
                0 <= j < k ==> !speaker_strays(#[trigger] team.speakers@[j], pairs_view(pairs@)),
        decreases team.speakers.len() - k,
    {
        if categories_stray(&team.speakers[k], pairs) {
            return true;
        }
        k += 1;
    }
    false
}

/// The first team with a speaker in a speaker category that counts for no
/// break category.
pub fn find_stray_team(teams: &Vec<Team>, pairs: &Vec<(String, String)>) -> (r: Option<usize>)
    ensures
        pos(r) == first_index(teams@, |t: Team| team_strays(t, pairs_view(pairs@))),
{
    let ghost p = |t: Team| team_strays(t, pairs_view(pairs@));
    let mut i: usize = 0;
    while i < teams.len()
        invariant
            i <= teams.len(),
            forall|j: int| 0 <= j < i ==> !p(#[trigger] teams@[j]),
            p == (|t: Team| team_strays(t, pairs_view(pairs@))),
        decreases teams.len() - i,
    {
        if speakers_stray(&teams[i], pairs) {
            proof {
                lemma_first_index(teams@, p, Some(i as int));
            }
            return Some(i);
        }
        i += 1;
    }
    proof {
        lemma_first_index(teams@, p, None);
    }
    None
}

/// The greatest length of a list.
pub const MAX_LEN: u128 = 0xFFFF_FFFF_FFFF_FFFF;

fn count_in(cats: &Vec<String>, pairs: &Vec<(String, String)>, target: &str) -> (r: u128)
    ensures
        r == hits_in(texts(cats@), pairs_view(pairs@), target@),
        r <= cats.len(),
{
    let ghost names = texts(cats@);
    let mut r: u128 = 0;
    let mut k: usize = 0;
    while k < cats.len()
        invariant
            k <= cats.len(),
            names == texts(cats@),
            r == hits_in(names.take(k as int), pairs_view(pairs@), target@),
            r <= k,
        decreases cats.len() - k,
    {
        proof {
            assert(names.take(k as int + 1).drop_last() == names.take(k as int));
            assert(names.take(k as int + 1).last() == cats@[k as int]@);
        }
        match break_category_of(pairs, cats[k].as_str()) {
            Some(i) => {
                if same(pairs[i].1.as_str(), target) {
                    r = r + 1;
                }
            },
            None => {},
        }
        k += 1;
    }
    assert(names.take(cats.len() as int) == names);
    r
}

/// How often the speakers of a team count for the break category with the
/// given URL.
pub fn count_hits(team: &Team, pairs: &Vec<(String, String)>, target: &str) -> (r: u128)
    ensures
        r == hits(team.speakers@, pairs_view(pairs@), target@),
        r <= team.speakers.len() * MAX_LEN,
{
    let mut r: u128 = 0;
    let mut k: usize = 0;
    while k < team.speakers.len()
        invariant
            k <= team.speakers.len(),
            r == hits(team.speakers@.take(k as int), pairs_view(pairs@), target@),
            r <= k * MAX_LEN,
        decreases team.speakers.len() - k,
    {
        proof {
            assert(team.speakers@.take(k as int + 1).drop_last() == team.speakers@.take(k as int));
            assert(team.speakers@.take(k as int + 1).last() == team.speakers@[k as int]);
        }
        let more = count_in(&team.speakers[k].categories, pairs, target);
        r = r + more;
        k += 1;
    }
    assert(team.speakers@.take(team.speakers.len() as int) == team.speakers@);
    r
}

/// The rules in use, as they are held while eligibility is worked out.
pub struct RuleBook {
    pub format: BreakFormat,
    pub pairs: Vec<(String, String)>,
    pub open: String,
    pub esl: String,
    pub efl: Option<String>,
}

impl View for RuleBook {
    type V = Rules;

    open spec fn view(&self) -> Rules {
        Rules {
            format: self.format,
            pairs: pairs_view(self.pairs@),
            open: self.open@,
            esl: self.esl@,
            efl: match self.efl {
                Some(url) => Some(url@),
                None => None,
            },
        }
    }
}

fn is_enough(format: BreakFormat, count: u128, size: usize) -> (r: bool)
    ensures
        r == enough(format, count as nat, size as nat),
{
    match format {
        BreakFormat::Wsdc => size == 0 || count >= (size - 1) as u128,
        BreakFormat::Bp => count == size as u128,
    }
}

fn is_enough_of_two(format: BreakFormat, a: u128, b: u128, size: usize) -> (r: bool)
    ensures
        r == enough(format, (a + b) as nat, size as nat),
{
    if a > size as u128 || b > size as u128 {
        match format {
            BreakFormat::Wsdc => true,
            BreakFormat::Bp => false,
        }
    } else {
        is_enough(format, a + b, size)
    }
}

/// Whether a team may break in the category with the given URL.
pub fn is_eligible(team: &Team, url: &str, rules: &RuleBook) -> (r: bool)
    ensures
        r == eligible(*team, url@, rules@),
{
    let size = team.speakers.len();
    if same(url, rules.open.as_str()) {
        true
    } else if same(url, rules.esl.as_str()) {
        let second = count_hits(team, &rules.pairs, rules.esl.as_str());
        let foreign = match &rules.efl {
            Some(efl) => count_hits(team, &rules.pairs, efl.as_str()),
            None => 0,
        };
        is_enough_of_two(rules.format, second, foreign, size)
    } else {
        let count = count_hits(team, &rules.pairs, url);
        is_enough(rules.format, count, size)
    }
}

/// The break categories in which a team may break.
pub fn team_breaks(team: &Team, cats: &Vec<Category>, rules: &RuleBook) -> (r: TeamBreaks)
    ensures
        r.team@ == team.url@,
        texts(r.break_categories@) == breaks_of(*team, cats@, rules@),
{
    let mut urls: Vec<String> = Vec::new();
    let mut i: usize = 0;
    assert(texts(urls@) =~= breaks_of(*team, cats@.take(0), rules@));
    while i < cats.len()
        invariant
            i <= cats.len(),
            texts(urls@) == breaks_of(*team, cats@.take(i as int), rules@),
        decreases cats.len() - i,
    {
        proof {
            assert(cats@.take(i as int + 1).drop_last() == cats@.take(i as int));
            assert(cats@.take(i as int + 1).last() == cats@[i as int]);
        }
        if is_eligible(team, cats[i].url.as_str(), rules) {
            let ghost before = texts(urls@);
            urls.push(cats[i].url.clone());
            assert(texts(urls@) =~= before.push(cats@[i as int].url@));
        }
        i += 1;
    }
    assert(cats@.take(cats.len() as int) == cats@);
    TeamBreaks { team: team.url.clone(), break_categories: urls }
}

/// The URL of the category at a position.
pub open spec fn url_at(cats: Seq<Category>, at: Option<int>) -> Option<Seq<char>> {
    match at {
        Some(i) => Some(cats[i].url@),
        None => None,
    }
}

/// The rules that follow from a format and the categories of a tournament.
pub open spec fn rules_of(
    format: BreakFormat,
    break_cats: Seq<Category>,
    speaker_cats: Seq<Category>,
) -> Rules {
    Rules {
        format,
        pairs: pairing(break_cats, speaker_cats),
        open: break_cats[category_like(break_cats, "open"@)->0].url@,
        esl: break_cats[category_like(break_cats, "esl"@)->0].url@,
        efl: url_at(break_cats, category_like(break_cats, "efl"@)),
    }
}

/// What stands in the way of working out eligibility, if anything does. The
/// checks are made in this order: an open category, a speaker category for
/// every other break category, no speaker outside these, a known format, the
/// categories that the format needs.
pub open spec fn obstacle(
    format: Seq<char>,
    break_cats: Seq<Category>,
    speaker_cats: Seq<Category>,
    teams: Seq<Team>,
) -> Option<EligibilityError> {
    let lacking = first_index(break_cats, |c: Category| lacks_partner(c, speaker_cats));
    let stray = first_index(teams, |t: Team| team_strays(t, pairing(break_cats, speaker_cats)));
    if category_like(break_cats, "open"@) is None {
        Some(EligibilityError::NoOpenCategory)
    } else if lacking is Some {
        Some(EligibilityError::NoSpeakerCategory(lacking->0 as usize))
    } else if stray is Some {
        Some(EligibilityError::StrayCategory(stray->0 as usize))
    } else if format_named(format) is None {
        Some(EligibilityError::UnknownFormat)
    } else if category_like(break_cats, "esl"@) is None {
        Some(EligibilityError::NoEslCategory)
    } else if format_named(format) == Some(BreakFormat::Wsdc) && category_like(
        break_cats,
        "efl"@,
    ) is None {
        Some(EligibilityError::NoEflCategory)
    } else {
        None
    }
}

/// For every team, in order, the break categories in which it may break under
/// the rules of the format; the caller sets them on the team.
///
/// A team breaks in the open category whatever its speakers are. In the
/// category for English as a second language the speakers of that category
/// and of the category for English as a foreign language are counted
/// together. In every other category the speakers of that category are
/// counted. Under `wsdc` all speakers but one must count, under `bp` all.
pub fn do_compute_break_eligibility(
    format: &str,
    break_cats: &Vec<Category>,
    speaker_cats: &Vec<Category>,
    teams: &Vec<Team>,
) -> (r: Result<Vec<TeamBreaks>, EligibilityError>)
    ensures
        match r {
            Ok(list) => obstacle(format@, break_cats@, speaker_cats@, teams@) is None && list@.len()
                == teams@.len() && forall|i: int|
                0 <= i < teams@.len() ==> (#[trigger] list@[i]).team@ == teams@[i].url@ && texts(
                    list@[i].break_categories@,
                ) == breaks_of(
                    teams@[i],
                    break_cats@,
                    rules_of(format_named(format@)->0, break_cats@, speaker_cats@),
                ),
            Err(e) => obstacle(format@, break_cats@, speaker_cats@, teams@) == Some(e),
        },
{
    let open = match find_category_like(break_cats, "open") {
        Some(i) => i,
        None => {
            return Err(EligibilityError::NoOpenCategory);
        },
    };
    let pairs = match pair_categories(break_cats, speaker_cats) {
        Ok(pairs) => pairs,
        Err(i) => {
            return Err(EligibilityError::NoSpeakerCategory(i));
        },
    };
    if let Some(t) = find_stray_team(teams, &pairs) {
        return Err(EligibilityError::StrayCategory(t));
    }
    let rules_format = match parse_format(format) {
        Some(f) => f,
        None => {
            return Err(EligibilityError::UnknownFormat);
        },
    };
    let esl = match find_category_like(break_cats, "esl") {
        Some(i) => i,
        None => {
            return Err(EligibilityError::NoEslCategory);
        },
    };
    let efl = match find_category_like(break_cats, "efl") {
        Some(i) => Some(break_cats[i].url.clone()),
        None => {
            match rules_format {
                BreakFormat::Wsdc => {
                    return Err(EligibilityError::NoEflCategory);
                },
                BreakFormat::Bp => None,
            }
        },
    };
    let rules = RuleBook {
        format: rules_format,
        pairs,
        open: break_cats[open].url.clone(),
        esl: break_cats[esl].url.clone(),
        efl,
    };
    assert(rules@ == rules_of(rules_format, break_cats@, speaker_cats@));
    let mut list: Vec<TeamBreaks> = Vec::new();
    let mut i: usize = 0;
    while i < teams.len()
        invariant
            i <= teams.len(),
            list@.len() == i,
            forall|j: int|
                0 <= j < i ==> (#[trigger] list@[j]).team@ == teams@[j].url@ && texts(
                    list@[j].break_categories@,
                ) == breaks_of(teams@[j], break_cats@, rules@),
        decreases teams.len() - i,
    {
        let breaks = team_breaks(&teams[i], break_cats, &rules);
        list.push(breaks);
        i += 1;
    }
    Ok(list)
}

} // verus!
