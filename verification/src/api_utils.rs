//! Where the records of a tournament are fetched from, and finding a round by
//! what the operator calls it.

use crate::config::{tournament_resource, tournament_url, Auth};
use crate::entities::Round;
use crate::resolve::{first_index, lemma_first_index, pos};
use crate::text::{eq_ignore_case, same_ignoring_case};
use vstd::prelude::*;

verus! {

/// The address under which the rounds are listed.
pub fn rounds_url(auth: &Auth) -> (r: String)
    ensures
        r@ == tournament_resource(*auth, "rounds"@),
{
    tournament_url(auth, "rounds")
}

/// The address under which the teams are listed and created.
pub fn teams_url(auth: &Auth) -> (r: String)
    ensures
        r@ == tournament_resource(*auth, "teams"@),
{
    tournament_url(auth, "teams")
}

/// The address under which the judges are listed and created.
pub fn judges_url(auth: &Auth) -> (r: String)
    ensures
        r@ == tournament_resource(*auth, "adjudicators"@),
{
    tournament_url(auth, "adjudicators")
}

/// The address under which the speakers are listed and created.
pub fn speakers_url(auth: &Auth) -> (r: String)
    ensures
        r@ == tournament_resource(*auth, "speakers"@),
{
    tournament_url(auth, "speakers")
}

/// The address under which the venues are listed and created.
pub fn venues_url(auth: &Auth) -> (r: String)
    ensures
        r@ == tournament_resource(*auth, "venues"@),
{
    tournament_url(auth, "venues")
}

/// The address under which venue categories are created.
pub fn venue_categories_url(auth: &Auth) -> (r: String)
    ensures
        r@ == tournament_resource(*auth, "venue-categories"@),
{
    tournament_url(auth, "venue-categories")
}

/// The address under which the break categories are listed and created.
pub fn break_categories_url(auth: &Auth) -> (r: String)
    ensures
        r@ == tournament_resource(*auth, "break-categories"@),
{
    tournament_url(auth, "break-categories")
}

/// The address under which the speaker categories are listed and created.
pub fn speaker_categories_url(auth: &Auth) -> (r: String)
    ensures
        r@ == tournament_resource(*auth, "speaker-categories"@),
{
    tournament_url(auth, "speaker-categories")
}

/// The address of the preference that says how many teams a debate has.
pub fn teams_in_debate_url(auth: &Auth) -> (r: String)
    ensures
        r@ == tournament_resource(*auth, "preferences/debate_rules__teams_in_debate"@),
{
    tournament_url(auth, "preferences/debate_rules__teams_in_debate")
}

/// The round is called by the key: the key is its abbreviation or its name,
/// up to ASCII letter case.
pub open spec fn round_called(round: Round, key: Seq<char>) -> bool {
    eq_ignore_case(round.abbreviation@, key) || eq_ignore_case(round.name@, key)
}

/// The first round that is called by the key.
pub fn get_round(round: &str, rounds: &Vec<Round>) -> (r: Option<usize>)
    ensures
        pos(r) == first_index(rounds@, |c: Round| round_called(c, round@)),
        r is Some ==> r->0 < rounds.len(),
{
    let ghost p = |c: Round| round_called(c, round@);
    let mut i: usize = 0;
    while i < rounds.len()
        invariant
            i <= rounds.len(),
            forall|j: int| 0 <= j < i ==> !p(#[trigger] rounds@[j]),
            p == (|c: Round| round_called(c, round@)),
        decreases rounds.len() - i,
    {
        if same_ignoring_case(rounds[i].abbreviation.as_str(), round) || same_ignoring_case(
            rounds[i].name.as_str(),
            round,
        ) {
            proof {
                lemma_first_index(rounds@, p, Some(i as int));
            }
            return Some(i);
        }
        i += 1;
    }
    proof {
        lemma_first_index(rounds@, p, None);
    }
    None
}

/// The address under which the pairings of a round are listed.
pub fn pairings_of_round(round: &Round) -> (r: String)
    ensures
        r == round.pairing_link,
{
    round.pairing_link.clone()
}

} // verus!
