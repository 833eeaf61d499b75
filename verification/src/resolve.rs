//! The entity resolver: given a row and the known remote records, which
//! record, if any, the row stands for.
//!
//! A lookup returns the position of the first record that satisfies the rule of
//! its kind, or `None`, in which case the caller creates the record. Nothing is
//! ever matched on a part of a name.

use crate::entities::{opt_text, texts, Adjudicator, Institution, SpeakerRecord, Team};
use crate::rows::{InstitutionRow, JudgeRow, Speaker, TeamRow};
use crate::text::{
    blank, eq_ignore_case, join, join_with_blank, lowercase, same, same_ignoring_case, same_opt,
    to_lower, trim, trimmed,
};
use vstd::prelude::*;

verus! {

/// Some element of `s` satisfies `p`.
pub open spec fn any_match<T>(s: Seq<T>, p: spec_fn(T) -> bool) -> bool {
    exists|j: int| 0 <= j < s.len() && p(#[trigger] s[j])
}

/// `r` is the position of the first element of `s` that satisfies `p`, or
/// `None` where there is no such element.
pub open spec fn is_first<T>(s: Seq<T>, p: spec_fn(T) -> bool, r: Option<int>) -> bool {
    match r {
        Some(i) => 0 <= i < s.len() && p(s[i]) && forall|j: int|
            0 <= j < i ==> !p(#[trigger] s[j]),
        None => forall|j: int| 0 <= j < s.len() ==> !p(#[trigger] s[j]),
    }
}

/// A position found by a search, as a number.
pub open spec fn pos(r: Option<usize>) -> Option<int> {
    match r {
        Some(i) => Some(i as int),
        None => None,
    }
}

/// The position of the first element of `s` that satisfies `p`.
pub open spec fn first_index<T>(s: Seq<T>, p: spec_fn(T) -> bool) -> Option<int> {
    if any_match(s, p) {
        Some(choose|i: int| is_first(s, p, Some(i)))
    } else {
        None
    }
}

/// There is exactly one answer to "which element is the first": whatever
/// satisfies [`is_first`] is [`first_index`].
pub proof fn lemma_first_index<T>(s: Seq<T>, p: spec_fn(T) -> bool, r: Option<int>)
    requires
        is_first(s, p, r),
    ensures
        first_index(s, p) == r,
        r is Some <==> any_match(s, p),
{
    match r {
        Some(i) => {
            assert(p(s[i]));
            assert(any_match(s, p));
            let c = choose|c: int| is_first(s, p, Some(c));
            assert(is_first(s, p, Some(c)));
            if c < i {
                assert(!p(s[c]));
            }
            if i < c {
                assert(!p(s[i]));
            }
        },
        None => {
            if any_match(s, p) {
                let j = choose|j: int| 0 <= j < s.len() && p(#[trigger] s[j]);
                assert(!p(s[j]));
            }
        },
    }
}

/// A record that is found stays found when the list grows at its end.
pub proof fn lemma_first_index_grows<T>(s: Seq<T>, p: spec_fn(T) -> bool, more: Seq<T>)
    requires
        any_match(s, p),
    ensures
        first_index(s + more, p) == first_index(s, p),
{
    let i = choose|i: int| is_first(s, p, Some(i));
    let j = choose|j: int| 0 <= j < s.len() && p(#[trigger] s[j]);
    assert(p(s[j]));
    lemma_least_exists(s, p, j);
    assert(is_first(s, p, Some(i)));
    assert((s + more)[i] == s[i]);
    assert forall|k: int| 0 <= k < i implies !p(#[trigger] (s + more)[k]) by {
        assert((s + more)[k] == s[k]);
    }
    assert(is_first(s + more, p, Some(i)));
    lemma_first_index(s + more, p, Some(i));
}

/// Below any position that satisfies `p` there is a least one.
pub proof fn lemma_least_exists<T>(s: Seq<T>, p: spec_fn(T) -> bool, j: int)
    requires
        0 <= j < s.len(),
        p(s[j]),
    ensures
        exists|i: int| is_first(s, p, Some(i)),
    decreases j,
{
    if exists|k: int| 0 <= k < j && p(#[trigger] s[k]) {
        let k = choose|k: int| 0 <= k < j && p(#[trigger] s[k]);
        lemma_least_exists(s, p, k);
    } else {
        assert(is_first(s, p, Some(j)));
    }
}

/// A search in a list finds what the same search finds in the list of the
/// views, where the two rules agree element by element.
pub proof fn lemma_first_index_mapped<A, B>(
    s: Seq<A>,
    t: Seq<B>,
    p: spec_fn(A) -> bool,
    q: spec_fn(B) -> bool,
)
    requires
        s.len() == t.len(),
        forall|i: int| 0 <= i < s.len() ==> p(#[trigger] s[i]) == q(t[i]),
    ensures
        first_index(s, p) == first_index(t, q),
{
    lemma_first_index_in_range(s, p);
    match first_index(s, p) {
        Some(i) => {
            assert(q(t[i]));
            assert forall|j: int| 0 <= j < i implies !q(#[trigger] t[j]) by {
                assert(!p(s[j]));
            }
            lemma_first_index(t, q, Some(i));
        },
        None => {
            assert forall|j: int| 0 <= j < t.len() implies !q(#[trigger] t[j]) by {
                assert(!p(s[j]));
            }
            lemma_first_index(t, q, None);
        },
    }
}

/// The first text of a list that is the key.
pub fn first_equal(list: &Vec<String>, key: &str) -> (r: Option<usize>)
    ensures
        pos(r) == first_index(texts(list@), |t: Seq<char>| t == key@),
        r is Some ==> r->0 < list.len(),
{
    let ghost all = texts(list@);
    let ghost p = |t: Seq<char>| t == key@;
    let mut i: usize = 0;
    while i < list.len()
        invariant
            i <= list.len(),
            all == texts(list@),
            forall|j: int| 0 <= j < i ==> !p(#[trigger] all[j]),
            p == (|t: Seq<char>| t == key@),
        decreases list.len() - i,
    {
        assert(all[i as int] == list@[i as int]@);
        if same(list[i].as_str(), key) {
            proof {
                lemma_first_index(all, p, Some(i as int));
            }
            return Some(i);
        }
        i += 1;
    }
    proof {
        lemma_first_index(all, p, None);
    }
    None
}

/// The first text of a list that is the key up to ASCII letter case.
pub fn first_equal_ignoring_case(list: &Vec<String>, key: &str) -> (r: Option<usize>)
    ensures
        pos(r) == first_index(texts(list@), |t: Seq<char>| eq_ignore_case(t, key@)),
        r is Some ==> r->0 < list.len(),
{
    let ghost all = texts(list@);
    let ghost p = |t: Seq<char>| eq_ignore_case(t, key@);
    let mut i: usize = 0;
    while i < list.len()
        invariant
            i <= list.len(),
            all == texts(list@),
            forall|j: int| 0 <= j < i ==> !p(#[trigger] all[j]),
            p == (|t: Seq<char>| eq_ignore_case(t, key@)),
        decreases list.len() - i,
    {
        assert(all[i as int] == list@[i as int]@);
        if same_ignoring_case(list[i].as_str(), key) {
            proof {
                lemma_first_index(all, p, Some(i as int));
            }
            return Some(i);
        }
        i += 1;
    }
    proof {
        lemma_first_index(all, p, None);
    }
    None
}

/// Pairs of texts as texts.
pub open spec fn pairs_of_texts(pairs: Seq<(String, String)>) -> Seq<(Seq<char>, Seq<char>)> {
    pairs.map_values(|p: (String, String)| (p.0@, p.1@))
}

/// The first pair of a list that has the key as its first or as its second
/// text.
pub fn first_equal_in_either(pairs: &Vec<(String, String)>, key: &str) -> (r: Option<usize>)
    ensures
        pos(r) == first_index(
            pairs_of_texts(pairs@),
            |t: (Seq<char>, Seq<char>)| t.0 == key@ || t.1 == key@,
        ),
        r is Some ==> r->0 < pairs.len(),
{
    let ghost all = pairs_of_texts(pairs@);
    let ghost p = |t: (Seq<char>, Seq<char>)| t.0 == key@ || t.1 == key@;
    let mut i: usize = 0;
    while i < pairs.len()
        invariant
            i <= pairs.len(),
            all == pairs_of_texts(pairs@),
            forall|j: int| 0 <= j < i ==> !p(#[trigger] all[j]),
            p == (|t: (Seq<char>, Seq<char>)| t.0 == key@ || t.1 == key@),
        decreases pairs.len() - i,
    {
        assert(all[i as int] == (pairs@[i as int].0@, pairs@[i as int].1@));
        if same(pairs[i].0.as_str(), key) || same(pairs[i].1.as_str(), key) {
            proof {
                lemma_first_index(all, p, Some(i as int));
            }
            return Some(i);
        }
        i += 1;
    }
    proof {
        lemma_first_index(all, p, None);
    }
    None
}

/// A name and an optional key, as texts.
pub open spec fn names_and_keys(list: Seq<(String, Option<String>)>) -> Seq<
    (Seq<char>, Option<Seq<char>>),
> {
    list.map_values(|p: (String, Option<String>)| (p.0@, opt_text(p.1)))
}

/// A record with this name and this key stands for a name and a key: the
/// names are equal, or both have a key and the keys are equal.
pub open spec fn name_or_key_hit(
    record: (Seq<char>, Option<Seq<char>>),
    name: Seq<char>,
    key: Option<Seq<char>>,
) -> bool {
    record.0 == name || (record.1 is Some && key is Some && record.1->0 == key->0)
}

/// The first record of a list that has the name, or the key where both have
/// one.
pub fn first_by_name_or_key(
    list: &Vec<(String, Option<String>)>,
    name: &str,
    key: &Option<String>,
) -> (r: Option<usize>)
    ensures
        pos(r) == first_index(
            names_and_keys(list@),
            |t: (Seq<char>, Option<Seq<char>>)| name_or_key_hit(t, name@, opt_text(*key)),
        ),
        r is Some ==> r->0 < list.len(),
{
    let ghost all = names_and_keys(list@);
    let ghost p = |t: (Seq<char>, Option<Seq<char>>)| name_or_key_hit(t, name@, opt_text(*key));
    let mut i: usize = 0;
    while i < list.len()
        invariant
            i <= list.len(),
            all == names_and_keys(list@),
            forall|j: int| 0 <= j < i ==> !p(#[trigger] all[j]),
            p == (|t: (Seq<char>, Option<Seq<char>>)| name_or_key_hit(t, name@, opt_text(*key))),
        decreases list.len() - i,
    {
        assert(all[i as int] == (list@[i as int].0@, opt_text(list@[i as int].1)));
        let by_key = match (&list[i].1, key) {
            (Some(a), Some(b)) => same(a.as_str(), b.as_str()),
            _ => false,
        };
        if same(list[i].0.as_str(), name) || by_key {
            proof {
                lemma_first_index(all, p, Some(i as int));
            }
            return Some(i);
        }
        i += 1;
    }
    proof {
        lemma_first_index(all, p, None);
    }
    None
}

/// An institution stands for a row when it has the row's name or the row's
/// code, as stored.
pub open spec fn institution_has(inst: Institution, name: Seq<char>, code: Seq<char>) -> bool {
    inst.name@ == name || inst.code@ == code
}

/// The first institution with the given name or the given code.
pub fn find_institution(cands: &Vec<Institution>, name: &str, code: &str) -> (r: Option<usize>)
    ensures
        pos(r) == first_index(cands@, |c: Institution| institution_has(c, name@, code@)),
        r is Some ==> r->0 < cands.len(),
{
    let ghost p = |c: Institution| institution_has(c, name@, code@);
    let mut i: usize = 0;
    while i < cands.len()
        invariant
            i <= cands.len(),
            forall|j: int| 0 <= j < i ==> !p(#[trigger] cands@[j]),
            p == (|c: Institution| institution_has(c, name@, code@)),
        decreases cands.len() - i,
    {
        if same(cands[i].name.as_str(), name) || same(cands[i].code.as_str(), code) {
            proof {
                lemma_first_index(cands@, p, Some(i as int));
            }
            return Some(i);
        }
        i += 1;
    }
    proof {
        lemma_first_index(cands@, p, None);
    }
    None
}

/// The institution that an institution row stands for.
pub fn resolve_institution(row: &InstitutionRow, cands: &Vec<Institution>) -> (r: Option<usize>)
    ensures
        pos(r) == first_index(
            cands@,
            |c: Institution| institution_has(c, row.full_name@, row.short_code@),
        ),
        r is Some ==> r->0 < cands.len(),
{
    find_institution(cands, row.full_name.as_str(), row.short_code.as_str())
}

/// An institution is meant by a key when its name or its code is the key, up to
/// letter case.
pub open spec fn institution_folds_to(inst: Institution, key: Seq<char>) -> bool {
    lowercase(inst.name@) == lowercase(key) || lowercase(inst.code@) == lowercase(key)
}

/// An institution with the given lower-case name or lower-case code.
pub open spec fn institution_has_folded(inst: Institution, folded: Seq<char>) -> bool {
    lowercase(inst.name@) == folded || lowercase(inst.code@) == folded
}

fn folded_names(cands: &Vec<Institution>) -> (r: Vec<(String, String)>)
    ensures
        r@.len() == cands@.len(),
        forall|i: int|
            0 <= i < cands@.len() ==> (#[trigger] r@[i]).0@ == lowercase(cands@[i].name@)
                && r@[i].1@ == lowercase(cands@[i].code@),
{
    let mut r: Vec<(String, String)> = Vec::new();
    let mut i: usize = 0;
    while i < cands.len()
        invariant
            i <= cands.len(),
            r@.len() == i,
            forall|j: int|
                0 <= j < i ==> (#[trigger] r@[j]).0@ == lowercase(cands@[j].name@) && r@[j].1@
                    == lowercase(cands@[j].code@),
        decreases cands.len() - i,
    {
        r.push((to_lower(cands[i].name.as_str()), to_lower(cands[i].code.as_str())));
        i += 1;
    }
    r
}

/// The first institution whose lower-case name or code is `folded`.
pub fn find_institution_folded(cands: &Vec<Institution>, folded: &str) -> (r: Option<usize>)
    ensures
        pos(r) == first_index(cands@, |c: Institution| institution_has_folded(c, folded@)),
        r is Some ==> r->0 < cands.len(),
{
    let names = folded_names(cands);
    proof {
        assert forall|i: int| 0 <= i < names@.len() implies (|t: (Seq<char>, Seq<char>)|
            t.0 == folded@ || t.1 == folded@)(#[trigger] pairs_of_texts(names@)[i]) == (|
            c: Institution,
        | institution_has_folded(c, folded@))(cands@[i]) by {
            assert(pairs_of_texts(names@)[i] == (names@[i].0@, names@[i].1@));
        }
        lemma_first_index_mapped(
            pairs_of_texts(names@),
            cands@,
            |t: (Seq<char>, Seq<char>)| t.0 == folded@ || t.1 == folded@,
            |c: Institution| institution_has_folded(c, folded@),
        );
    }
    first_equal_in_either(&names, folded)
}

/// The institution that a team row names, looked up without regard to letter
/// case. A row that names none has none.
pub open spec fn team_institution(key: Option<String>, cands: Seq<Institution>) -> Option<int> {
    match key {
        Some(k) => first_index(cands, |c: Institution| institution_folds_to(c, k@)),
        None => None,
    }
}

/// The institution of a team row.
pub fn resolve_team_institution(key: &Option<String>, cands: &Vec<Institution>) -> (r: Option<
    usize,
>)
    ensures
        pos(r) == team_institution(*key, cands@),
        r is Some ==> r->0 < cands.len(),
{
    match key {
        Some(k) => {
            let folded = to_lower(k.as_str());
            let r = find_institution_folded(cands, folded.as_str());
            proof {
                let p = |c: Institution| institution_has_folded(c, folded@);
                let q = |c: Institution| institution_folds_to(c, k@);
                lemma_first_index_same(cands@, p, q);
                lemma_first_index_in_range(cands@, q);
            }
            r
        },
        None => None,
    }
}

/// Two rules that agree on every element of a list find the same element.
pub proof fn lemma_first_index_same<T>(s: Seq<T>, p: spec_fn(T) -> bool, q: spec_fn(T) -> bool)
    requires
        forall|j: int| 0 <= j < s.len() ==> p(#[trigger] s[j]) == q(s[j]),
    ensures
        first_index(s, p) == first_index(s, q),
        any_match(s, p) == any_match(s, q),
{
    if any_match(s, p) {
        let j = choose|j: int| 0 <= j < s.len() && p(#[trigger] s[j]);
        assert(q(s[j]));
        lemma_least_exists(s, p, j);
        let i = choose|i: int| is_first(s, p, Some(i));
        assert(is_first(s, q, Some(i)));
        lemma_first_index(s, q, Some(i));
    } else {
        if any_match(s, q) {
            let j = choose|j: int| 0 <= j < s.len() && q(#[trigger] s[j]);
            assert(p(s[j]));
        }
    }
}

/// What [`first_index`] finds is the first element that satisfies the rule.
pub proof fn lemma_first_index_in_range<T>(s: Seq<T>, p: spec_fn(T) -> bool)
    ensures
        is_first(s, p, first_index(s, p)),
{
    if any_match(s, p) {
        let j = choose|j: int| 0 <= j < s.len() && p(#[trigger] s[j]);
        lemma_least_exists(s, p, j);
    }
}

/// The institution at a position found by a lookup.
pub open spec fn institution_at(cands: Seq<Institution>, at: Option<int>) -> Option<Institution> {
    match at {
        Some(i) => Some(cands[i]),
        None => None,
    }
}

/// The texts that a team row is compared by.
pub struct TeamKeys {
    /// The row's trimmed full name behind the institution's name and a blank,
    /// where the prefix is in use.
    pub long_name: String,
    /// The row's trimmed short name.
    pub short_name: Option<String>,
    /// The institution's code and a blank, where the prefix is in use; empty
    /// otherwise.
    pub short_prefix: String,
    /// The row's trimmed code name.
    pub code_name: Option<String>,
}

/// The keys of a team row as texts.
pub struct TeamKey {
    pub long_name: Seq<char>,
    pub short_name: Option<Seq<char>>,
    pub short_prefix: Seq<char>,
    pub code_name: Option<Seq<char>>,
}

impl View for TeamKeys {
    type V = TeamKey;

    open spec fn view(&self) -> TeamKey {
        TeamKey {
            long_name: self.long_name@,
            short_name: opt_text(self.short_name),
            short_prefix: self.short_prefix@,
            code_name: opt_text(self.code_name),
        }
    }
}

/// The trimmed form of an optional text.
pub open spec fn opt_trimmed(o: Option<String>) -> Option<Seq<char>> {
    match o {
        Some(s) => Some(trimmed(s@)),
        None => None,
    }
}

/// The keys of a team row. The institution's name and code are put in front,
/// each with a blank, where the row or the run asks for the prefix and the row
/// has an institution.
pub open spec fn team_key(row: TeamRow, inst: Option<Institution>, prefix_all: bool) -> TeamKey {
    let prefixed = (row.use_institution_prefix || prefix_all) && inst is Some;
    TeamKey {
        long_name: if prefixed {
            inst->0.name@ + blank() + trimmed(row.full_name@)
        } else {
            trimmed(row.full_name@)
        },
        short_name: opt_trimmed(row.short_name),
        short_prefix: if prefixed {
            inst->0.code@ + blank()
        } else {
            Seq::<char>::empty()
        },
        code_name: opt_trimmed(row.code_name),
    }
}

/// The trimmed copy of an optional text.
pub fn trim_opt(o: &Option<String>) -> (r: Option<String>)
    ensures
        opt_text(r) == opt_trimmed(*o),
{
    match o {
        Some(s) => Some(trim(s.as_str())),
        None => None,
    }
}

/// Computes the keys of a team row.
pub fn team_keys(row: &TeamRow, inst: Option<&Institution>, prefix_all: bool) -> (r: TeamKeys)
    ensures
        r@ == team_key(
            *row,
            match inst {
                Some(i) => Some(*i),
                None => None,
            },
            prefix_all,
        ),
{
    let name = trim(row.full_name.as_str());
    let short_name = trim_opt(&row.short_name);
    let code_name = trim_opt(&row.code_name);
    let flagged = row.use_institution_prefix || prefix_all;
    match inst {
        Some(i) if flagged => {
            let long_name = join_with_blank(i.name.as_str(), name.as_str());
            let short_prefix = join(i.code.as_str(), " ");
            proof {
                reveal_strlit(" ");
                assert(" "@ =~= blank());
            }
            TeamKeys { long_name, short_name, short_prefix, code_name }
        },
        _ => TeamKeys { long_name: name, short_name, short_prefix: String::new(), code_name },
    }
}

/// The team has the long name of the keys.
pub open spec fn long_name_hit(t: Team, k: TeamKey) -> bool {
    t.long_name@ == k.long_name
}

/// The team's short name, behind the prefix of the keys, is the short name of
/// the keys.
pub open spec fn short_name_hit(t: Team, k: TeamKey) -> bool {
    k.short_name is Some && k.short_prefix + t.short_name@ == k.short_name->0
}

/// The team and the keys have the same code name, or both have none.
pub open spec fn code_name_hit(t: Team, k: TeamKey) -> bool {
    opt_text(t.code_name) == k.code_name
}

/// The team that the keys stand for. The rules are tried in turn over the whole
/// list: the long name first, then the short name, then the code name. The
/// first rule that any team satisfies decides, and picks the first such team.
pub open spec fn team_match(cands: Seq<Team>, k: TeamKey) -> Option<int> {
    if any_match(cands, |t: Team| long_name_hit(t, k)) {
        first_index(cands, |t: Team| long_name_hit(t, k))
    } else if any_match(cands, |t: Team| short_name_hit(t, k)) {
        first_index(cands, |t: Team| short_name_hit(t, k))
    } else {
        first_index(cands, |t: Team| code_name_hit(t, k))
    }
}

/// The long name goes first. Where some team has the long name of the keys,
/// the first such team is found, whatever team has the short name or the code
/// name of the keys and wherever it stands in the list.
pub proof fn lemma_long_name_wins(cands: Seq<Team>, k: TeamKey, long: int, other: int)
    requires
        0 <= long < cands.len(),
        0 <= other < cands.len(),
        long_name_hit(cands[long], k),
        short_name_hit(cands[other], k) || code_name_hit(cands[other], k),
        !long_name_hit(cands[other], k),
    ensures
        team_match(cands, k) is Some,
        team_match(cands, k) != Some(other),
        long_name_hit(cands[team_match(cands, k)->0], k),
        team_match(cands, k)->0 <= long,
{
    let p = |t: Team| long_name_hit(t, k);
    assert(p(cands[long]));
    lemma_first_index_in_range(cands, p);
    let found = first_index(cands, p);
    if found->0 > long {
        assert(!p(cands[long]));
    }
}

fn find_by_long_name(cands: &Vec<Team>, keys: &TeamKeys) -> (r: Option<usize>)
    ensures
        pos(r) == first_index(cands@, |t: Team| long_name_hit(t, keys@)),
        r is Some <==> any_match(cands@, |t: Team| long_name_hit(t, keys@)),
{
    let ghost p = |t: Team| long_name_hit(t, keys@);
    let mut i: usize = 0;
    while i < cands.len()
        invariant
            i <= cands.len(),
            forall|j: int| 0 <= j < i ==> !p(#[trigger] cands@[j]),
            p == (|t: Team| long_name_hit(t, keys@)),
        decreases cands.len() - i,
    {
        if same(cands[i].long_name.as_str(), keys.long_name.as_str()) {
            proof {
                lemma_first_index(cands@, p, Some(i as int));
            }
            return Some(i);
        }
        i += 1;
    }
    proof {
        lemma_first_index(cands@, p, None);
    }
    None
}

fn find_by_short_name(cands: &Vec<Team>, keys: &TeamKeys) -> (r: Option<usize>)
    ensures
        pos(r) == first_index(cands@, |t: Team| short_name_hit(t, keys@)),
        r is Some <==> any_match(cands@, |t: Team| short_name_hit(t, keys@)),
{
    let ghost p = |t: Team| short_name_hit(t, keys@);
    let mut i: usize = 0;
    while i < cands.len()
        invariant
            i <= cands.len(),
            forall|j: int| 0 <= j < i ==> !p(#[trigger] cands@[j]),
            p == (|t: Team| short_name_hit(t, keys@)),
        decreases cands.len() - i,
    {
        let hit = match &keys.short_name {
            Some(wanted) => {
                let full = join(keys.short_prefix.as_str(), cands[i].short_name.as_str());
                same(full.as_str(), wanted.as_str())
            },
            None => false,
        };
        if hit {
            proof {
                lemma_first_index(cands@, p, Some(i as int));
            }
            return Some(i);
        }
        i += 1;
    }
    proof {
        lemma_first_index(cands@, p, None);
    }
    None
}

fn find_by_code_name(cands: &Vec<Team>, keys: &TeamKeys) -> (r: Option<usize>)
    ensures
        pos(r) == first_index(cands@, |t: Team| code_name_hit(t, keys@)),
{
    let ghost p = |t: Team| code_name_hit(t, keys@);
    let mut i: usize = 0;
    while i < cands.len()
        invariant
            i <= cands.len(),
            forall|j: int| 0 <= j < i ==> !p(#[trigger] cands@[j]),
            p == (|t: Team| code_name_hit(t, keys@)),
        decreases cands.len() - i,
    {
        if same_opt(&cands[i].code_name, &keys.code_name) {
            proof {
                lemma_first_index(cands@, p, Some(i as int));
            }
            return Some(i);
        }
        i += 1;
    }
    proof {
        lemma_first_index(cands@, p, None);
    }
    None
}

/// The team that the keys stand for.
pub fn find_team(cands: &Vec<Team>, keys: &TeamKeys) -> (r: Option<usize>)
    ensures
        pos(r) == team_match(cands@, keys@),
        r is Some ==> r->0 < cands.len(),
{
    proof {
        lemma_first_index_in_range(cands@, |t: Team| long_name_hit(t, keys@));
        lemma_first_index_in_range(cands@, |t: Team| short_name_hit(t, keys@));
        lemma_first_index_in_range(cands@, |t: Team| code_name_hit(t, keys@));
    }
    match find_by_long_name(cands, keys) {
        Some(i) => Some(i),
        None => match find_by_short_name(cands, keys) {
            Some(i) => Some(i),
            None => find_by_code_name(cands, keys),
        },
    }
}

/// The team that a team row stands for, given the known institutions and
/// whether the run puts the institution in front of every team's names.
pub open spec fn team_of_row(
    row: TeamRow,
    cands: Seq<Team>,
    institutions: Seq<Institution>,
    prefix_all: bool,
) -> Option<int> {
    team_match(
        cands,
        team_key(
            row,
            institution_at(institutions, team_institution(row.institution, institutions)),
            prefix_all,
        ),
    )
}

/// The team that a team row stands for.
pub fn resolve_team(
    row: &TeamRow,
    cands: &Vec<Team>,
    institutions: &Vec<Institution>,
    prefix_all: bool,
) -> (r: Option<usize>)
    ensures
        pos(r) == team_of_row(*row, cands@, institutions@, prefix_all),
        r is Some ==> r->0 < cands.len(),
{
    let keys = match resolve_team_institution(&row.institution, institutions) {
        Some(i) => team_keys(row, Some(&institutions[i]), prefix_all),
        None => team_keys(row, None, prefix_all),
    };
    find_team(cands, &keys)
}

/// A judge stands for a name when the two trimmed names are equal up to ASCII
/// letter case.
pub open spec fn judge_has(judge: Adjudicator, name: Seq<char>) -> bool {
    eq_ignore_case(trimmed(judge.name@), trimmed(name))
}

/// A judge whose trimmed name is `key` up to ASCII letter case.
pub open spec fn judge_has_key(judge: Adjudicator, key: Seq<char>) -> bool {
    eq_ignore_case(trimmed(judge.name@), key)
}

fn trimmed_judge_names(cands: &Vec<Adjudicator>) -> (r: Vec<String>)
    ensures
        r@.len() == cands@.len(),
        forall|i: int| 0 <= i < cands@.len() ==> (#[trigger] r@[i])@ == trimmed(cands@[i].name@),
{
    let mut r: Vec<String> = Vec::new();
    let mut i: usize = 0;
    while i < cands.len()
        invariant
            i <= cands.len(),
            r@.len() == i,
            forall|j: int| 0 <= j < i ==> (#[trigger] r@[j])@ == trimmed(cands@[j].name@),
        decreases cands.len() - i,
    {
        r.push(trim(cands[i].name.as_str()));
        i += 1;
    }
    r
}

/// The first judge whose trimmed name is `key` up to ASCII letter case.
pub fn find_judge(cands: &Vec<Adjudicator>, key: &str) -> (r: Option<usize>)
    ensures
        pos(r) == first_index(cands@, |c: Adjudicator| judge_has_key(c, key@)),
        r is Some ==> r->0 < cands.len(),
{
    let names = trimmed_judge_names(cands);
    proof {
        assert forall|i: int| 0 <= i < names@.len() implies (|t: Seq<char>|
            eq_ignore_case(t, key@))(#[trigger] texts(names@)[i]) == (|c: Adjudicator|
            judge_has_key(c, key@))(cands@[i]) by {
            assert(texts(names@)[i] == names@[i]@);
        }
        lemma_first_index_mapped(
            texts(names@),
            cands@,
            |t: Seq<char>| eq_ignore_case(t, key@),
            |c: Adjudicator| judge_has_key(c, key@),
        );
    }
    first_equal_ignoring_case(&names, key)
}

/// The judge that a judge row stands for.
pub fn resolve_judge(row: &JudgeRow, cands: &Vec<Adjudicator>) -> (r: Option<usize>)
    ensures
        pos(r) == first_index(cands@, |c: Adjudicator| judge_has(c, row.name@)),
        r is Some ==> r->0 < cands.len(),
{
    let key = trim(row.name.as_str());
    proof {
        lemma_first_index_same(
            cands@,
            |c: Adjudicator| judge_has_key(c, key@),
            |c: Adjudicator| judge_has(c, row.name@),
        );
    }
    find_judge(cands, key.as_str())
}

/// A speaker stands for a row when the two trimmed names are equal, letter
/// case included, or when both have a URL key and the keys are equal.
pub open spec fn speaker_has(rec: SpeakerRecord, name: Seq<char>, url_key: Option<Seq<char>>) -> bool {
    trimmed(rec.name@) == trimmed(name) || (rec.url_key is Some && url_key is Some
        && rec.url_key->0@ == url_key->0)
}

/// A speaker whose trimmed name is `key`, or whose URL key is the given one.
pub open spec fn speaker_has_key(
    rec: SpeakerRecord,
    key: Seq<char>,
    url_key: Option<Seq<char>>,
) -> bool {
    trimmed(rec.name@) == key || (rec.url_key is Some && url_key is Some && rec.url_key->0@
        == url_key->0)
}

fn trimmed_speaker_names(cands: &Vec<SpeakerRecord>) -> (r: Vec<(String, Option<String>)>)
    ensures
        r@.len() == cands@.len(),
        forall|i: int|
            0 <= i < cands@.len() ==> (#[trigger] r@[i]).0@ == trimmed(cands@[i].name@)
                && opt_text(r@[i].1) == opt_text(cands@[i].url_key),
{
    let mut r: Vec<(String, Option<String>)> = Vec::new();
    let mut i: usize = 0;
    while i < cands.len()
        invariant
            i <= cands.len(),
            r@.len() == i,
            forall|j: int|
                0 <= j < i ==> (#[trigger] r@[j]).0@ == trimmed(cands@[j].name@) && opt_text(
                    r@[j].1,
                ) == opt_text(cands@[j].url_key),
        decreases cands.len() - i,
    {
        let key = match &cands[i].url_key {
            Some(k) => Some(k.clone()),
            None => None,
        };
        r.push((trim(cands[i].name.as_str()), key));
        i += 1;
    }
    r
}

/// The first speaker whose trimmed name is `key` or whose URL key is `url_key`.
pub fn find_speaker(cands: &Vec<SpeakerRecord>, key: &str, url_key: &Option<String>) -> (r: Option<
    usize,
>)
    ensures
        pos(r) == first_index(
            cands@,
            |c: SpeakerRecord| speaker_has_key(c, key@, opt_text(*url_key)),
        ),
        r is Some ==> r->0 < cands.len(),
{
    let names = trimmed_speaker_names(cands);
    proof {
        assert forall|i: int| 0 <= i < names@.len() implies (|t: (Seq<char>, Option<Seq<char>>)|
            name_or_key_hit(t, key@, opt_text(*url_key)))(#[trigger] names_and_keys(names@)[i])
            == (|c: SpeakerRecord| speaker_has_key(c, key@, opt_text(*url_key)))(cands@[i]) by {
            assert(names_and_keys(names@)[i] == (names@[i].0@, opt_text(names@[i].1)));
        }
        lemma_first_index_mapped(
            names_and_keys(names@),
            cands@,
            |t: (Seq<char>, Option<Seq<char>>)| name_or_key_hit(t, key@, opt_text(*url_key)),
            |c: SpeakerRecord| speaker_has_key(c, key@, opt_text(*url_key)),
        );
    }
    first_by_name_or_key(&names, key, url_key)
}

/// The speaker that a speaker row stands for. Speakers are compared over the
/// whole tournament, not within one team.
pub fn resolve_speaker(row: &Speaker, cands: &Vec<SpeakerRecord>) -> (r: Option<usize>)
    ensures
        pos(r) == first_index(
            cands@,
            |c: SpeakerRecord| speaker_has(c, row.name@, opt_text(row.url_key)),
        ),
        r is Some ==> r->0 < cands.len(),
{
    let key = trim(row.name.as_str());
    proof {
        lemma_first_index_same(
            cands@,
            |c: SpeakerRecord| speaker_has_key(c, key@, opt_text(row.url_key)),
            |c: SpeakerRecord| speaker_has(c, row.name@, opt_text(row.url_key)),
        );
    }
    find_speaker(cands, key.as_str(), &row.url_key)
}

} // verus!
