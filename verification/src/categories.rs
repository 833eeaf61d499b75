//! The category materializer: break categories and speaker categories are
//! created the first time a row names them, and found again ever after.
//!
//! A category is known by its slug, compared with the trimmed name up to ASCII
//! letter case. The caller holds the list of known categories, adds every
//! category that the service returns, and asks again for the next name.

use crate::entities::Category;
use crate::resolve::{
    first_index, lemma_first_index, lemma_first_index_grows, lemma_first_index_in_range, pos,
};
use crate::sync::{
    creates, faithful, known, lemma_known_key_not_created, lemma_same_key_created_once, run,
};
use crate::text::{ascii_lower, eq_ignore_case, same_ignoring_case, to_ascii_lower, trim, trimmed};
use vstd::prelude::*;

verus! {

#[derive(Debug, Clone, Copy, PartialEq, Eq)]
pub enum CategoryKind {
    Break,
    Speaker,
}

/// The break size that a new break category is created with.
pub const DEFAULT_BREAK_SIZE: u64 = 4;

/// The priority that a new break category is created with.
pub const DEFAULT_PRIORITY: u64 = 1;

/// What is sent to create a category. The last three fields are sent for break
/// categories only.
#[derive(Debug, Clone, PartialEq, Eq)]
pub struct CategoryRequest {
    pub name: String,
    pub slug: String,
    pub seq: u64,
    pub break_size: Option<u64>,
    pub is_general: Option<bool>,
    pub priority: Option<u64>,
}

/// What to do about one category name.
#[derive(Debug, Clone, PartialEq, Eq)]
pub enum CategoryStep {
    /// The category is known: its position in the list.
    Known(usize),
    /// The category has to be created.
    Create(CategoryRequest),
}

/// The category has the slug `key`, up to ASCII letter case.
pub open spec fn category_has(cat: Category, key: Seq<char>) -> bool {
    eq_ignore_case(cat.slug@, key)
}

/// The slug that a category is created under: the trimmed name, in lower case
/// for a break category.
pub open spec fn slug_for(kind: CategoryKind, key: Seq<char>) -> Seq<char> {
    match kind {
        CategoryKind::Break => ascii_lower(key),
        CategoryKind::Speaker => key,
    }
}

/// The sequence number of the next category after `count` known ones: one
/// more than their number, as far as numbers go.
pub open spec fn next_seq(count: int) -> u64 {
    if count < u64::MAX {
        (count + 1) as u64
    } else {
        u64::MAX
    }
}

/// `r` is the request that creates the category with the trimmed name `key`
/// as the next one after `count` known categories.
pub open spec fn is_new_category(
    r: CategoryRequest,
    key: Seq<char>,
    count: int,
    kind: CategoryKind,
) -> bool {
    &&& r.name@ == key
    &&& r.slug@ == slug_for(kind, key)
    &&& r.seq == next_seq(count)
    &&& match kind {
        CategoryKind::Break => r.break_size == Some(DEFAULT_BREAK_SIZE) && r.is_general == Some(
            false,
        ) && r.priority == Some(DEFAULT_PRIORITY),
        CategoryKind::Speaker => r.break_size is None && r.is_general is None
            && r.priority is None,
    }
}

/// The first known category with the slug `key`, up to ASCII letter case.
pub fn find_category(cache: &Vec<Category>, key: &str) -> (r: Option<usize>)
    ensures
        pos(r) == first_index(cache@, |c: Category| category_has(c, key@)),
        r is Some ==> r->0 < cache.len(),
{
    let ghost p = |c: Category| category_has(c, key@);
    let mut i: usize = 0;
    while i < cache.len()
        invariant
            i <= cache.len(),
            forall|j: int| 0 <= j < i ==> !p(#[trigger] cache@[j]),
            p == (|c: Category| category_has(c, key@)),
        decreases cache.len() - i,
    {
        if same_ignoring_case(cache[i].slug.as_str(), key) {
            proof {
                lemma_first_index(cache@, p, Some(i as int));
            }
            return Some(i);
        }
        i += 1;
    }
    proof {
        lemma_first_index(cache@, p, None);
    }
    None
}

/// The request that creates the category with the trimmed name `key` as the
/// next one after `count` known categories.
pub fn new_category(key: &str, count: usize, kind: CategoryKind) -> (r: CategoryRequest)
    ensures
        is_new_category(r, key@, count as int, kind),
{
    let seq: u64 = if (count as u64) < u64::MAX {
        count as u64 + 1
    } else {
        u64::MAX
    };
    match kind {
        CategoryKind::Break => CategoryRequest {
            name: key.to_owned(),
            slug: to_ascii_lower(key),
            seq,
            break_size: Some(DEFAULT_BREAK_SIZE),
            is_general: Some(false),
            priority: Some(DEFAULT_PRIORITY),
        },
        CategoryKind::Speaker => CategoryRequest {
            name: key.to_owned(),
            slug: key.to_owned(),
            seq,
            break_size: None,
            is_general: None,
            priority: None,
        },
    }
}

/// What has to be done about the trimmed name `key`: nothing, where a known
/// category has that slug, and a creation with the next sequence number
/// otherwise.
pub fn materialize_key(key: &str, cache: &Vec<Category>, kind: CategoryKind) -> (r: CategoryStep)
    ensures
        match first_index(cache@, |c: Category| category_has(c, key@)) {
            Some(i) => r == CategoryStep::Known(i as usize) && i < cache.len(),
            None => r is Create && is_new_category(
                r->Create_0,
                key@,
                cache.len() as int,
                kind,
            ),
        },
{
    match find_category(cache, key) {
        Some(i) => CategoryStep::Known(i),
        None => CategoryStep::Create(new_category(key, cache.len(), kind)),
    }
}

/// What has to be done about a category name as a row gives it.
pub fn materialize(name: &str, cache: &Vec<Category>, kind: CategoryKind) -> (r: CategoryStep)
    ensures
        r is Known <==> known(cache@, category_key(name@), category_hit()),
        match first_index(cache@, |c: Category| category_has(c, trimmed(name@))) {
            Some(i) => r == CategoryStep::Known(i as usize) && i < cache.len(),
            None => r is Create && is_new_category(
                r->Create_0,
                trimmed(name@),
                cache.len() as int,
                kind,
            ),
        },
{
    let key = trim(name);
    proof {
        let p = |c: Category| category_has(c, trimmed(name@));
        lemma_first_index_in_range(cache@, p);
        if known(cache@, category_key(name@), category_hit()) {
            let j = choose|j: int|
                0 <= j < cache@.len() && category_hit()(category_key(name@), #[trigger] cache@[j]);
            assert(p(cache@[j]));
        }
        if first_index(cache@, p) is Some {
            let i = first_index(cache@, p)->0;
            assert(category_hit()(category_key(name@), cache@[i]));
        }
    }
    materialize_key(key.as_str(), cache, kind)
}

/// The key of a category name: the trimmed name in lower case.
pub open spec fn category_key(name: Seq<char>) -> Seq<char> {
    ascii_lower(trimmed(name))
}

/// The rule by which a category is found under a key.
pub open spec fn category_hit() -> spec_fn(Seq<char>, Category) -> bool {
    |key: Seq<char>, c: Category| ascii_lower(c.slug@) == key
}

/// The keys of a list of category names.
pub open spec fn category_keys(names: Seq<Seq<char>>) -> Seq<Seq<char>> {
    names.map_values(|n: Seq<char>| category_key(n))
}

/// Lower-casing a text twice is lower-casing it once.
pub proof fn lemma_ascii_lower_twice(s: Seq<char>)
    ensures
        ascii_lower(ascii_lower(s)) == ascii_lower(s),
{
    assert(ascii_lower(ascii_lower(s)) =~= ascii_lower(s));
}

/// A category that the service stores under the slug it was sent is found
/// again under the key of the name it was created for.
pub proof fn lemma_created_category_is_found(
    name: Seq<char>,
    kind: CategoryKind,
    created: Category,
)
    requires
        created.slug@ == slug_for(kind, trimmed(name)),
    ensures
        category_hit()(category_key(name), created),
        category_has(created, trimmed(name)),
{
    lemma_ascii_lower_twice(trimmed(name));
}

/// A category keeps its identity. Once a category is known under a key, the
/// key stands for that same category whatever categories are added behind
/// it, so a name that was materialized is never created again and never
/// stands for another category.
pub proof fn lemma_category_keeps_identity(cache: Seq<Category>, more: Seq<Category>, key: Seq<char>)
    requires
        first_index(cache, |c: Category| category_has(c, key)) is Some,
    ensures
        first_index(cache + more, |c: Category| category_has(c, key)) == first_index(
            cache,
            |c: Category| category_has(c, key),
        ),
{
    let p = |c: Category| category_has(c, key);
    lemma_first_index_in_range(cache, p);
    lemma_first_index(cache, p, first_index(cache, p));
    lemma_first_index_grows(cache, p, more);
}

/// Uniqueness of materialization. Take the category names of a whole run in
/// the order in which they are looked up, and a service that stores each new
/// category under the slug it was sent. Then a name has a category created
/// exactly if no category was known under its key at the start and no earlier
/// name has the same key. So for all the names that differ only in letter case
/// or in white space around them, one creation is issued, or none.
pub proof fn lemma_one_creation_per_category(
    names: Seq<Seq<char>>,
    cache: Seq<Category>,
    answers: Seq<Category>,
    j: int,
)
    requires
        faithful(category_keys(names), answers, category_hit()),
        0 <= j < names.len(),
    ensures
        creates(category_keys(names), cache, answers, category_hit(), j) <==> (!known(
            cache,
            category_key(names[j]),
            category_hit(),
        ) && forall|i: int| 0 <= i < j ==> category_key(#[trigger] names[i]) != category_key(names[j])),
{
    let keys = category_keys(names);
    let hit = category_hit();
    assert(keys[j] == category_key(names[j]));
    if known(cache, keys[j], hit) {
        lemma_known_key_not_created(keys, cache, answers, hit, j);
    }
    if exists|i: int| 0 <= i < j && category_key(#[trigger] names[i]) == category_key(names[j]) {
        let i = choose|i: int|
            0 <= i < j && category_key(#[trigger] names[i]) == category_key(names[j]);
        assert(keys[i] == category_key(names[i]));
        lemma_same_key_created_once(keys, cache, answers, hit, i, j);
    }
    if !creates(keys, cache, answers, hit, j) {
        let before = run(keys.take(j), cache, answers.take(j), hit);
        lemma_known_from(keys.take(j), cache, answers.take(j), keys[j]);
        if !known(cache, keys[j], hit) {
            let i = choose|i: int| 0 <= i < keys.take(j).len() && keys.take(j)[i] == keys[j];
            assert(keys.take(j)[i] == keys[i]);
            assert(keys[i] == category_key(names[i]));
        }
    }
}

/// A key that is known after an import was known before it or is the key of
/// one of the rows, provided that the service is faithful.
proof fn lemma_known_from(
    keys: Seq<Seq<char>>,
    cache: Seq<Category>,
    answers: Seq<Category>,
    key: Seq<char>,
)
    requires
        answers.len() == keys.len(),
        forall|i: int| 0 <= i < keys.len() ==> category_hit()(#[trigger] keys[i], answers[i]),
        known(run(keys, cache, answers, category_hit()), key, category_hit()),
    ensures
        known(cache, key, category_hit()) || exists|i: int|
            0 <= i < keys.len() && keys[i] == key,
    decreases keys.len(),
{
    let hit = category_hit();
    if keys.len() > 0 {
        let before = run(keys.drop_last(), cache, answers.drop_last(), hit);
        let after = run(keys, cache, answers, hit);
        let j = choose|j: int| 0 <= j < after.len() && hit(key, #[trigger] after[j]);
        if j < before.len() {
            assert(after[j] == before[j]);
            assert(known(before, key, hit));
            assert forall|i: int| 0 <= i < keys.drop_last().len() implies hit(
                #[trigger] keys.drop_last()[i],
                answers.drop_last()[i],
            ) by {
                assert(keys.drop_last()[i] == keys[i]);
            }
            lemma_known_from(keys.drop_last(), cache, answers.drop_last(), key);
            if !known(cache, key, hit) {
                let i = choose|i: int| 0 <= i < keys.drop_last().len() && keys.drop_last()[i] == key;
                assert(keys[i] == key);
            }
        } else {
            assert(after[j] == answers.last());
            assert(hit(keys[keys.len() - 1], answers[keys.len() - 1]));
            assert(keys[keys.len() - 1] == key);
        }
    }
}

} // verus!
