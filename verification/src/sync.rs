//! The shape that every import has: rows are taken in turn, a row whose record
//! is already known is skipped, and any other row has its record created and
//! added to the known records.
//!
//! The model is stated over the keys of the rows and over the answers of the
//! service, one per row: the record that it returns if it is asked to create
//! that row. The laws hold for every service whose answers can be found again
//! under the key they were created for.

use vstd::prelude::*;

verus! {

/// Some known record is a hit for the key.
pub open spec fn known<K, E>(cache: Seq<E>, key: K, hit: spec_fn(K, E) -> bool) -> bool {
    exists|j: int| 0 <= j < cache.len() && hit(key, #[trigger] cache[j])
}

/// The known records after the rows with the given keys have been imported in
/// turn.
pub open spec fn run<K, E>(
    keys: Seq<K>,
    cache: Seq<E>,
    answers: Seq<E>,
    hit: spec_fn(K, E) -> bool,
) -> Seq<E>
    decreases keys.len(),
{
    if keys.len() == 0 {
        cache
    } else {
        let before = run(keys.drop_last(), cache, answers.drop_last(), hit);
        if known(before, keys.last(), hit) {
            before
        } else {
            before.push(answers.last())
        }
    }
}

/// Row `i` has a record created for it.
pub open spec fn creates<K, E>(
    keys: Seq<K>,
    cache: Seq<E>,
    answers: Seq<E>,
    hit: spec_fn(K, E) -> bool,
    i: int,
) -> bool {
    !known(run(keys.take(i), cache, answers.take(i), hit), keys[i], hit)
}

/// The service answers every creation with a record that is a hit for the key
/// it was created for.
pub open spec fn faithful<K, E>(keys: Seq<K>, answers: Seq<E>, hit: spec_fn(K, E) -> bool) -> bool {
    &&& answers.len() == keys.len()
    &&& forall|i: int| 0 <= i < keys.len() ==> hit(#[trigger] keys[i], answers[i])
}

/// `a` is the beginning of `b`.
pub open spec fn begins<E>(a: Seq<E>, b: Seq<E>) -> bool {
    a.len() <= b.len() && b.take(a.len() as int) == a
}

/// An import only adds records, and adds them at the end.
pub proof fn lemma_run_keeps<K, E>(
    keys: Seq<K>,
    cache: Seq<E>,
    answers: Seq<E>,
    hit: spec_fn(K, E) -> bool,
)
    ensures
        begins(cache, run(keys, cache, answers, hit)),
        run(keys, cache, answers, hit).len() <= cache.len() + keys.len(),
    decreases keys.len(),
{
    if keys.len() == 0 {
        assert(cache.take(cache.len() as int) == cache);
    } else {
        lemma_run_keeps(keys.drop_last(), cache, answers.drop_last(), hit);
        let before = run(keys.drop_last(), cache, answers.drop_last(), hit);
        let after = run(keys, cache, answers, hit);
        assert(after.take(cache.len() as int) == before.take(cache.len() as int));
    }
}

/// A key that has a known record keeps it when records are added at the end.
pub proof fn lemma_known_stays<K, E>(a: Seq<E>, b: Seq<E>, key: K, hit: spec_fn(K, E) -> bool)
    requires
        begins(a, b),
        known(a, key, hit),
    ensures
        known(b, key, hit),
{
    let j = choose|j: int| 0 <= j < a.len() && hit(key, #[trigger] a[j]);
    assert(b.take(a.len() as int)[j] == b[j]);
    assert(hit(key, b[j]));
}

/// After an import against a faithful service every row has a known record.
pub proof fn lemma_run_covers<K, E>(
    keys: Seq<K>,
    cache: Seq<E>,
    answers: Seq<E>,
    hit: spec_fn(K, E) -> bool,
    i: int,
)
    requires
        faithful(keys, answers, hit),
        0 <= i < keys.len(),
    ensures
        known(run(keys, cache, answers, hit), keys[i], hit),
    decreases keys.len(),
{
    let before = run(keys.drop_last(), cache, answers.drop_last(), hit);
    let after = run(keys, cache, answers, hit);
    if i < keys.len() - 1 {
        assert(faithful(keys.drop_last(), answers.drop_last(), hit)) by {
            assert forall|k: int| 0 <= k < keys.drop_last().len() implies hit(
                #[trigger] keys.drop_last()[k],
                answers.drop_last()[k],
            ) by {
                assert(keys.drop_last()[k] == keys[k]);
            }
        }
        lemma_run_covers(keys.drop_last(), cache, answers.drop_last(), hit, i);
        assert(keys.drop_last()[i] == keys[i]);
        if !known(before, keys.last(), hit) {
            assert(after.take(before.len() as int) == before);
        } else {
            assert(after.take(before.len() as int) == before);
        }
        lemma_known_stays(before, after, keys[i], hit);
    } else {
        if !known(before, keys.last(), hit) {
            assert(hit(keys[i], answers[i]));
            assert(after[before.len() as int] == answers.last());
            assert(hit(keys[i], after[before.len() as int]));
        }
    }
}

/// Where every row has a known record, an import changes nothing, whatever the
/// service would answer.
pub proof fn lemma_run_of_known<K, E>(
    keys: Seq<K>,
    cache: Seq<E>,
    answers: Seq<E>,
    hit: spec_fn(K, E) -> bool,
)
    requires
        forall|i: int| 0 <= i < keys.len() ==> known(cache, #[trigger] keys[i], hit),
    ensures
        run(keys, cache, answers, hit) == cache,
    decreases keys.len(),
{
    if keys.len() > 0 {
        assert forall|i: int| 0 <= i < keys.drop_last().len() implies known(
            cache,
            #[trigger] keys.drop_last()[i],
            hit,
        ) by {
            assert(keys.drop_last()[i] == keys[i]);
        }
        lemma_run_of_known(keys.drop_last(), cache, answers.drop_last(), hit);
        assert(known(cache, keys[keys.len() - 1], hit));
    }
}

/// Idempotence: importing the same rows a second time creates nothing. The
/// known records after the second import are those after the first, so their
/// number is the same.
pub proof fn lemma_second_run_creates_nothing<K, E>(
    keys: Seq<K>,
    cache: Seq<E>,
    answers: Seq<E>,
    later_answers: Seq<E>,
    hit: spec_fn(K, E) -> bool,
)
    requires
        faithful(keys, answers, hit),
    ensures
        run(keys, run(keys, cache, answers, hit), later_answers, hit) == run(
            keys,
            cache,
            answers,
            hit,
        ),
        forall|i: int|
            0 <= i < keys.len() ==> !creates(
                keys,
                run(keys, cache, answers, hit),
                later_answers,
                hit,
                i,
            ),
{
    let first = run(keys, cache, answers, hit);
    assert forall|i: int| 0 <= i < keys.len() implies known(first, #[trigger] keys[i], hit) by {
        lemma_run_covers(keys, cache, answers, hit, i);
    }
    lemma_run_of_known(keys, first, later_answers, hit);
    assert forall|i: int| 0 <= i < keys.len() implies !creates(
        keys,
        first,
        later_answers,
        hit,
        i,
    ) by {
        lemma_run_covers(keys, cache, answers, hit, i);
        lemma_run_keeps(keys.take(i), first, later_answers.take(i), hit);
        lemma_known_stays(
            first,
            run(keys.take(i), first, later_answers.take(i), hit),
            keys[i],
            hit,
        );
    }
}

/// Of two rows with the same key, the later one never has a record created.
pub proof fn lemma_same_key_created_once<K, E>(
    keys: Seq<K>,
    cache: Seq<E>,
    answers: Seq<E>,
    hit: spec_fn(K, E) -> bool,
    i: int,
    j: int,
)
    requires
        faithful(keys, answers, hit),
        0 <= i < j < keys.len(),
        keys[i] == keys[j],
    ensures
        !creates(keys, cache, answers, hit, j),
{
    assert(faithful(keys.take(j), answers.take(j), hit)) by {
        assert forall|k: int| 0 <= k < keys.take(j).len() implies hit(
            #[trigger] keys.take(j)[k],
            answers.take(j)[k],
        ) by {
            assert(keys.take(j)[k] == keys[k]);
        }
    }
    lemma_run_covers(keys.take(j), cache, answers.take(j), hit, i);
    assert(keys.take(j)[i] == keys[i]);
}

/// A row whose key has a known record at the start has no record created.
pub proof fn lemma_known_key_not_created<K, E>(
    keys: Seq<K>,
    cache: Seq<E>,
    answers: Seq<E>,
    hit: spec_fn(K, E) -> bool,
    j: int,
)
    requires
        0 <= j < keys.len(),
        known(cache, keys[j], hit),
    ensures
        !creates(keys, cache, answers, hit, j),
{
    lemma_run_keeps(keys.take(j), cache, answers.take(j), hit);
    lemma_known_stays(cache, run(keys.take(j), cache, answers.take(j), hit), keys[j], hit);
}

} // verus!
