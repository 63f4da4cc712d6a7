//! Lists of results: all of them, or the first failure.

use vstd::prelude::*;

verus! {

/// All the values of a list of results, in order, or the failure of the first
/// entry that failed.
pub open spec fn collect<T, E>(results: Seq<Result<T, E>>) -> Result<Seq<T>, E>
    decreases results.len(),
{
    if results.len() == 0 {
        Ok(Seq::empty())
    } else {
        match collect(results.drop_last()) {
            Err(e) => Err(e),
            Ok(front) => match results.last() {
                Err(e) => Err(e),
                Ok(x) => Ok(front.push(x)),
            },
        }
    }
}

/// One step of a walk from the front: what the first `n + 1` results collect
/// to, given what the first `n` collect to.
pub proof fn lemma_collect_step<T, E>(results: Seq<Result<T, E>>, n: int)
    requires
        0 <= n < results.len(),
    ensures
        collect(results.take(n + 1)) == match collect(results.take(n)) {
            Err(e) => Err(e),
            Ok(front) => match results[n] {
                Err(e) => Err(e),
                Ok(x) => Ok(front.push(x)),
            },
        },
{
    assert(results.take(n + 1).drop_last() =~= results.take(n));
}

/// A failure among the first `n` results is the failure of the whole list.
pub proof fn lemma_collect_fails<T, E>(results: Seq<Result<T, E>>, n: int)
    requires
        0 <= n <= results.len(),
        collect(results.take(n)) is Err,
    ensures
        collect(results) == collect(results.take(n)),
    decreases results.len(),
{
    if n == results.len() {
        assert(results.take(n) =~= results);
    } else {
        assert(results.drop_last().take(n) =~= results.take(n));
        lemma_collect_fails(results.drop_last(), n);
    }
}

/// A list in which every result is a value collects to those values.
pub proof fn lemma_collect_values<T, E>(results: Seq<Result<T, E>>, values: Seq<T>)
    requires
        values.len() == results.len(),
        forall|i: int| 0 <= i < results.len() ==> #[trigger] results[i] == Ok::<T, E>(values[i]),
    ensures
        collect(results) == Ok::<Seq<T>, E>(values),
    decreases results.len(),
{
    if results.len() == 0 {
        assert(values =~= Seq::empty());
    } else {
        lemma_collect_values(results.drop_last(), values.drop_last());
        assert(values.drop_last().push(values.last()) =~= values);
    }
}

/// All the values of a list of results in which some entries are absent: the
/// values of the entries that are present, in order, or the failure of the
/// first entry that failed. An absent entry is passed over.
pub open spec fn collect_present<T, E>(results: Seq<Option<Result<T, E>>>) -> Result<Seq<T>, E>
    decreases results.len(),
{
    if results.len() == 0 {
        Ok(Seq::empty())
    } else {
        match collect_present(results.drop_last()) {
            Err(e) => Err(e),
            Ok(front) => match results.last() {
                None => Ok(front),
                Some(Err(e)) => Err(e),
                Some(Ok(x)) => Ok(front.push(x)),
            },
        }
    }
}

/// One step of a walk from the front: what the first `n + 1` results collect
/// to, given what the first `n` collect to.
pub proof fn lemma_collect_present_step<T, E>(results: Seq<Option<Result<T, E>>>, n: int)
    requires
        0 <= n < results.len(),
    ensures
        collect_present(results.take(n + 1)) == match collect_present(results.take(n)) {
            Err(e) => Err(e),
            Ok(front) => match results[n] {
                None => Ok(front),
                Some(Err(e)) => Err(e),
                Some(Ok(x)) => Ok(front.push(x)),
            },
        },
{
    assert(results.take(n + 1).drop_last() =~= results.take(n));
}

/// A failure among the first `n` results is the failure of the whole list.
pub proof fn lemma_collect_present_fails<T, E>(results: Seq<Option<Result<T, E>>>, n: int)
    requires
        0 <= n <= results.len(),
        collect_present(results.take(n)) is Err,
    ensures
        collect_present(results) == collect_present(results.take(n)),
    decreases results.len(),
{
    if n == results.len() {
        assert(results.take(n) =~= results);
    } else {
        assert(results.drop_last().take(n) =~= results.take(n));
        lemma_collect_present_fails(results.drop_last(), n);
    }
}

/// A list in which every entry is present and a value collects to those
/// values.
pub proof fn lemma_collect_present_values<T, E>(
    results: Seq<Option<Result<T, E>>>,
    values: Seq<T>,
)
    requires
        values.len() == results.len(),
        forall|i: int|
            0 <= i < results.len() ==> #[trigger] results[i] == Some(Ok::<T, E>(values[i])),
    ensures
        collect_present(results) == Ok::<Seq<T>, E>(values),
    decreases results.len(),
{
    if results.len() == 0 {
        assert(values =~= Seq::empty());
    } else {
        lemma_collect_present_values(results.drop_last(), values.drop_last());
        assert(values.drop_last().push(values.last()) =~= values);
    }
}

/// The mapping that a list of keyed pairs builds when each pair is inserted in
/// turn: a later pair replaces an earlier one with the same key.
pub open spec fn pairs_map<K, V>(pairs: Seq<(K, V)>) -> Map<K, V>
    decreases pairs.len(),
{
    if pairs.len() == 0 {
        Map::empty()
    } else {
        pairs_map(pairs.drop_last()).insert(pairs.last().0, pairs.last().1)
    }
}

/// Inserting one more pair is one `insert` on the mapping.
pub proof fn lemma_pairs_map_push<K, V>(pairs: Seq<(K, V)>, key: K, value: V)
    ensures
        pairs_map(pairs.push((key, value))) == pairs_map(pairs).insert(key, value),
{
    assert(pairs.push((key, value)).drop_last() =~= pairs);
}

/// The mapping is finite.
pub proof fn lemma_pairs_map_finite<K, V>(pairs: Seq<(K, V)>)
    ensures
        pairs_map(pairs).dom().finite(),
    decreases pairs.len(),
{
    if pairs.len() > 0 {
        lemma_pairs_map_finite(pairs.drop_last());
    }
}

/// No key occurs twice in a list of keyed pairs.
pub open spec fn distinct_keys<K, V>(pairs: Seq<(K, V)>) -> bool {
    forall|i: int, j: int| 0 <= i < j < pairs.len() ==> pairs[i].0 != pairs[j].0
}

/// Every key of the list is a key of the mapping.
pub proof fn lemma_pairs_map_has<K, V>(pairs: Seq<(K, V)>, i: int)
    requires
        0 <= i < pairs.len(),
    ensures
        pairs_map(pairs).contains_key(pairs[i].0),
    decreases pairs.len(),
{
    if i < pairs.len() - 1 {
        lemma_pairs_map_has(pairs.drop_last(), i);
    }
}

/// A key that is not in the list is no key of the mapping.
pub proof fn lemma_pairs_map_lacks<K, V>(pairs: Seq<(K, V)>, key: K)
    requires
        forall|i: int| 0 <= i < pairs.len() ==> (#[trigger] pairs[i]).0 != key,
    ensures
        !pairs_map(pairs).contains_key(key),
    decreases pairs.len(),
{
    if pairs.len() > 0 {
        let front = pairs.drop_last();
        lemma_pairs_map_lacks(front, key);
    }
}

/// Where no key occurs twice, the mapping holds each pair's own value.
pub proof fn lemma_pairs_map_value<K, V>(pairs: Seq<(K, V)>, i: int)
    requires
        distinct_keys(pairs),
        0 <= i < pairs.len(),
    ensures
        pairs_map(pairs).contains_key(pairs[i].0),
        pairs_map(pairs)[pairs[i].0] == pairs[i].1,
    decreases pairs.len(),
{
    lemma_pairs_map_has(pairs, i);
    if i < pairs.len() - 1 {
        let front = pairs.drop_last();
        lemma_pairs_map_value(front, i);
    }
}

/// Where no key occurs twice, the mapping has as many keys as the list has
/// pairs.
pub proof fn lemma_pairs_map_len<K, V>(pairs: Seq<(K, V)>)
    requires
        distinct_keys(pairs),
    ensures
        pairs_map(pairs).dom().finite(),
        pairs_map(pairs).len() == pairs.len(),
    decreases pairs.len(),
{
    lemma_pairs_map_finite(pairs);
    if pairs.len() > 0 {
        let front = pairs.drop_last();
        lemma_pairs_map_len(front);
        lemma_pairs_map_finite(front);
        lemma_pairs_map_lacks(front, pairs.last().0);
    }
}

/// Where no key occurs twice, a new value for the key of one pair is an
/// `insert` on the mapping.
pub proof fn lemma_pairs_map_update<K, V>(pairs: Seq<(K, V)>, i: int, key: K, value: V)
    requires
        distinct_keys(pairs),
        0 <= i < pairs.len(),
        pairs[i].0 == key,
    ensures
        distinct_keys(pairs.update(i, (key, value))),
        pairs_map(pairs.update(i, (key, value))) == pairs_map(pairs).insert(key, value),
    decreases pairs.len(),
{
    let updated = pairs.update(i, (key, value));
    let front = pairs.drop_last();
    if i == pairs.len() - 1 {
        assert(updated.drop_last() =~= front);
    } else {
        lemma_pairs_map_update(front, i, key, value);
        assert(updated.drop_last() =~= front.update(i, (key, value)));
    }
}

} // verus!
