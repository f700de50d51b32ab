//! From the vertices that a search found to the rows that it found.

use crate::record::Key;
use vstd::prelude::*;

verus! {

/// The node of a vertex, if the index has such a vertex.
pub open spec fn node_of(ids: Seq<Key>, vertex: u32) -> Option<Key> {
    if vertex < ids.len() {
        Some(ids[vertex as int])
    } else {
        None
    }
}

/// The nodes of the vertices, in their order, `None` where the index has no
/// such vertex.
pub fn resolve_hits(ids: &[Key], vertices: &[u32]) -> (nodes: Vec<Option<Key>>)
    ensures
        nodes@ == vertices@.map_values(|vertex: u32| node_of(ids@, vertex)),
        nodes@.len() == vertices@.len(),
        forall|i: int|
            0 <= i < vertices@.len() && vertices@[i] < ids@.len() ==> #[trigger] nodes@[i] == Some(
                ids@[vertices@[i] as int],
            ),
        forall|i: int|
            0 <= i < vertices@.len() && vertices@[i] >= ids@.len() ==> #[trigger] nodes@[i] is None,
{
    let mut nodes: Vec<Option<Key>> = Vec::new();
    let known: usize = ids.len();
    let n: usize = vertices.len();
    for i in 0..n
        invariant
            known == ids@.len(),
            n == vertices@.len(),
            nodes@.len() == i,
            forall|j: int| 0 <= j < i ==> #[trigger] nodes@[j] == node_of(ids@, vertices@[j]),
    {
        let vertex: usize = vertices[i] as usize;
        if vertex < known {
            nodes.push(Some(ids[vertex]));
        } else {
            nodes.push(None);
        }
    }
    assert(nodes@ =~= vertices@.map_values(|vertex: u32| node_of(ids@, vertex)));
    nodes
}

/// What a search returns of what was found: the rows that are still there with
/// their distances, or the first distance that could not be computed.
pub open spec fn gathered<K, D, E>(found: Seq<Option<(K, Result<D, E>)>>) -> Result<
    (Seq<K>, Seq<D>),
    E,
>
    decreases found.len(),
{
    if found.len() == 0 {
        Ok((Seq::empty(), Seq::empty()))
    } else {
        match gathered(found.drop_last()) {
            Ok((keys, distances)) => match found.last() {
                Some((key, Ok(distance))) => Ok((keys.push(key), distances.push(distance))),
                Some((_, Err(err))) => Err(err),
                None => Ok((keys, distances)),
            },
            Err(err) => Err(err),
        }
    }
}

/// The rows that are still there with their distances, or the first distance
/// that could not be computed.
pub fn gather<K, D, E>(found: Vec<Option<(K, Result<D, E>)>>) -> (hits: Result<
    (Vec<K>, Vec<D>),
    E,
>)
    ensures
        match hits {
            Ok((keys, distances)) => gathered(found@) == Ok::<(Seq<K>, Seq<D>), E>(
                (keys@, distances@),
            ),
            Err(err) => gathered(found@) == Err::<(Seq<K>, Seq<D>), E>(err),
        },
{
    let ghost all = found@;
    let mut keys: Vec<K> = Vec::new();
    let mut distances: Vec<D> = Vec::new();
    assert(all.take(0) =~= Seq::empty());
    for item in it: found
        invariant
            it.seq() == all,
            gathered(all.take(it.index() as int)) == Ok::<(Seq<K>, Seq<D>), E>(
                (keys@, distances@),
            ),
    {
        let ghost i = it.index() as int;
        proof {
            assert(all.take(i + 1).drop_last() =~= all.take(i));
            assert(all.take(i + 1).last() == item);
        }
        match item {
            Some((key, Ok(distance))) => {
                keys.push(key);
                distances.push(distance);
            },
            Some((_, Err(err))) => {
                proof {
                    lemma_first_error_stays(all, i + 1);
                }
                return Err(err);
            },
            None => {},
        }
    }
    assert(all.take(all.len() as int) =~= all);
    Ok((keys, distances))
}

/// Once a distance could not be computed, what follows does not matter.
proof fn lemma_first_error_stays<K, D, E>(found: Seq<Option<(K, Result<D, E>)>>, n: int)
    requires
        0 <= n <= found.len(),
        gathered(found.take(n)) is Err,
    ensures
        gathered(found) == gathered(found.take(n)),
    decreases found.len(),
{
    if n < found.len() {
        let rest = found.drop_last();
        assert(rest.take(n) =~= found.take(n));
        lemma_first_error_stays(rest, n);
    } else {
        assert(found.take(n) =~= found);
    }
}

/// Rows and distances come in pairs, never more of them than were found.
pub proof fn law_rows_and_distances_are_aligned<K, D, E>(found: Seq<Option<(K, Result<D, E>)>>)
    ensures
        gathered(found) matches Ok((keys, distances)) ==> keys.len() == distances.len()
            && keys.len() <= found.len(),
    decreases found.len(),
{
    if found.len() > 0 {
        law_rows_and_distances_are_aligned(found.drop_last());
    }
}

/// The distance of a row could not be computed.
pub open spec fn is_failure<K, D, E>(item: Option<(K, Result<D, E>)>) -> bool {
    item matches Some((_, Err(_)))
}

/// A search fails exactly when the distance of a row that is still there could
/// not be computed.
pub proof fn law_a_search_fails_for_a_distance_only<K, D, E>(
    found: Seq<Option<(K, Result<D, E>)>>,
)
    ensures
        gathered(found) is Err <==> exists|i: int|
            0 <= i < found.len() && is_failure(#[trigger] found[i]),
    decreases found.len(),
{
    if found.len() > 0 {
        let rest = found.drop_last();
        law_a_search_fails_for_a_distance_only(rest);
        if gathered(rest) is Err {
            let i = choose|i: int|
                0 <= i < rest.len() && is_failure(#[trigger] rest[i]);
            assert(found[i] == rest[i]);
        }
        if exists|i: int|
            0 <= i < found.len() && is_failure(#[trigger] found[i]) {
            let i = choose|i: int|
                0 <= i < found.len() && is_failure(#[trigger] found[i]);
            if i < rest.len() {
                assert(rest[i] == found[i]);
            }
        }
        assert(found[found.len() - 1] == found.last());
    }
}

/// Each vertex is answered at its own place with the row of that number, and
/// with nothing if there is no such row.
pub proof fn law_a_vertex_stands_for_the_row_of_its_number(
    ids: &[Key],
    vertices: &[u32],
    nodes: Vec<Option<Key>>,
)
    requires
        call_ensures(resolve_hits, (ids, vertices), nodes),
    ensures
        nodes@.len() == vertices@.len(),
        forall|i: int|
            0 <= i < vertices@.len() && vertices@[i] < ids@.len() ==> #[trigger] nodes@[i] == Some(
                ids@[vertices@[i] as int],
            ),
        forall|i: int|
            0 <= i < vertices@.len() && vertices@[i] >= ids@.len() ==> #[trigger] nodes@[i] is None,
{
}

/// How many of these are there.
pub open spec fn present<T>(items: Seq<Option<T>>) -> nat {
    items.filter(|item: Option<T>| item is Some).len()
}

/// One more item is there, or is not.
pub proof fn lemma_present<T>(items: Seq<Option<T>>)
    requires
        items.len() > 0,
    ensures
        present(items) == present(items.drop_last()) + (if items.last() is Some {
            1nat
        } else {
            0nat
        }),
{
    reveal(Seq::filter);
}

/// Nothing is there of nothing.
pub proof fn lemma_present_of_nothing<T>(items: Seq<Option<T>>)
    requires
        items.len() == 0,
    ensures
        present(items) == 0,
{
    reveal(Seq::filter);
}

/// A search returns every row that is still there and its distance, both at the
/// place that the rows before it leave it. It fails with the first distance that
/// could not be computed, and only with such a one.
pub proof fn law_every_row_that_is_there_is_returned_in_its_place<K, D, E>(
    found: Vec<Option<(K, Result<D, E>)>>,
    hits: Result<(Vec<K>, Vec<D>), E>,
)
    requires
        call_ensures(gather::<K, D, E>, (found,), hits),
    ensures
        match hits {
            Ok((keys, distances)) => {
                &&& keys@.len() == present(found@)
                &&& distances@.len() == present(found@)
                &&& forall|i: int|
                    #![trigger found@[i]]
                    0 <= i < found@.len() ==> (found@[i] matches Some((key, distance)) ==> {
                        let at = present(found@.take(i)) as int;
                        &&& at < keys@.len()
                        &&& keys@[at] == key
                        &&& distance == Ok::<D, E>(distances@[at])
                    })
            },
            Err(err) => exists|i: int|
                #![trigger found@[i]]
                {
                    &&& 0 <= i < found@.len()
                    &&& found@[i] matches Some((_, Err(first)))
                    &&& first == err
                    &&& forall|j: int|
                        #![trigger found@[j]]
                        0 <= j < i ==> !(found@[j] matches Some((_, Err(_))))
                },
        },
{
    lemma_gathered(found@);
}

/// What is gathered, place by place.
proof fn lemma_gathered<K, D, E>(found: Seq<Option<(K, Result<D, E>)>>)
    ensures
        match gathered(found) {
            Ok((keys, distances)) => {
                &&& keys.len() == present(found)
                &&& distances.len() == present(found)
                &&& forall|i: int|
                    #![trigger found[i]]
                    0 <= i < found.len() ==> (found[i] matches Some((key, distance)) ==> {
                        let at = present(found.take(i)) as int;
                        &&& at < keys.len()
                        &&& keys[at] == key
                        &&& distance == Ok::<D, E>(distances[at])
                    })
            },
            Err(err) => exists|i: int|
                #![trigger found[i]]
                {
                    &&& 0 <= i < found.len()
                    &&& found[i] matches Some((_, Err(first)))
                    &&& first == err
                    &&& forall|j: int|
                        #![trigger found[j]]
                        0 <= j < i ==> !(found[j] matches Some((_, Err(_))))
                },
        },
    decreases found.len(),
{
    if found.len() == 0 {
        lemma_present_of_nothing(found);
    } else {
        let rest = found.drop_last();
        let last = found.len() - 1;
        lemma_gathered(rest);
        lemma_present(found);
        assert(found.take(last) =~= rest);
        assert forall|i: int| 0 <= i < last implies found[i] == rest[i] && found.take(i) == rest.take(
            i,
        ) by {
            assert(found.take(i) =~= rest.take(i));
        }
        match gathered(rest) {
            Ok((keys, distances)) => match found.last() {
                Some((key, Ok(distance))) => {
                    let all = keys.push(key);
                    let measured = distances.push(distance);
                    assert forall|i: int|
                        #![trigger found[i]]
                        0 <= i < found.len() implies (found[i] matches Some((key, distance)) ==> {
                        let at = present(found.take(i)) as int;
                        &&& at < all.len()
                        &&& all[at] == key
                        &&& distance == Ok::<D, E>(measured[at])
                    }) by {
                        if i < last {
                            assert(rest[i] == found[i]);
                        }
                    }
                },
                Some((_, Err(err))) => {
                    assert(found[last] == found.last());
                    assert forall|j: int| #![trigger found[j]] 0 <= j < last implies !(
                    found[j] matches Some((_, Err(_)))) by {
                        assert(rest[j] == found[j]);
                    }
                },
                None => {
                    assert forall|i: int|
                        #![trigger found[i]]
                        0 <= i < found.len() implies (found[i] matches Some((key, distance)) ==> {
                        let at = present(found.take(i)) as int;
                        &&& at < keys.len()
                        &&& keys[at] == key
                        &&& distance == Ok::<D, E>(distances[at])
                    }) by {
                        if i < last {
                            assert(rest[i] == found[i]);
                        }
                    }
                },
            },
            Err(err) => {
                let i = choose|i: int|
                    #![trigger rest[i]]
                    {
                        &&& 0 <= i < rest.len()
                        &&& rest[i] matches Some((_, Err(first)))
                        &&& first == err
                        &&& forall|j: int|
                            #![trigger rest[j]]
                            0 <= j < i ==> !(rest[j] matches Some((_, Err(_))))
                    };
                assert(found[i] == rest[i]);
                assert forall|j: int| #![trigger found[j]] 0 <= j < i implies !(
                found[j] matches Some((_, Err(_)))) by {
                    assert(rest[j] == found[j]);
                }
            },
        }
    }
}

} // verus!
