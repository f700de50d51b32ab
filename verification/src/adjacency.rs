//! Adjacency lists: the out-neighbours of a node, each at most once.

use crate::layout::at_most;
use crate::record::PrimaryId;
use diskann::graph::AdjacencyList;
use vstd::prelude::*;

verus! {

/// `diskann::graph::AdjacencyList`: a list of ids without repetitions.
#[verifier::external_type_specification]
#[verifier::external_body]
#[verifier::reject_recursive_types(I)]
pub struct ExAdjacencyList<I>(AdjacencyList<I>);

/// The ids that a list holds, in order.
pub uninterp spec fn listed(list: AdjacencyList<u64>) -> Seq<u64>;

/// `list` followed by each of `more` that is not in it yet, in order.
pub open spec fn extended(list: Seq<u64>, more: Seq<u64>) -> Seq<u64>
    decreases more.len(),
{
    if more.len() == 0 {
        list
    } else {
        let head = extended(list, more.drop_last());
        if head.contains(more.last()) {
            head
        } else {
            head.push(more.last())
        }
    }
}

/// No more than the first `len` of `list`.
pub open spec fn shortened(list: Seq<u64>, len: int) -> Seq<u64> {
    list.take(at_most(list.len() as int, len))
}

/// Calls `AdjacencyList::new`: a list that holds nothing.
#[verifier::external_body]
pub(crate) fn new_list() -> (list: AdjacencyList<u64>)
    ensures
        listed(list) == Seq::<u64>::empty(),
{
    AdjacencyList::new()
}

/// Calls `AdjacencyList::with_capacity`: a list that holds nothing yet. It
/// allocates at once, and panics beyond what an allocation can hold.
#[verifier::external_body]
pub(crate) fn list_with_capacity(capacity: usize) -> (list: AdjacencyList<u64>)
    requires
        capacity * 8 <= isize::MAX,
    ensures
        listed(list) == Seq::<u64>::empty(),
{
    AdjacencyList::with_capacity(capacity)
}

/// Calls `AdjacencyList::overwrite_trusted`: the list holds `ids` and nothing
/// else. Debug builds panic where an id occurs twice.
#[verifier::external_body]
pub(crate) fn overwrite_list(list: &mut AdjacencyList<u64>, ids: &[u64])
    requires
        ids@.no_duplicates(),
    ensures
        listed(*final(list)) == ids@,
{
    list.overwrite_trusted(ids)
}

/// Calls `AdjacencyList::extend_from_slice`: each of `ids` that is not in the
/// list yet goes to its end, in order. Returns how many did.
#[verifier::external_body]
pub(crate) fn extend_list(list: &mut AdjacencyList<u64>, ids: &[u64]) -> (added: usize)
    ensures
        listed(*final(list)) == extended(listed(*old(list)), ids@),
        added == listed(*final(list)).len() - listed(*old(list)).len(),
{
    list.extend_from_slice(ids)
}

/// Calls `AdjacencyList::truncate`: what is beyond `len` is dropped.
#[verifier::external_body]
pub(crate) fn truncate_list(list: &mut AdjacencyList<u64>, len: usize)
    ensures
        listed(*final(list)) == shortened(listed(*old(list)), len as int),
{
    list.truncate(len)
}

/// Calls `AdjacencyList`'s `Deref`, which gives the ids as a slice.
#[verifier::external_body]
pub(crate) fn list_ids(list: &AdjacencyList<u64>) -> (ids: &[u64])
    ensures
        ids@ == listed(*list),
{
    list
}

/// `edges` without repetitions, no more than `max_degree` of them.
pub fn fit_edges(edges: &[PrimaryId], max_degree: usize) -> (list: AdjacencyList<u64>)
    requires
        max_degree * 8 <= isize::MAX,
    ensures
        listed(list) == shortened(extended(Seq::empty(), edges@), max_degree as int),
{
    let mut list = list_with_capacity(max_degree);
    let _: usize = extend_list(&mut list, edges);
    truncate_list(&mut list, max_degree);
    list
}

/// `present` followed by `edges` that it does not hold, no more than `max_degree` in all.
pub fn join_edges(
    present: &[PrimaryId],
    edges: &[PrimaryId],
    max_degree: usize,
) -> (list: AdjacencyList<u64>)
    requires
        max_degree * 8 <= isize::MAX,
        present@.no_duplicates(),
    ensures
        listed(list) == shortened(extended(present@, edges@), max_degree as int),
{
    let mut list = list_with_capacity(max_degree);
    overwrite_list(&mut list, present);
    let _: usize = extend_list(&mut list, edges);
    truncate_list(&mut list, max_degree);
    list
}

/// Whether no id occurs twice.
pub fn all_unique(ids: &[PrimaryId]) -> (unique: bool)
    ensures
        unique == ids@.no_duplicates(),
{
    let n: usize = ids.len();
    for i in 0..n
        invariant
            n == ids@.len(),
            forall|a: int, b: int| 0 <= a < b < n && a < i ==> ids@[a] != ids@[b],
    {
        for j in i + 1..n
            invariant
                i < n,
                n == ids@.len(),
                forall|a: int, b: int| 0 <= a < b < n && a < i ==> ids@[a] != ids@[b],
                forall|b: int| i < b < j ==> ids@[i as int] != ids@[b],
        {
            if ids[i] == ids[j] {
                assert(ids@[i as int] == ids@[j as int]);
                return false;
            }
        }
    }
    true
}

/// Extending keeps what is there, in place; adds what was asked for and nothing
/// else; and repeats nothing.
pub proof fn law_extending_is_a_union(list: Seq<u64>, more: Seq<u64>)
    requires
        list.no_duplicates(),
    ensures
        extended(list, more).no_duplicates(),
        list.is_prefix_of(extended(list, more)),
        forall|id: u64|
            extended(list, more).contains(id) <==> list.contains(id) || more.contains(id),
    decreases more.len(),
{
    if more.len() > 0 {
        let rest = more.drop_last();
        law_extending_is_a_union(list, rest);
        let head = extended(list, rest);
        let whole = extended(list, more);
        assert forall|id: u64| whole.contains(id) <==> list.contains(id) || more.contains(id) by {
            assert(more.contains(id) <==> rest.contains(id) || id == more.last()) by {
                if more.contains(id) && id != more.last() {
                    let i = choose|i: int| 0 <= i < more.len() && more[i] == id;
                    assert(rest[i] == id);
                }
                if rest.contains(id) {
                    let i = choose|i: int| 0 <= i < rest.len() && rest[i] == id;
                    assert(more[i] == id);
                }
                assert(more[more.len() - 1] == more.last());
            }
            if !head.contains(more.last()) {
                assert(whole == head.push(more.last()));
                assert(whole.contains(id) <==> head.contains(id) || id == more.last()) by {
                    if head.contains(id) {
                        let i = choose|i: int| 0 <= i < head.len() && head[i] == id;
                        assert(whole[i] == id);
                    }
                    assert(whole[head.len() as int] == more.last());
                }
            }
        }
        assert(whole.no_duplicates());
    } else {
        assert forall|id: u64| #[trigger] more.contains(id) implies false by {}
    }
}

/// Extending with what is in the list already changes nothing.
pub proof fn law_extending_with_known_ids_changes_nothing(list: Seq<u64>, more: Seq<u64>)
    requires
        forall|i: int| 0 <= i < more.len() ==> list.contains(#[trigger] more[i]),
    ensures
        extended(list, more) == list,
    decreases more.len(),
{
    if more.len() > 0 {
        let rest = more.drop_last();
        assert forall|i: int| 0 <= i < rest.len() implies list.contains(#[trigger] rest[i]) by {
            assert(rest[i] == more[i]);
        }
        law_extending_with_known_ids_changes_nothing(list, rest);
        assert(list.contains(more[more.len() - 1]));
    }
}

/// Extending with ids of which none is in the list yet puts them all at its end.
pub proof fn law_extending_with_new_ids_appends_them(list: Seq<u64>, more: Seq<u64>)
    requires
        (list + more).no_duplicates(),
    ensures
        extended(list, more) == list + more,
    decreases more.len(),
{
    if more.len() > 0 {
        let rest = more.drop_last();
        let all = list + more;
        assert(list + rest =~= all.drop_last());
        law_extending_with_new_ids_appends_them(list, rest);
        assert(all.last() == more.last());
        assert(!all.drop_last().contains(all.last())) by {
            if all.drop_last().contains(all.last()) {
                let i = choose|i: int|
                    0 <= i < all.drop_last().len() && all.drop_last()[i] == all.last();
                assert(all[i] == all[all.len() - 1]);
            }
        }
        assert((list + rest).push(more.last()) =~= all);
    } else {
        assert(list + more =~= list);
    }
}

/// Extending twice is extending once with both lists, one after the other.
pub proof fn law_extending_twice_is_extending_once(list: Seq<u64>, a: Seq<u64>, b: Seq<u64>)
    ensures
        extended(extended(list, a), b) == extended(list, a + b),
    decreases b.len(),
{
    if b.len() == 0 {
        assert(a + b =~= a);
    } else {
        law_extending_twice_is_extending_once(list, a, b.drop_last());
        assert((a + b).drop_last() =~= a + b.drop_last());
        assert((a + b).last() == b.last());
    }
}

/// `list` goes on behind its first `start` ids with those of `more` that come
/// next: each is the first of `more` that is not in the list before it.
pub open spec fn goes_on_with(list: Seq<u64>, start: int, more: Seq<u64>) -> bool {
    forall|i: int| start <= i < list.len() ==> #[trigger] is_met_next(list, i, more)
}

/// The id at `i` is the first of `more` that is not in the list before it.
pub open spec fn is_met_next(list: Seq<u64>, i: int, more: Seq<u64>) -> bool {
    exists|p: int| #[trigger] is_next_new(list.take(i), more, p) && more[p] == list[i]
}

/// The first of `more` that `list` does not hold is at `p`.
pub open spec fn is_next_new(list: Seq<u64>, more: Seq<u64>, p: int) -> bool {
    &&& 0 <= p < more.len()
    &&& !list.contains(more[p])
    &&& forall|q: int| 0 <= q < p ==> list.contains(#[trigger] more[q])
}

/// What a list is extended with comes in the order in which it is first met.
pub proof fn lemma_extended_goes_on(list: Seq<u64>, more: Seq<u64>)
    requires
        list.no_duplicates(),
    ensures
        goes_on_with(extended(list, more), list.len() as int, more),
    decreases more.len(),
{
    let whole = extended(list, more);
    law_extending_is_a_union(list, more);
    if more.len() > 0 {
        let rest = more.drop_last();
        let head = extended(list, rest);
        lemma_extended_goes_on(list, rest);
        law_extending_is_a_union(list, rest);
        assert forall|i: int| list.len() <= i < whole.len() implies #[trigger] is_met_next(
            whole,
            i,
            more,
        ) by {
            if i < head.len() {
                assert(whole.take(i) =~= head.take(i));
                assert(head[i] == whole[i]);
                assert(is_met_next(head, i, rest));
                let p = choose|p: int| #[trigger]
                    is_next_new(head.take(i), rest, p) && rest[p] == head[i];
                assert(rest[p] == more[p]);
                assert forall|q: int| 0 <= q < p implies whole.take(i).contains(
                    #[trigger] more[q],
                ) by {
                    assert(rest[q] == more[q]);
                }
                assert(is_next_new(whole.take(i), more, p));
            } else {
                let p = more.len() - 1;
                assert(whole.take(i) =~= head);
                assert forall|q: int| 0 <= q < p implies head.contains(#[trigger] more[q]) by {
                    assert(rest[q] == more[q]);
                    assert(rest.contains(more[q]));
                }
                assert(is_next_new(whole.take(i), more, p));
            }
        }
    }
}

/// Edges are fitted by taking each of them where it is first met, until there are
/// as many as there may be: none is repeated, none is made up, and none is left
/// out while there is room.
pub proof fn law_edges_are_fitted_in_the_order_they_are_met(
    edges: &[PrimaryId],
    max_degree: usize,
    list: AdjacencyList<u64>,
)
    requires
        call_ensures(fit_edges, (edges, max_degree), list),
    ensures
        listed(list).no_duplicates(),
        listed(list).len() <= max_degree,
        goes_on_with(listed(list), 0, edges@),
        listed(list).len() < max_degree ==> forall|i: int|
            0 <= i < edges@.len() ==> listed(list).contains(#[trigger] edges@[i]),
{
    let none = Seq::<u64>::empty();
    law_extending_is_a_union(none, edges@);
    lemma_extended_goes_on(none, edges@);
    lemma_shortened_goes_on(extended(none, edges@), 0, edges@, max_degree as int);
    assert forall|i: int|
        0 <= i < edges@.len() && listed(list).len() < max_degree implies listed(list).contains(
        #[trigger] edges@[i],
    ) by {
        assert(edges@.contains(edges@[i]));
        assert(listed(list) =~= extended(none, edges@));
    }
}

/// Edges are joined to those that are there already, which stay in front: each
/// new one where it is first met, until there are as many as there may be.
pub proof fn law_edges_are_joined_behind_those_that_are_there(
    present: &[PrimaryId],
    edges: &[PrimaryId],
    max_degree: usize,
    list: AdjacencyList<u64>,
)
    requires
        present@.no_duplicates(),
        call_ensures(join_edges, (present, edges, max_degree), list),
    ensures
        listed(list).no_duplicates(),
        listed(list).len() <= max_degree,
        present@.len() <= max_degree ==> present@.is_prefix_of(listed(list)),
        present@.len() > max_degree ==> listed(list) == present@.take(max_degree as int),
        goes_on_with(listed(list), present@.len() as int, edges@),
        listed(list).len() < max_degree ==> forall|i: int|
            0 <= i < edges@.len() ==> listed(list).contains(#[trigger] edges@[i]),
{
    let whole = extended(present@, edges@);
    law_extending_is_a_union(present@, edges@);
    lemma_extended_goes_on(present@, edges@);
    lemma_shortened_goes_on(whole, present@.len() as int, edges@, max_degree as int);
    if present@.len() > max_degree {
        assert(listed(list) =~= present@.take(max_degree as int));
    } else {
        assert(present@ =~= listed(list).subrange(0, present@.len() as int));
    }
    assert forall|i: int|
        0 <= i < edges@.len() && listed(list).len() < max_degree implies listed(list).contains(
        #[trigger] edges@[i],
    ) by {
        assert(edges@.contains(edges@[i]));
        assert(listed(list) =~= whole);
    }
}

/// A list that is cut goes on as it did.
pub proof fn lemma_shortened_goes_on(list: Seq<u64>, start: int, more: Seq<u64>, len: int)
    requires
        goes_on_with(list, start, more),
        start >= 0,
        len >= 0,
    ensures
        goes_on_with(shortened(list, len), start, more),
        shortened(list, len).len() <= len,
{
    let short = shortened(list, len);
    assert forall|i: int| start <= i < short.len() implies #[trigger] is_met_next(short, i, more) by {
        assert(short.take(i) =~= list.take(i));
        assert(is_met_next(list, i, more));
    }
}

/// Ids are found to be unique exactly if no two places hold the same one.
pub proof fn law_unique_ids_are_told_by_any_two_places(ids: &[PrimaryId], unique: bool)
    requires
        call_ensures(all_unique, (ids,), unique),
    ensures
        unique <==> forall|i: int, j: int|
            0 <= i < j < ids@.len() ==> #[trigger] ids@[i] != #[trigger] ids@[j],
{
    assert(unique ==> ids@.no_duplicates());
    if !unique {
        let (i, j) = choose|i: int, j: int|
            0 <= i < ids@.len() && 0 <= j < ids@.len() && i != j && ids@[i] == ids@[j];
        if i < j {
            assert(ids@[i] == ids@[j]);
        } else {
            assert(ids@[j] == ids@[i]);
        }
    }
}

} // verus!
