//! A graph that stays in RAM while its vectors do not.
//!
//! Vectors are fetched on demand, one batch per round. What stays in RAM is the
//! start point, which has no row to fetch it from, and the vectors of inserts
//! that are not over.

use crate::hits::lemma_present;
use crate::hits::lemma_present_of_nothing;
use crate::hits::present;
use crate::hybrid_error::ElementStatus;
use crate::hybrid_error::HybridError;
use crate::record::PrimaryId;
use std::collections::BTreeMap;
use std::collections::HashMap;
use vstd::prelude::*;

verus! {

broadcast use {
    vstd::std_specs::btree::group_btree_axioms,
    vstd::laws_cmp::group_laws_cmp,
    vstd::std_specs::hash::group_hash_axioms,
};

/// A layer that stores no vectors.
#[derive(Debug, Clone, Copy, PartialEq, Eq, Structural)]
pub struct NoVectors {
    pub dim: usize,
}

impl NoVectors {
    /// A layer for vectors of `dim` components.
    pub fn new(dim: usize) -> (layer: Self)
        ensures
            layer.dim == dim,
    {
        NoVectors { dim }
    }

    /// The bytes of a slot: one, since a slot cannot be empty.
    pub fn bytes(&self) -> (bytes: usize)
        ensures
            bytes == 1,
    {
        1
    }

    /// Check the dimension of an element. Its components are not kept.
    pub fn set<T>(&self, element: &[T]) -> (set: Result<(), HybridError>)
        ensures
            set == (if element@.len() == self.dim {
                Ok(())
            } else {
                Err(HybridError::Element { got: element@.len() as usize, expected: self.dim })
            }),
    {
        let got: usize = element.len();
        if got != self.dim {
            return Err(HybridError::Element { got, expected: self.dim });
        }
        Ok(())
    }
}

/// Check that the start point is of the index's dimension.
pub fn check_start_point<T>(start_point: &[T], dim: usize) -> (checked: Result<(), HybridError>)
    ensures
        checked == (if start_point@.len() == dim {
            Ok(())
        } else {
            Err(HybridError::StartPoint { got: start_point@.len() as usize, expected: dim })
        }),
{
    let got: usize = start_point.len();
    if got != dim {
        return Err(HybridError::StartPoint { got, expected: dim });
    }
    Ok(())
}

/// The slot of the start point: the first behind the writable ones.
pub fn start_slot(max_points: usize) -> (slot: Result<u32, HybridError>)
    ensures
        slot == (if max_points <= u32::MAX {
            Ok(max_points as u32)
        } else {
            Err(HybridError::TooManyPoints { max_points })
        }),
{
    if max_points as u64 > u32::MAX as u64 {
        return Err(HybridError::TooManyPoints { max_points });
    }
    Ok(max_points as u32)
}

/// Check the status of the start point's slot. What it returns is the slot
/// below it, if there is one, whose status is to be checked next.
pub fn check_start_status(start_id: u32, found: ElementStatus) -> (below: Result<
    Option<u32>,
    HybridError,
>)
    ensures
        below == (if found is Valid {
            Ok(
                if start_id == 0 {
                    None
                } else {
                    Some((start_id - 1) as u32)
                },
            )
        } else {
            Err(HybridError::StartSlot { slot: start_id, found })
        }),
{
    match found {
        ElementStatus::Valid => {
            if start_id == 0 {
                Ok(None)
            } else {
                Ok(Some(start_id - 1))
            }
        },
        ElementStatus::Deleted => Err(HybridError::StartSlot { slot: start_id, found }),
    }
}

/// Check the status of the slot below the start point's.
pub fn check_below_status(below: u32, found: ElementStatus) -> (checked: Result<(), HybridError>)
    ensures
        checked == (if found is Deleted {
            Ok(())
        } else {
            Err(HybridError::SlotBelow { slot: below, found })
        }),
{
    match found {
        ElementStatus::Valid => Err(HybridError::SlotBelow { slot: below, found }),
        ElementStatus::Deleted => Ok(()),
    }
}

/// Check that a query is of the index's dimension.
pub fn check_query<T>(query: &[T], dim: usize) -> (checked: Result<(), HybridError>)
    ensures
        checked == (if query@.len() == dim {
            Ok(())
        } else {
            Err(HybridError::Query { got: query@.len() as usize, expected: dim })
        }),
{
    let got: usize = query.len();
    if got != dim {
        return Err(HybridError::Query { got, expected: dim });
    }
    Ok(())
}

/// The vector of an element, or `None` if it is unavailable, as a value.
pub open spec fn vector_view(vector: Option<Vec<u32>>) -> Option<Seq<u32>> {
    match vector {
        Some(vector) => Some(vector@),
        None => None,
    }
}

/// The same components again.
fn copied(vector: &Vec<u32>) -> (copy: Vec<u32>)
    ensures
        copy@ == vector@,
{
    let copy: Vec<u32> = vector.clone();
    assert(copy@ =~= vector@);
    copy
}

/// The vectors that a graph keeps in RAM.
#[derive(Debug)]
pub struct HybridProvider {
    pub start_id: u32,
    pub start_vector: Vec<u32>,
    pub dim: usize,
    pub inflight: BTreeMap<u32, Vec<u32>>,
}

/// Why an insert did not begin.
#[derive(Debug)]
pub enum SetError<E> {
    /// The graph refused the element.
    Graph(E),
    /// The element is not of the index's dimension.
    Element(HybridError),
}

/// What is asked of the source of vectors, and what is known without it.
#[derive(Debug)]
pub struct LoadPlan {
    /// What is known already, one entry for each id.
    pub out: Vec<Option<Vec<u32>>>,
    /// The positions that the source has to fill.
    pub slots: Vec<usize>,
    /// The rows to ask the source for, one for each of the positions.
    pub wanted: Vec<PrimaryId>,
}

impl LoadPlan {
    /// There is one row for each position, and each position is there, once.
    pub open spec fn wf(self) -> bool {
        &&& self.slots@.len() == self.wanted@.len()
        &&& forall|k: int|
            0 <= k < self.slots@.len() ==> (#[trigger] self.slots@[k]) < self.out@.len()
        &&& forall|j: int, k: int|
            0 <= j < k < self.slots@.len() ==> #[trigger] self.slots@[j] < #[trigger] self.slots@[k]
    }
}

impl HybridProvider {
    /// The vector of an element that is kept in RAM.
    pub open spec fn resident(self, id: u32) -> Option<Seq<u32>> {
        if id == self.start_id {
            Some(self.start_vector@)
        } else if self.inflight@.contains_key(id) {
            Some(self.inflight@[id]@)
        } else {
            None
        }
    }

    /// The position has to be filled by the source: the element is not kept in
    /// RAM, and there is a row to fetch it from.
    pub open spec fn to_fetch(
        self,
        ids: Seq<u32>,
        externals: Seq<Option<PrimaryId>>,
        position: int,
    ) -> bool {
        self.resident(ids[position]) is None && externals[position] is Some
    }

    /// The plan asks for every row that has to be fetched and no other, in order.
    pub open spec fn is_plan(
        self,
        ids: Seq<u32>,
        externals: Seq<Option<PrimaryId>>,
        plan: LoadPlan,
    ) -> bool {
        &&& plan.wf()
        &&& plan.out@.len() == ids.len()
        &&& forall|i: int|
            0 <= i < ids.len() ==> vector_view(#[trigger] plan.out@[i]) == self.resident(ids[i])
        &&& forall|k: int|
            0 <= k < plan.slots@.len() ==> {
                &&& self.to_fetch(ids, externals, (#[trigger] plan.slots@[k]) as int)
                &&& externals[plan.slots@[k] as int] == Some(plan.wanted@[k])
            }
        &&& forall|i: int|
            0 <= i < ids.len() && #[trigger] self.to_fetch(ids, externals, i) ==> exists|k: int|
                0 <= k < plan.slots@.len() && #[trigger] plan.slots@[k] == i
    }

    /// The vectors of a graph of up to `max_points` points of `dim` components,
    /// with its start point behind them.
    pub fn new(start_vector: Vec<u32>, dim: usize, max_points: usize) -> (provider: Result<
        Self,
        HybridError,
    >)
        ensures
            match provider {
                Ok(provider) => {
                    &&& start_vector@.len() == dim
                    &&& provider.start_id == max_points
                    &&& provider.start_vector@ == start_vector@
                    &&& provider.dim == dim
                    &&& provider.inflight@ == Map::<u32, Vec<u32>>::empty()
                },
                Err(err) => if start_vector@.len() != dim {
                    err == (HybridError::StartPoint {
                        got: start_vector@.len() as usize,
                        expected: dim,
                    })
                } else {
                    max_points > u32::MAX && err == (HybridError::TooManyPoints { max_points })
                },
            },
    {
        match check_start_point(start_vector.as_slice(), dim) {
            Ok(_) => {},
            Err(err) => {
                return Err(err);
            },
        }
        match start_slot(max_points) {
            Ok(start_id) => Ok(
                HybridProvider { start_id, start_vector, dim, inflight: BTreeMap::new() },
            ),
            Err(err) => Err(err),
        }
    }

    /// The elements that a search starts from.
    pub fn starting_points(&self) -> (ids: Vec<u32>)
        ensures
            ids@ == seq![self.start_id],
    {
        vec![self.start_id]
    }

    /// Keep the vector of an insert until it is over.
    pub fn hold(&mut self, id: u32, vector: Vec<u32>)
        ensures
            final(self).start_id == old(self).start_id,
            final(self).start_vector == old(self).start_vector,
            final(self).dim == old(self).dim,
            final(self).inflight@ == old(self).inflight@.insert(id, vector),
    {
        self.inflight.insert(id, vector);
    }

    /// Begin an insert, once the graph has given the element a slot or has
    /// refused it: the vector is kept until the insert is over. Returns the slot.
    pub fn set_element<E>(&mut self, element: Vec<u32>, inserted: Result<u32, E>) -> (slot: Result<
        u32,
        SetError<E>,
    >)
        ensures
            final(self).start_id == old(self).start_id,
            final(self).start_vector == old(self).start_vector,
            final(self).dim == old(self).dim,
            match slot {
                Ok(id) => {
                    &&& inserted == Ok::<u32, E>(id)
                    &&& element@.len() == old(self).dim
                    &&& final(self).inflight@ == old(self).inflight@.insert(id, element)
                },
                Err(SetError::Graph(err)) => {
                    &&& inserted == Err::<u32, E>(err)
                    &&& final(self).inflight@ == old(self).inflight@
                },
                Err(SetError::Element(err)) => {
                    &&& inserted is Ok
                    &&& element@.len() != old(self).dim
                    &&& err == (HybridError::Element {
                        got: element@.len() as usize,
                        expected: old(self).dim,
                    })
                    &&& final(self).inflight@ == old(self).inflight@
                },
            },
    {
        let id: u32 = match inserted {
            Ok(id) => id,
            Err(err) => {
                return Err(SetError::Graph(err));
            },
        };
        match NoVectors::new(self.dim).set(element.as_slice()) {
            Ok(_) => {},
            Err(err) => {
                return Err(SetError::Element(err));
            },
        }
        self.hold(id, element);
        Ok(id)
    }

    /// The insert is over: its vector can be fetched.
    pub fn release(&mut self, id: u32)
        ensures
            final(self).start_id == old(self).start_id,
            final(self).start_vector == old(self).start_vector,
            final(self).dim == old(self).dim,
            final(self).inflight@ == old(self).inflight@.remove(id),
    {
        self.inflight.remove(&id);
    }

    /// Whether the vector of an element is kept in RAM.
    pub fn is_resident(&self, id: u32) -> (resident: bool)
        ensures
            resident == (self.resident(id) is Some),
    {
        id == self.start_id || self.inflight.get(&id).is_some()
    }

    /// Look the elements up in RAM, and say which rows are to be fetched for
    /// the others. `externals` holds the row of each element, if it has one; it
    /// is not looked at for elements that are kept in RAM.
    pub fn plan_load(&self, ids: &[u32], externals: &[Option<PrimaryId>]) -> (plan: LoadPlan)
        requires
            externals@.len() == ids@.len(),
        ensures
            self.is_plan(ids@, externals@, plan),
    {
        let mut out: Vec<Option<Vec<u32>>> = Vec::new();
        let mut slots: Vec<usize> = Vec::new();
        let mut wanted: Vec<PrimaryId> = Vec::new();
        let n: usize = ids.len();
        for i in 0..n
            invariant
                n == ids@.len(),
                n == externals@.len(),
                out@.len() == i,
                forall|j: int|
                    0 <= j < i ==> vector_view(#[trigger] out@[j]) == self.resident(ids@[j]),
                slots@.len() == wanted@.len(),
                forall|k: int| 0 <= k < slots@.len() ==> (#[trigger] slots@[k]) < i,
                forall|j: int, k: int|
                    0 <= j < k < slots@.len() ==> #[trigger] slots@[j] < #[trigger] slots@[k],
                forall|k: int|
                    0 <= k < slots@.len() ==> {
                        &&& self.to_fetch(ids@, externals@, (#[trigger] slots@[k]) as int)
                        &&& externals@[slots@[k] as int] == Some(wanted@[k])
                    },
                forall|j: int|
                    0 <= j < i && #[trigger] self.to_fetch(ids@, externals@, j) ==> exists|k: int|
                        0 <= k < slots@.len() && #[trigger] slots@[k] == j,
        {
            let id: u32 = ids[i];
            let ghost before = slots@;
            if id == self.start_id {
                out.push(Some(copied(&self.start_vector)));
            } else if let Some(vector) = self.inflight.get(&id) {
                out.push(Some(copied(vector)));
            } else {
                out.push(None);
                if let Some(external) = externals[i] {
                    slots.push(i);
                    wanted.push(external);
                    proof {
                        assert forall|j: int|
                            0 <= j < i + 1 && #[trigger] self.to_fetch(
                                ids@,
                                externals@,
                                j,
                            ) implies exists|k: int|
                            0 <= k < slots@.len() && #[trigger] slots@[k] == j by {
                            if j < i {
                                let k = choose|k: int|
                                    0 <= k < before.len() && #[trigger] before[k] == j;
                                assert(slots@[k] == j);
                            } else {
                                assert(slots@[before.len() as int] == j);
                            }
                        }
                    }
                }
            }
        }
        LoadPlan { out, slots, wanted }
    }
}

impl LoadPlan {
    /// Fill in what the source returned: one entry for each row it was asked
    /// for, in order.
    pub fn finish(self, fetched: Vec<Option<Vec<u32>>>) -> (loaded: Result<
        Vec<Option<Vec<u32>>>,
        HybridError,
    >)
        requires
            self.wf(),
        ensures
            match loaded {
                Ok(loaded) => {
                    &&& fetched@.len() == self.wanted@.len()
                    &&& loaded@.len() == self.out@.len()
                    &&& forall|k: int|
                        0 <= k < self.slots@.len() ==> loaded@[(#[trigger] self.slots@[k]) as int]
                            == fetched@[k]
                    &&& forall|i: int|
                        0 <= i < loaded@.len() && (forall|k: int|
                            0 <= k < self.slots@.len() ==> #[trigger] self.slots@[k] != i)
                            ==> #[trigger] loaded@[i] == self.out@[i]
                },
                Err(err) => {
                    &&& fetched@.len() != self.wanted@.len()
                    &&& err == (HybridError::Misaligned {
                        got: fetched@.len() as usize,
                        expected: self.wanted@.len() as usize,
                    })
                },
            },
    {
        let got: usize = fetched.len();
        let expected: usize = self.wanted.len();
        if got != expected {
            return Err(HybridError::Misaligned { got, expected });
        }
        let slots: Vec<usize> = self.slots;
        let mut out: Vec<Option<Vec<u32>>> = self.out;
        let ghost before = out@;
        let ghost rows = fetched@;
        let mut next: usize = 0;
        for vector in it: fetched
            invariant
                it.seq() == rows,
                expected == slots@.len(),
                next == it.index(),
                rows.len() == slots@.len(),
                out@.len() == before.len(),
                forall|k: int| 0 <= k < slots@.len() ==> (#[trigger] slots@[k]) < before.len(),
                forall|j: int, k: int|
                    0 <= j < k < slots@.len() ==> #[trigger] slots@[j] < #[trigger] slots@[k],
                forall|k: int|
                    0 <= k < next ==> out@[(#[trigger] slots@[k]) as int] == rows[k],
                forall|i: int|
                    0 <= i < out@.len() && (forall|k: int|
                        0 <= k < next ==> #[trigger] slots@[k] != i) ==> #[trigger] out@[i]
                        == before[i],
        {
            let position: usize = slots[next];
            out.set(position, vector);
            assert(slots@[next as int] == position);
            next = next + 1;
        }
        Ok(out)
    }
}

/// The vectors that come out are aligned with the ids: the one kept in RAM where
/// there is one, else what the source returned for the row, else nothing.
pub proof fn law_loaded_vectors_are_aligned_with_the_ids(
    provider: HybridProvider,
    ids: Seq<u32>,
    externals: Seq<Option<PrimaryId>>,
    plan: LoadPlan,
    fetched: Seq<Option<Vec<u32>>>,
    loaded: Seq<Option<Vec<u32>>>,
)
    requires
        provider.is_plan(ids, externals, plan),
        loaded.len() == plan.out@.len(),
        forall|k: int|
            0 <= k < plan.slots@.len() ==> loaded[(#[trigger] plan.slots@[k]) as int] == fetched[k],
        forall|i: int|
            0 <= i < loaded.len() && (forall|k: int|
                0 <= k < plan.slots@.len() ==> #[trigger] plan.slots@[k] != i)
                ==> #[trigger] loaded[i] == plan.out@[i],
    ensures
        loaded.len() == ids.len(),
        forall|i: int| #[trigger]
            provider.to_fetch(ids, externals, i) && 0 <= i < ids.len() ==> exists|k: int|
                0 <= k < plan.wanted@.len() && externals[i] == Some(
                    #[trigger] plan.wanted@[k],
                ) && loaded[i] == fetched[k],
        forall|i: int|
            0 <= i < ids.len() && !#[trigger] provider.to_fetch(ids, externals, i)
                ==> vector_view(loaded[i]) == provider.resident(ids[i]),
{
    assert forall|i: int| #[trigger]
        provider.to_fetch(ids, externals, i) && 0 <= i < ids.len() implies exists|k: int|
        0 <= k < plan.wanted@.len() && externals[i] == Some(#[trigger] plan.wanted@[k]) && loaded[i]
            == fetched[k] by {
        let k = choose|k: int| 0 <= k < plan.slots@.len() && #[trigger] plan.slots@[k] == i;
        assert(externals[i] == Some(plan.wanted@[k]));
    }
    assert forall|i: int|
        0 <= i < ids.len() && !#[trigger] provider.to_fetch(ids, externals, i) implies vector_view(
        loaded[i],
    ) == provider.resident(ids[i]) by {
        assert forall|k: int| 0 <= k < plan.slots@.len() implies #[trigger] plan.slots@[k] != i by {
            assert(provider.to_fetch(ids, externals, plan.slots@[k] as int));
        }
        assert(loaded[i] == plan.out@[i]);
    }
}

/// The beginning or the end of another insert.
pub enum InsertTurn {
    Hold { id: u32, vector: Vec<u32> },
    Release { id: u32 },
}

impl InsertTurn {
    /// The element that the turn is about.
    pub open spec fn element(self) -> u32 {
        match self {
            InsertTurn::Hold { id, .. } => id,
            InsertTurn::Release { id } => id,
        }
    }
}

/// The vectors that are kept after other inserts have begun and ended.
pub open spec fn after_turns(inflight: Map<u32, Vec<u32>>, turns: Seq<InsertTurn>) -> Map<
    u32,
    Vec<u32>,
>
    decreases turns.len(),
{
    if turns.len() == 0 {
        inflight
    } else {
        let before = after_turns(inflight, turns.drop_last());
        match turns.last() {
            InsertTurn::Hold { id, vector } => before.insert(id, vector),
            InsertTurn::Release { id } => before.remove(id),
        }
    }
}

/// What other inserts do leaves the vector of this one alone.
proof fn lemma_turns_of_others(inflight: Map<u32, Vec<u32>>, turns: Seq<InsertTurn>, id: u32)
    requires
        forall|i: int| 0 <= i < turns.len() ==> (#[trigger] turns[i]).element() != id,
    ensures
        after_turns(inflight, turns).contains_key(id) == inflight.contains_key(id),
        inflight.contains_key(id) ==> after_turns(inflight, turns)[id] == inflight[id],
    decreases turns.len(),
{
    if turns.len() > 0 {
        let rest = turns.drop_last();
        assert forall|i: int| 0 <= i < rest.len() implies (#[trigger] rest[i]).element() != id by {
            assert(rest[i] == turns[i]);
        }
        lemma_turns_of_others(inflight, rest, id);
        assert(turns[turns.len() - 1].element() != id);
    }
}

/// From the moment an insert has begun until it is over, whatever other inserts
/// do, its element loads as the vector that was inserted, from RAM: the source
/// is asked for nothing. The element is not the start point's.
pub proof fn law_an_insert_is_served_from_memory(
    before: HybridProvider,
    during: HybridProvider,
    id: u32,
    element: Vec<u32>,
    turns: Seq<InsertTurn>,
    later: HybridProvider,
    externals: Seq<Option<PrimaryId>>,
    plan: LoadPlan,
    loaded: Seq<Option<Vec<u32>>>,
)
    requires
        id != before.start_id,
        during.start_id == before.start_id,
        during.inflight@ == before.inflight@.insert(id, element),
        forall|i: int| 0 <= i < turns.len() ==> (#[trigger] turns[i]).element() != id,
        later.start_id == during.start_id,
        later.inflight@ == after_turns(during.inflight@, turns),
        later.is_plan(seq![id], externals, plan),
        loaded.len() == plan.out@.len(),
        forall|i: int|
            0 <= i < loaded.len() && (forall|k: int|
                0 <= k < plan.slots@.len() ==> #[trigger] plan.slots@[k] != i)
                ==> #[trigger] loaded[i] == plan.out@[i],
    ensures
        later.resident(id) == Some(element@),
        plan.wanted@.len() == 0,
        loaded.len() == 1,
        vector_view(loaded[0]) == Some(element@),
{
    lemma_turns_of_others(during.inflight@, turns, id);
    let ids = seq![id];
    if plan.slots@.len() > 0 {
        assert(later.to_fetch(ids, externals, plan.slots@[0] as int));
    }
    assert(loaded[0] == plan.out@[0]);
    assert(vector_view(plan.out@[0]) == later.resident(ids[0]));
}

/// A vector is kept from the moment its insert holds it until the insert is
/// over, and nothing of it is kept then. No other vector notices.
pub proof fn law_an_insert_leaves_nothing_behind(
    before: HybridProvider,
    during: HybridProvider,
    after: HybridProvider,
    id: u32,
    vector: Vec<u32>,
    other: u32,
)
    requires
        id != before.start_id,
        other != id,
        during.start_id == before.start_id && during.start_vector == before.start_vector,
        during.inflight@ == before.inflight@.insert(id, vector),
        after.start_id == during.start_id && after.start_vector == during.start_vector,
        after.inflight@ == during.inflight@.remove(id),
    ensures
        during.resident(id) == Some(vector@),
        after.resident(id) is None,
        during.resident(other) == before.resident(other),
        after.resident(other) == before.resident(other),
{
}

/// Those of `ids` that are flagged, in order.
pub open spec fn flagged(ids: Seq<u32>, flags: Seq<bool>) -> Seq<u32>
    decreases ids.len(),
{
    if ids.len() == 0 {
        Seq::empty()
    } else {
        let rest = flagged(ids.drop_last(), flags);
        if flags[ids.len() - 1] {
            rest.push(ids.last())
        } else {
            rest
        }
    }
}

/// Add those of `ids` that are flagged to `chosen`, in order.
pub fn choose_flagged(chosen: &mut Vec<u32>, ids: &[u32], flags: &[bool])
    requires
        flags@.len() == ids@.len(),
    ensures
        final(chosen)@ == old(chosen)@ + flagged(ids@, flags@),
{
    let ghost before = chosen@;
    let n: usize = ids.len();
    assert(before =~= before + flagged(ids@.take(0), flags@));
    for i in 0..n
        invariant
            n == ids@.len(),
            n == flags@.len(),
            chosen@ == before + flagged(ids@.take(i as int), flags@),
    {
        let id: u32 = ids[i];
        proof {
            let part = ids@.take(i + 1);
            assert(part.drop_last() =~= ids@.take(i as int));
            assert(part.last() == id);
        }
        if flags[i] {
            chosen.push(id);
        }
        assert(chosen@ =~= before + flagged(ids@.take(i + 1), flags@));
    }
    assert(ids@.take(n as int) =~= ids@);
}

/// The ids whose vectors were loaded, each with its vector, in order.
pub open spec fn paired<V>(ids: Seq<u32>, loaded: Seq<Option<V>>) -> Seq<(u32, V)>
    decreases loaded.len(),
{
    if loaded.len() == 0 {
        Seq::empty()
    } else {
        let rest = paired(ids, loaded.drop_last());
        match loaded.last() {
            Some(vector) => rest.push((ids[loaded.len() - 1], vector)),
            None => rest,
        }
    }
}

/// The ids whose vectors were loaded, each with its vector, in order. The
/// others are skipped.
pub fn pair_loaded<V>(ids: &[u32], loaded: Vec<Option<V>>) -> (pairs: Vec<(u32, V)>)
    requires
        loaded@.len() == ids@.len(),
    ensures
        pairs@ == paired(ids@, loaded@),
{
    let ghost all = loaded@;
    let n: usize = ids.len();
    let mut pairs: Vec<(u32, V)> = Vec::new();
    let mut next: usize = 0;
    assert(all.take(0) =~= Seq::empty());
    for vector in it: loaded
        invariant
            it.seq() == all,
            n == ids@.len(),
            n == all.len(),
            next == it.index(),
            pairs@ == paired(ids@, all.take(next as int)),
    {
        proof {
            let part = all.take(next + 1);
            assert(part.drop_last() =~= all.take(next as int));
            assert(part.last() == vector);
        }
        if let Some(vector) = vector {
            pairs.push((ids[next], vector));
        }
        next = next + 1;
    }
    assert(all.take(n as int) =~= all);
    pairs
}

/// The vector that each id was paired with last.
pub open spec fn indexed<V>(pairs: Seq<(u32, V)>) -> Map<u32, V>
    decreases pairs.len(),
{
    if pairs.len() == 0 {
        Map::empty()
    } else {
        indexed(pairs.drop_last()).insert(pairs.last().0, pairs.last().1)
    }
}

/// The loaded vectors by their ids.
pub fn index_loaded<V>(ids: &[u32], loaded: Vec<Option<V>>) -> (index: HashMap<u32, V>)
    requires
        loaded@.len() == ids@.len(),
    ensures
        index@ == indexed(paired(ids@, loaded@)),
{
    let pairs: Vec<(u32, V)> = pair_loaded(ids, loaded);
    let ghost all = pairs@;
    let mut index: HashMap<u32, V> = HashMap::new();
    assert(all.take(0) =~= Seq::empty());
    for pair in it: pairs
        invariant
            it.seq() == all,
            index@ == indexed(all.take(it.index() as int)),
    {
        proof {
            let i = it.index() as int;
            let part = all.take(i + 1);
            assert(part.drop_last() =~= all.take(i));
            assert(part.last() == pair);
        }
        index.insert(pair.0, pair.1);
    }
    assert(all.take(all.len() as int) =~= all);
    index
}

/// Every id that was paired with a vector is among those asked for, and
/// nothing is made up.
pub proof fn law_only_loaded_vectors_are_paired<V>(ids: Seq<u32>, loaded: Seq<Option<V>>)
    requires
        loaded.len() <= ids.len(),
    ensures
        paired(ids, loaded).len() <= loaded.len(),
        forall|k: int|
            0 <= k < paired(ids, loaded).len() ==> exists|i: int|
                0 <= i < loaded.len() && (#[trigger] paired(ids, loaded)[k]).0 == ids[i] && Some(
                    paired(ids, loaded)[k].1,
                ) == #[trigger] loaded[i],
    decreases loaded.len(),
{
    if loaded.len() > 0 {
        let rest = loaded.drop_last();
        law_only_loaded_vectors_are_paired(ids, rest);
        let all = paired(ids, loaded);
        let some = paired(ids, rest);
        assert forall|k: int| 0 <= k < all.len() implies exists|i: int|
            0 <= i < loaded.len() && (#[trigger] all[k]).0 == ids[i] && Some(all[k].1)
                == #[trigger] loaded[i] by {
            if k < some.len() {
                assert(all[k] == some[k]);
                let i = choose|i: int|
                    0 <= i < rest.len() && some[k].0 == ids[i] && Some(some[k].1)
                        == #[trigger] rest[i];
                assert(loaded[i] == rest[i]);
            } else {
                assert(loaded[loaded.len() - 1] == Some(all[k].1));
            }
        }
    }
}

/// Hands the rows of search results to an output that may fill up.
#[derive(Debug, Clone, Copy, PartialEq, Eq, Structural)]
pub struct TranslateIds {
    /// The rows handed over after which the output had room left.
    pub count: usize,
    /// The output has filled up.
    pub full: bool,
}

impl TranslateIds {
    /// Nothing was handed over.
    pub fn new() -> (translation: Self)
        ensures
            translation == (TranslateIds { count: 0, full: false }),
    {
        TranslateIds { count: 0, full: false }
    }

    /// What is to be handed over of a result.
    pub open spec fn offered(self, external: Option<PrimaryId>) -> Option<PrimaryId> {
        if self.full {
            None
        } else {
            external
        }
    }

    /// The state after a row was handed over.
    pub open spec fn after(self, available: bool) -> TranslateIds {
        if available {
            TranslateIds { count: (self.count + 1) as usize, ..self }
        } else {
            TranslateIds { full: true, ..self }
        }
    }

    /// What is to be handed over of a result: nothing if the element has no
    /// row, as the start point has none and a deleted element has none any more.
    pub fn offer(&self, external: Option<PrimaryId>) -> (row: Option<PrimaryId>)
        ensures
            row == self.offered(external),
    {
        if self.full {
            None
        } else {
            external
        }
    }

    /// A row was handed over; the output has room left, or has not.
    pub fn pushed(&mut self, available: bool)
        requires
            old(self).count < usize::MAX,
        ensures
            *final(self) == old(self).after(available),
    {
        if available {
            self.count = self.count + 1;
        } else {
            self.full = true;
        }
    }
}

/// The state of a translation and the rows that were handed over, once these
/// results were offered in turn. `rooms` says after each row whether the output
/// had room left.
pub open spec fn handed_over(externals: Seq<Option<PrimaryId>>, rooms: Seq<bool>) -> (
    TranslateIds,
    Seq<PrimaryId>,
)
    decreases externals.len(),
{
    if externals.len() == 0 {
        (TranslateIds { count: 0, full: false }, Seq::empty())
    } else {
        let (translation, rows) = handed_over(externals.drop_last(), rooms);
        match translation.offered(externals.last()) {
            Some(row) => (translation.after(rooms[rows.len() as int]), rows.push(row)),
            None => (translation, rows),
        }
    }
}

/// The rows of results that have one, in order.
pub open spec fn rows_of(externals: Seq<Option<PrimaryId>>) -> Seq<PrimaryId>
    decreases externals.len(),
{
    if externals.len() == 0 {
        Seq::empty()
    } else {
        match externals.last() {
            Some(row) => rows_of(externals.drop_last()).push(row),
            None => rows_of(externals.drop_last()),
        }
    }
}

/// Rows are handed over in the order of the results, those without a row left
/// out, until the output has no room left. The count is of the rows after which
/// it had.
pub proof fn law_rows_are_handed_over_until_the_output_is_full(
    externals: Seq<Option<PrimaryId>>,
    rooms: Seq<bool>,
)
    requires
        externals.len() <= usize::MAX,
    ensures
        ({
            let (translation, rows) = handed_over(externals, rooms);
            &&& rows.is_prefix_of(rows_of(externals))
            &&& rows.len() <= externals.len()
            &&& !translation.full ==> rows == rows_of(externals) && translation.count == rows.len()
            &&& translation.full ==> rows.len() > 0 && translation.count == rows.len() - 1
                && !rooms[rows.len() - 1]
            &&& forall|i: int| 0 <= i < translation.count ==> #[trigger] rooms[i]
        }),
    decreases externals.len(),
{
    if externals.len() > 0 {
        let rest = externals.drop_last();
        law_rows_are_handed_over_until_the_output_is_full(rest, rooms);
        let (before, rows) = handed_over(rest, rooms);
        assert(rows.is_prefix_of(rows_of(externals)));
    }
}

/// What is loaded without the source: the start point and the inserts that are
/// not over, each from RAM, whatever row it has. Every other element that has a
/// row is fetched by that row, however many there are; and nothing else is
/// fetched, nor anything twice. Rows are asked for in the order of the elements.
pub proof fn law_every_element_with_a_row_is_fetched_unless_it_is_in_memory(
    provider: &HybridProvider,
    ids: &[u32],
    externals: &[Option<PrimaryId>],
    plan: LoadPlan,
)
    requires
        externals@.len() == ids@.len(),
        call_ensures(HybridProvider::plan_load, (provider, ids, externals), plan),
    ensures
        plan.out@.len() == ids@.len(),
        plan.slots@.len() == plan.wanted@.len(),
        forall|i: int|
            0 <= i < ids@.len() && #[trigger] ids@[i] == provider.start_id ==> (
            plan.out@[i] matches Some(vector) && vector@ == provider.start_vector@),
        forall|i: int|
            0 <= i < ids@.len() && #[trigger] ids@[i] != provider.start_id
                && provider.inflight@.contains_key(ids@[i]) ==> (
            plan.out@[i] matches Some(vector) && vector@ == provider.inflight@[ids@[i]]@),
        forall|i: int|
            0 <= i < ids@.len() && #[trigger] ids@[i] != provider.start_id
                && !provider.inflight@.contains_key(ids@[i]) ==> plan.out@[i] is None,
        forall|i: int|
            0 <= i < ids@.len() && #[trigger] ids@[i] != provider.start_id
                && !provider.inflight@.contains_key(ids@[i]) && externals@[i] is Some
                ==> exists|k: int|
                0 <= k < plan.slots@.len() && #[trigger] plan.slots@[k] == i && externals@[i]
                    == Some(plan.wanted@[k]),
        forall|k: int|
            0 <= k < plan.slots@.len() ==> {
                let i = (#[trigger] plan.slots@[k]) as int;
                &&& 0 <= i < ids@.len()
                &&& ids@[i] != provider.start_id
                &&& !provider.inflight@.contains_key(ids@[i])
                &&& externals@[i] == Some(plan.wanted@[k])
            },
        forall|j: int, k: int|
            0 <= j < k < plan.slots@.len() ==> #[trigger] plan.slots@[j] < #[trigger] plan.slots@[k],
{
    assert forall|i: int| 0 <= i < ids@.len() implies vector_view(#[trigger] plan.out@[i])
        == provider.resident(ids@[i]) by {}
    assert forall|i: int|
        0 <= i < ids@.len() && #[trigger] ids@[i] == provider.start_id implies (
    plan.out@[i] matches Some(vector) && vector@ == provider.start_vector@) by {
        assert(vector_view(plan.out@[i]) == provider.resident(ids@[i]));
    }
    assert forall|i: int|
        0 <= i < ids@.len() && #[trigger] ids@[i] != provider.start_id
            && provider.inflight@.contains_key(ids@[i]) implies (plan.out@[i] matches Some(vector)
        && vector@ == provider.inflight@[ids@[i]]@) by {
        assert(vector_view(plan.out@[i]) == provider.resident(ids@[i]));
    }
    assert forall|i: int|
        0 <= i < ids@.len() && #[trigger] ids@[i] != provider.start_id
            && !provider.inflight@.contains_key(ids@[i]) implies plan.out@[i] is None by {
        assert(vector_view(plan.out@[i]) == provider.resident(ids@[i]));
    }
    assert forall|i: int|
        0 <= i < ids@.len() && #[trigger] ids@[i] != provider.start_id
            && !provider.inflight@.contains_key(ids@[i]) && externals@[i] is Some implies exists|
        k: int,
    |
        0 <= k < plan.slots@.len() && #[trigger] plan.slots@[k] == i && externals@[i] == Some(
            plan.wanted@[k],
        ) by {
        assert(provider.to_fetch(ids@, externals@, i));
    }
    assert forall|k: int| 0 <= k < plan.slots@.len() implies {
        let i = (#[trigger] plan.slots@[k]) as int;
        &&& 0 <= i < ids@.len()
        &&& ids@[i] != provider.start_id
        &&& !provider.inflight@.contains_key(ids@[i])
        &&& externals@[i] == Some(plan.wanted@[k])
    } by {
        assert(provider.to_fetch(ids@, externals@, plan.slots@[k] as int));
    }
}

/// What a batch of elements loads as, once the source has answered: the start
/// point and the inserts that are not over as they are in RAM, every other
/// element with a row as what the source returned for that row, and an element
/// without a row as nothing. The source has to answer for each row, and no more.
pub proof fn law_a_batch_loads_element_by_element(
    provider: &HybridProvider,
    ids: &[u32],
    externals: &[Option<PrimaryId>],
    plan: LoadPlan,
    fetched: Vec<Option<Vec<u32>>>,
    outcome: Result<Vec<Option<Vec<u32>>>, HybridError>,
)
    requires
        externals@.len() == ids@.len(),
        call_ensures(HybridProvider::plan_load, (provider, ids, externals), plan),
        call_ensures(LoadPlan::finish, (plan, fetched), outcome),
    ensures
        outcome is Ok <==> fetched@.len() == plan.wanted@.len(),
        outcome matches Err(err) ==> err == (HybridError::Misaligned {
            got: fetched@.len() as usize,
            expected: plan.wanted@.len() as usize,
        }),
        outcome matches Ok(loaded) ==> {
            &&& loaded@.len() == ids@.len()
            &&& forall|i: int|
                0 <= i < ids@.len() && #[trigger] ids@[i] == provider.start_id ==> (
                loaded@[i] matches Some(vector) && vector@ == provider.start_vector@)
            &&& forall|i: int|
                0 <= i < ids@.len() && #[trigger] ids@[i] != provider.start_id
                    && provider.inflight@.contains_key(ids@[i]) ==> (
                loaded@[i] matches Some(vector) && vector@ == provider.inflight@[ids@[i]]@)
            &&& forall|i: int|
                0 <= i < ids@.len() && #[trigger] ids@[i] != provider.start_id
                    && !provider.inflight@.contains_key(ids@[i]) && externals@[i] is None
                    ==> loaded@[i] is None
            &&& forall|i: int|
                0 <= i < ids@.len() && #[trigger] ids@[i] != provider.start_id
                    && !provider.inflight@.contains_key(ids@[i]) && externals@[i] is Some
                    ==> exists|k: int|
                    0 <= k < plan.wanted@.len() && externals@[i] == Some(#[trigger] plan.wanted@[k])
                        && loaded@[i] == fetched@[k]
        },
{
    law_every_element_with_a_row_is_fetched_unless_it_is_in_memory(provider, ids, externals, plan);
    if let Ok(loaded) = outcome {
        assert forall|i: int|
            0 <= i < ids@.len() && (provider.inflight@.contains_key(#[trigger] ids@[i]) || ids@[i]
                == provider.start_id || externals@[i] is None) implies loaded@[i]
            == plan.out@[i] by {
            assert forall|k: int| 0 <= k < plan.slots@.len() implies #[trigger] plan.slots@[k]
                != i by {
                let at = plan.slots@[k] as int;
                assert(ids@[at] != provider.start_id && externals@[at] is Some);
            }
        }
        assert forall|i: int|
            0 <= i < ids@.len() && #[trigger] ids@[i] != provider.start_id
                && !provider.inflight@.contains_key(ids@[i]) && externals@[i] is Some implies exists|
            k: int,
        |
            0 <= k < plan.wanted@.len() && externals@[i] == Some(#[trigger] plan.wanted@[k])
                && loaded@[i] == fetched@[k] by {
            let k = choose|k: int|
                0 <= k < plan.slots@.len() && #[trigger] plan.slots@[k] == i && externals@[i]
                    == Some(plan.wanted@[k]);
            assert(loaded@[plan.slots@[k] as int] == fetched@[k]);
            assert(externals@[i] == Some(plan.wanted@[k]));
        }
    }
}

/// What the source returned goes to the positions that were asked for, in their
/// order, and every other position stays as it was.
pub proof fn law_what_was_fetched_goes_where_it_was_asked_for(
    plan: LoadPlan,
    fetched: Vec<Option<Vec<u32>>>,
    outcome: Result<Vec<Option<Vec<u32>>>, HybridError>,
    k: int,
    other: int,
)
    requires
        call_ensures(LoadPlan::finish, (plan, fetched), outcome),
        0 <= k < plan.slots@.len(),
        0 <= other < plan.out@.len(),
        !plan.slots@.contains(other as usize),
    ensures
        outcome matches Ok(loaded) ==> {
            &&& loaded@.len() == plan.out@.len()
            &&& loaded@[plan.slots@[k] as int] == fetched@[k]
            &&& loaded@[other] == plan.out@[other]
        },
{
    if let Ok(loaded) = outcome {
        assert forall|j: int| 0 <= j < plan.slots@.len() implies #[trigger] plan.slots@[j]
            != other by {
            if plan.slots@[j] == other {
                assert(plan.slots@.contains(other as usize));
            }
        }
        assert(loaded@[other] == plan.out@[other]);
    }
}

/// An insert begins exactly if the graph gave the element a slot and the element
/// is of the index's dimension. Its vector is then kept under that slot, and
/// every other vector stays; a refusal leaves everything as it was and says why.
pub proof fn law_an_insert_keeps_its_vector_under_its_slot<E>(
    provider: &mut HybridProvider,
    element: Vec<u32>,
    inserted: Result<u32, E>,
    outcome: Result<u32, SetError<E>>,
    other: u32,
)
    requires
        call_ensures(HybridProvider::set_element::<E>, (provider, element, inserted), outcome),
    ensures
        outcome is Ok <==> inserted is Ok && element@.len() == old(provider).dim,
        match outcome {
            Ok(id) => {
                &&& inserted == Ok::<u32, E>(id)
                &&& final(provider).inflight@.contains_key(id)
                &&& final(provider).inflight@[id]@ == element@
                &&& other != id ==> final(provider).inflight@.contains_key(other) == old(
                    provider).inflight@.contains_key(other)
                &&& other != id && old(provider).inflight@.contains_key(other) ==> final(
                    provider).inflight@[other] == old(provider).inflight@[other]
            },
            Err(SetError::Graph(err)) => {
                &&& inserted == Err::<u32, E>(err)
                &&& final(provider).inflight@ == old(provider).inflight@
            },
            Err(SetError::Element(err)) => {
                &&& inserted is Ok
                &&& err == (HybridError::Element {
                    got: element@.len() as usize,
                    expected: old(provider).dim,
                })
                &&& final(provider).inflight@ == old(provider).inflight@
            },
        },
        final(provider).start_id == old(provider).start_id,
        final(provider).start_vector@ == old(provider).start_vector@,
        final(provider).dim == old(provider).dim,
{
}

/// Holding a vector keeps it under its element, and releasing drops that one;
/// no other vector notices, nor does the start point.
pub proof fn law_holding_and_releasing_touch_one_vector(
    holding: &mut HybridProvider,
    id: u32,
    vector: Vec<u32>,
    releasing: &mut HybridProvider,
    released: u32,
    other: u32,
)
    requires
        call_ensures(HybridProvider::hold, (holding, id, vector), ()),
        call_ensures(HybridProvider::release, (releasing, released), ()),
    ensures
        final(holding).inflight@.contains_key(id),
        final(holding).inflight@[id]@ == vector@,
        other != id ==> final(holding).inflight@.contains_key(other) == old(
            holding).inflight@.contains_key(other),
        other != id && old(holding).inflight@.contains_key(other) ==> final(
            holding).inflight@[other] == old(holding).inflight@[other],
        final(holding).start_id == old(holding).start_id,
        final(holding).start_vector@ == old(holding).start_vector@,
        final(holding).dim == old(holding).dim,
        !final(releasing).inflight@.contains_key(released),
        other != released ==> final(releasing).inflight@.contains_key(other) == old(
            releasing).inflight@.contains_key(other),
        other != released && old(releasing).inflight@.contains_key(other) ==> final(
            releasing).inflight@[other] == old(releasing).inflight@[other],
        final(releasing).start_id == old(releasing).start_id,
        final(releasing).start_vector@ == old(releasing).start_vector@,
        final(releasing).dim == old(releasing).dim,
{
}

/// The start point and the inserts that are not over are in RAM, and no other
/// element is. A search starts from the start point alone.
pub proof fn law_the_start_point_and_open_inserts_are_in_memory(
    provider: &HybridProvider,
    id: u32,
    resident: bool,
    starts: Vec<u32>,
)
    requires
        call_ensures(HybridProvider::is_resident, (provider, id), resident),
        call_ensures(HybridProvider::starting_points, (provider,), starts),
    ensures
        resident <==> id == provider.start_id || provider.inflight@.contains_key(id),
        starts@.len() == 1,
        starts@[0] == provider.start_id,
{
}

/// A new graph has its start point behind all the points that it may hold, with
/// the vector that it was given, and no insert is open. It is refused exactly if
/// that vector is not of the dimension, or if there are more points than slots.
pub proof fn law_a_new_graph_has_its_start_point_behind_its_points(
    start_vector: Vec<u32>,
    dim: usize,
    max_points: usize,
    outcome: Result<HybridProvider, HybridError>,
    id: u32,
)
    requires
        call_ensures(HybridProvider::new, (start_vector, dim, max_points), outcome),
    ensures
        outcome is Ok <==> start_vector@.len() == dim && max_points <= u32::MAX,
        match outcome {
            Ok(provider) => {
                &&& provider.start_id == max_points
                &&& provider.start_vector@ == start_vector@
                &&& provider.dim == dim
                &&& !provider.inflight@.contains_key(id)
            },
            Err(HybridError::StartPoint { got, expected }) => {
                &&& start_vector@.len() != dim
                &&& got == start_vector@.len() as usize
                &&& expected == dim
            },
            Err(HybridError::TooManyPoints { max_points: refused }) => {
                &&& start_vector@.len() == dim
                &&& refused == max_points
                &&& max_points > u32::MAX
            },
            Err(_) => false,
        },
{
}

/// A layer without vectors is of the dimension that it is made for, and takes one
/// byte for each slot.
pub proof fn law_a_layer_without_vectors_takes_a_byte_for_each_slot(
    dim: usize,
    layer: NoVectors,
    bytes: usize,
)
    requires
        call_ensures(NoVectors::new, (dim,), layer),
        call_ensures(NoVectors::bytes, (&layer,), bytes),
    ensures
        layer.dim == dim,
        bytes == 1,
{
}

/// A vector passes exactly if it is of the dimension asked for; a refusal names
/// both dimensions, be it of an element, a start point or a query.
pub proof fn law_a_vector_passes_by_its_dimension_only<T>(
    layer: &NoVectors,
    vector: &[T],
    dim: usize,
    set: Result<(), HybridError>,
    start: Result<(), HybridError>,
    query: Result<(), HybridError>,
)
    requires
        call_ensures(NoVectors::set::<T>, (layer, vector), set),
        call_ensures(check_start_point::<T>, (vector, dim), start),
        call_ensures(check_query::<T>, (vector, dim), query),
    ensures
        set is Ok <==> vector@.len() == layer.dim,
        set matches Err(err) ==> (err matches HybridError::Element { got, expected } && got
            == vector@.len() as usize && expected == layer.dim),
        start is Ok <==> vector@.len() == dim,
        start matches Err(err) ==> (err matches HybridError::StartPoint { got, expected } && got
            == vector@.len() as usize && expected == dim),
        query is Ok <==> vector@.len() == dim,
        query matches Err(err) ==> (err matches HybridError::Query { got, expected } && got
            == vector@.len() as usize && expected == dim),
{
}

/// The start point's slot is numbered by how many points there may be, and has to
/// be in use; the slot below it, if there is one, must not be.
pub proof fn law_the_start_point_sits_above_an_unused_slot(
    max_points: usize,
    slot: Result<u32, HybridError>,
    start_id: u32,
    found: ElementStatus,
    below: Result<Option<u32>, HybridError>,
    checked: Result<(), HybridError>,
)
    requires
        call_ensures(start_slot, (max_points,), slot),
        call_ensures(check_start_status, (start_id, found), below),
        call_ensures(check_below_status, (start_id, found), checked),
    ensures
        match slot {
            Ok(slot) => slot == max_points,
            Err(err) => max_points > u32::MAX && err == (HybridError::TooManyPoints { max_points }),
        },
        match below {
            Ok(Some(below)) => found == ElementStatus::Valid && below + 1 == start_id,
            Ok(None) => found == ElementStatus::Valid && start_id == 0,
            Err(err) => found == ElementStatus::Deleted && err == (HybridError::StartSlot {
                slot: start_id,
                found,
            }),
        },
        match checked {
            Ok(_) => found == ElementStatus::Deleted,
            Err(err) => found == ElementStatus::Valid && err == (HybridError::SlotBelow {
                slot: start_id,
                found,
            }),
        },
{
}

/// How many of these flags are raised.
pub open spec fn raised(flags: Seq<bool>) -> nat {
    flags.filter(|flag: bool| flag).len()
}

/// Every flagged id becomes a candidate, at the place that the flags before it
/// leave it behind those chosen earlier, which stay; and no other id does.
pub proof fn law_every_flagged_id_is_chosen_in_its_place(
    chosen: &mut Vec<u32>,
    ids: &[u32],
    flags: &[bool],
)
    requires
        flags@.len() == ids@.len(),
        call_ensures(choose_flagged, (chosen, ids, flags), ()),
    ensures
        final(chosen)@.len() == old(chosen)@.len() + raised(flags@),
        forall|j: int|
            0 <= j < old(chosen)@.len() ==> #[trigger] final(chosen)@[j] == old(chosen)@[j],
        forall|i: int|
            0 <= i < ids@.len() && #[trigger] flags@[i] ==> {
                let at = raised(flags@.take(i));
                at < raised(flags@) && final(chosen)@[(old(chosen)@.len() + at) as int] == ids@[i]
            },
{
    lemma_flagged(ids@, flags@, ids@.len() as int);
    assert(ids@.take(ids@.len() as int) =~= ids@);
    assert(flags@.take(ids@.len() as int) =~= flags@);
}

/// The flagged ones of the first `n` ids, place by place.
proof fn lemma_flagged(ids: Seq<u32>, flags: Seq<bool>, n: int)
    requires
        flags.len() == ids.len(),
        0 <= n <= ids.len(),
    ensures
        flagged(ids.take(n), flags).len() == raised(flags.take(n)),
        forall|i: int|
            0 <= i < n && #[trigger] flags[i] ==> {
                let at = raised(flags.take(i)) as int;
                at < raised(flags.take(n)) && flagged(ids.take(n), flags)[at] == ids[i]
            },
    decreases n,
{
    reveal(Seq::filter);
    if n > 0 {
        lemma_flagged(ids, flags, n - 1);
        assert(ids.take(n).drop_last() =~= ids.take(n - 1));
        assert(flags.take(n).drop_last() =~= flags.take(n - 1));
        assert(flags.take(n).last() == flags[n - 1]);
    }
}

/// Every vector that was loaded is paired with its id, at the place that the
/// loaded ones before it leave it; what was not loaded is skipped.
pub proof fn law_every_loaded_vector_is_paired_in_its_place<V>(
    ids: &[u32],
    loaded: Vec<Option<V>>,
    pairs: Vec<(u32, V)>,
)
    requires
        loaded@.len() == ids@.len(),
        call_ensures(pair_loaded::<V>, (ids, loaded), pairs),
    ensures
        pairs@.len() == present(loaded@),
        forall|i: int|
            #![trigger loaded@[i]]
            0 <= i < loaded@.len() ==> (loaded@[i] matches Some(vector) ==> {
                let at = present(loaded@.take(i)) as int;
                at < pairs@.len() && pairs@[at] == (ids@[i], vector)
            }),
{
    lemma_paired(ids@, loaded@);
}

/// The pairs, place by place.
proof fn lemma_paired<V>(ids: Seq<u32>, loaded: Seq<Option<V>>)
    requires
        loaded.len() <= ids.len(),
    ensures
        paired(ids, loaded).len() == present(loaded),
        forall|i: int|
            #![trigger loaded[i]]
            0 <= i < loaded.len() ==> (loaded[i] matches Some(vector) ==> {
                let at = present(loaded.take(i)) as int;
                at < paired(ids, loaded).len() && paired(ids, loaded)[at] == (ids[i], vector)
            }),
    decreases loaded.len(),
{
    if loaded.len() == 0 {
        lemma_present_of_nothing(loaded);
    } else {
        let rest = loaded.drop_last();
        let last = loaded.len() - 1;
        lemma_paired(ids, rest);
        lemma_present(loaded);
        assert(loaded.take(last) =~= rest);
        assert forall|i: int|
            #![trigger loaded[i]]
            0 <= i < loaded.len() implies (loaded[i] matches Some(vector) ==> {
            let at = present(loaded.take(i)) as int;
            at < paired(ids, loaded).len() && paired(ids, loaded)[at] == (ids[i], vector)
        }) by {
            if i < last {
                assert(rest[i] == loaded[i]);
                assert(rest.take(i) =~= loaded.take(i));
            }
        }
    }
}

/// An id is indexed exactly if a vector was loaded for it, and with the vector
/// that was loaded for it last.
pub proof fn law_an_id_is_indexed_with_the_vector_loaded_last<V>(
    ids: &[u32],
    loaded: Vec<Option<V>>,
    index: std::collections::HashMap<u32, V>,
)
    requires
        loaded@.len() == ids@.len(),
        call_ensures(index_loaded::<V>, (ids, loaded), index),
    ensures
        forall|id: u32| #[trigger]
            index@.contains_key(id) ==> exists|i: int|
                #![trigger loaded@[i]]
                0 <= i < ids@.len() && ids@[i] == id && loaded@[i] == Some(index@[id]),
        forall|i: int|
            #![trigger loaded@[i]]
            0 <= i < ids@.len() && loaded@[i] is Some ==> index@.contains_key(ids@[i]),
        forall|i: int|
            #![trigger loaded@[i]]
            0 <= i < ids@.len() && loaded@[i] is Some && (forall|j: int|
                #![trigger loaded@[j]]
                i < j < ids@.len() && ids@[j] == ids@[i] ==> loaded@[j] is None) ==> loaded@[i]
                == Some(index@[ids@[i]]),
{
    lemma_indexed(ids@, loaded@);
}

/// The index, id by id.
proof fn lemma_indexed<V>(ids: Seq<u32>, loaded: Seq<Option<V>>)
    requires
        loaded.len() <= ids.len(),
    ensures
        ({
            let index = indexed(paired(ids, loaded));
            &&& forall|id: u32| #[trigger]
                index.contains_key(id) ==> exists|i: int|
                    #![trigger loaded[i]]
                    0 <= i < loaded.len() && ids[i] == id && loaded[i] == Some(index[id])
            &&& forall|i: int|
                #![trigger loaded[i]]
                0 <= i < loaded.len() && loaded[i] is Some ==> index.contains_key(ids[i])
            &&& forall|i: int|
                #![trigger loaded[i]]
                0 <= i < loaded.len() && loaded[i] is Some && (forall|j: int|
                    #![trigger loaded[j]]
                    i < j < loaded.len() && ids[j] == ids[i] ==> loaded[j] is None) ==> loaded[i]
                    == Some(index[ids[i]])
        }),
    decreases loaded.len(),
{
    if loaded.len() > 0 {
        let rest = loaded.drop_last();
        let last = loaded.len() - 1;
        lemma_indexed(ids, rest);
        let before = indexed(paired(ids, rest));
        let index = indexed(paired(ids, loaded));
        if loaded.last() is Some {
            assert(paired(ids, loaded).drop_last() =~= paired(ids, rest));
        }
        assert forall|id: u32| #[trigger] index.contains_key(id) implies exists|i: int|
            #![trigger loaded[i]]
            0 <= i < loaded.len() && ids[i] == id && loaded[i] == Some(index[id]) by {
            if loaded.last() is Some && id == ids[last] {
                assert(loaded[last] == Some(index[id]));
            } else {
                assert(before.contains_key(id));
                let i = choose|i: int|
                    #![trigger rest[i]]
                    0 <= i < rest.len() && ids[i] == id && rest[i] == Some(before[id]);
                assert(loaded[i] == rest[i]);
            }
        }
        assert forall|i: int|
            #![trigger loaded[i]]
            0 <= i < loaded.len() && loaded[i] is Some implies index.contains_key(ids[i]) by {
            if i < last {
                assert(rest[i] == loaded[i]);
            }
        }
        assert forall|i: int|
            #![trigger loaded[i]]
            0 <= i < loaded.len() && loaded[i] is Some && (forall|j: int|
                #![trigger loaded[j]]
                i < j < loaded.len() && ids[j] == ids[i] ==> loaded[j] is None) implies loaded[i]
            == Some(index[ids[i]]) by {
            if i < last {
                assert(rest[i] == loaded[i]);
                assert forall|j: int|
                    #![trigger rest[j]]
                    i < j < rest.len() && ids[j] == ids[i] implies rest[j] is None by {
                    assert(rest[j] == loaded[j]);
                }
                assert(loaded[last] == loaded.last());
            }
        }
    }
}

/// As long as the output has room, every result that has a row is handed over as
/// that row; once it has filled up nothing is. A row counts if the output had
/// room left behind it, and the first that leaves none fills it up for good.
pub proof fn law_a_full_output_is_offered_nothing(
    translation: &TranslateIds,
    external: Option<PrimaryId>,
    row: Option<PrimaryId>,
    pushing: &mut TranslateIds,
    available: bool,
    fresh: TranslateIds,
)
    requires
        call_ensures(TranslateIds::offer, (translation, external), row),
        old(pushing).count < usize::MAX,
        call_ensures(TranslateIds::pushed, (pushing, available), ()),
        call_ensures(TranslateIds::new, (), fresh),
    ensures
        !translation.full ==> row == external,
        translation.full ==> row is None,
        available ==> final(pushing).count == old(pushing).count + 1 && final(pushing).full == old(
            pushing).full,
        !available ==> final(pushing).count == old(pushing).count && final(pushing).full,
        fresh.count == 0,
        !fresh.full,
{
}

} // verus!
