//! Which nodes exist, and which record slot each of them owns.

use crate::record::Key;
use crate::record::PartitionId;
use crate::record::PrimaryId;
use crate::text::dec;
use crate::text::decimal;
use crate::text::glue;
use crate::text::glue_number;
use std::collections::BTreeMap;
use vstd::prelude::*;

verus! {

broadcast use {vstd::std_specs::btree::group_btree_axioms, vstd::laws_cmp::group_laws_cmp};

/// A node and the record slot it owns. A dead node keeps its record until it
/// is reaped, so the repair pass can still read its edges.
#[derive(Debug, Clone, Copy, PartialEq, Eq, Structural)]
pub enum Node {
    Live(u32),
    Dead(u32),
}

impl Node {
    /// The record slot of the node.
    pub open spec fn spec_slot(self) -> u32 {
        match self {
            Node::Live(slot) => slot,
            Node::Dead(slot) => slot,
        }
    }

    /// The record slot of the node.
    pub fn slot(self) -> (slot: u32)
        ensures
            slot == self.spec_slot(),
    {
        match self {
            Node::Live(slot) => slot,
            Node::Dead(slot) => slot,
        }
    }

    /// Whether the node is live.
    pub fn is_live(self) -> (live: bool)
        ensures
            live == (self is Live),
    {
        matches!(self, Node::Live(_))
    }
}

/// Why the store could not carry out a request.
#[derive(Debug, Clone, Copy, PartialEq, Eq, Structural)]
pub enum BackendError {
    /// Every record is owned by a node.
    Full { records: u32 },
    /// The node file has no record at this slot.
    NoRecord { slot: u32 },
}

impl BackendError {
    /// What the message says.
    pub open spec fn says(self) -> Seq<char> {
        match self {
            BackendError::Full { records } => "the node store is full at "@ + dec(records as nat)
                + " records"@,
            BackendError::NoRecord { slot } => "the node file has no record "@ + dec(slot as nat),
        }
    }

    /// The message of the error.
    pub fn message(&self) -> (text: String)
        ensures
            text@ == self.says(),
    {
        match *self {
            BackendError::Full { records } => glue_number(
                "the node store is full at ",
                records as u64,
                " records",
            ),
            BackendError::NoRecord { slot } => glue(
                "the node file has no record ",
                decimal(slot as u64).as_str(),
            ),
        }
    }
}

/// What a request to the store can fail with.
#[derive(Debug, Clone, Copy, PartialEq, Eq, Structural)]
pub enum StoreError {
    /// The node is not in the state that the request needs.
    Conflict,
    /// The store could not carry the request out.
    Backend(BackendError),
}

/// The slots that have been handed out, the ones given back, and how many there are.
#[verifier::ext_equal]
pub struct SlotsView {
    pub next: u32,
    pub free: Seq<u32>,
    pub cap: u32,
}

impl SlotsView {
    /// What was given back had been handed out, and is given back once.
    pub open spec fn wf(self) -> bool {
        &&& self.next <= self.cap
        &&& self.free.no_duplicates()
        &&& forall|i: int| 0 <= i < self.free.len() ==> #[trigger] self.free[i] < self.next
    }

    /// There is no slot to hand out.
    pub open spec fn exhausted(self) -> bool {
        self.free.len() == 0 && self.next == self.cap
    }

    /// The slot that is handed out next: the one given back last, or else the
    /// first that never was handed out.
    pub open spec fn upcoming(self) -> u32 {
        if self.free.len() > 0 {
            self.free.last()
        } else {
            self.next
        }
    }

    /// The slots once [`Self::upcoming`] is handed out.
    pub open spec fn taken(self) -> SlotsView {
        if self.free.len() > 0 {
            SlotsView { free: self.free.drop_last(), ..self }
        } else {
            SlotsView { next: (self.next + 1) as u32, ..self }
        }
    }

    /// The slots once `slot` is given back.
    pub open spec fn given(self, slot: u32) -> SlotsView {
        SlotsView { free: self.free.push(slot), ..self }
    }
}

/// Hands out record slots, reusing the ones reaped nodes gave back.
#[derive(Debug)]
pub struct Slots {
    pub next: u32,
    pub free: Vec<u32>,
    pub cap: u32,
}

impl View for Slots {
    type V = SlotsView;

    open spec fn view(&self) -> SlotsView {
        SlotsView { next: self.next, free: self.free@, cap: self.cap }
    }
}

impl Slots {
    /// `cap` slots, none of them handed out.
    pub fn new(cap: u32) -> (slots: Self)
        ensures
            slots@ == (SlotsView { next: 0, free: Seq::empty(), cap }),
            slots@.wf(),
    {
        Slots { next: 0, free: Vec::new(), cap }
    }

    /// Hand out a slot.
    pub fn take(&mut self) -> (taken: Result<u32, BackendError>)
        requires
            old(self).next <= old(self).cap,
        ensures
            match taken {
                Ok(slot) => {
                    &&& !old(self)@.exhausted()
                    &&& slot == old(self)@.upcoming()
                    &&& final(self)@ == old(self)@.taken()
                },
                Err(err) => {
                    &&& old(self)@.exhausted()
                    &&& err == (BackendError::Full { records: old(self).cap })
                    &&& final(self)@ == old(self)@
                },
            },
    {
        if let Some(slot) = self.free.pop() {
            return Ok(slot);
        }
        if self.next == self.cap {
            return Err(BackendError::Full { records: self.cap });
        }
        let slot: u32 = self.next;
        self.next = self.next + 1;
        Ok(slot)
    }

    /// Give a slot back.
    pub fn put(&mut self, slot: u32)
        ensures
            final(self)@ == old(self)@.given(slot),
    {
        self.free.push(slot);
    }
}

/// The nodes and the slots, as values.
#[verifier::ext_equal]
pub struct TableView {
    pub nodes: Map<Key, Node>,
    pub slots: SlotsView,
}

impl TableView {
    /// Each slot that was handed out is owned by one node or was given back,
    /// never both.
    pub open spec fn wf(self) -> bool {
        &&& self.slots.wf()
        &&& self.nodes.dom().finite()
        &&& self.nodes.len() + self.slots.free.len() == self.slots.next
        &&& forall|key: Key| #[trigger]
            self.nodes.contains_key(key) ==> self.nodes[key].spec_slot() < self.slots.next
                && !self.slots.free.contains(self.nodes[key].spec_slot())
        &&& forall|a: Key, b: Key|
            #![trigger self.nodes.contains_key(a), self.nodes.contains_key(b)]
            self.nodes.contains_key(a) && self.nodes.contains_key(b) && a != b
                ==> self.nodes[a].spec_slot() != self.nodes[b].spec_slot()
    }

    /// The node is there and live.
    pub open spec fn live(self, key: Key) -> bool {
        self.nodes.contains_key(key) && self.nodes[key] is Live
    }

    /// The node is there and dead.
    pub open spec fn dead(self, key: Key) -> bool {
        self.nodes.contains_key(key) && self.nodes[key] is Dead
    }

    /// What refuses a claim: the node is live already, or it is new and no
    /// slot is left.
    pub open spec fn refusal(self, key: Key) -> Option<StoreError> {
        if self.live(key) {
            Some(StoreError::Conflict)
        } else if !self.nodes.contains_key(key) && self.slots.exhausted() {
            Some(StoreError::Backend(BackendError::Full { records: self.slots.cap }))
        } else {
            None
        }
    }

    /// The slot that a claim gives the node: its own if it has one.
    pub open spec fn claimed_slot(self, key: Key) -> u32 {
        if self.nodes.contains_key(key) {
            self.nodes[key].spec_slot()
        } else {
            self.slots.upcoming()
        }
    }

    /// The table once `key` is claimed.
    pub open spec fn claimed(self, key: Key) -> TableView {
        TableView {
            nodes: self.nodes.insert(key, Node::Live(self.claimed_slot(key))),
            slots: if self.nodes.contains_key(key) {
                self.slots
            } else {
                self.slots.taken()
            },
        }
    }

    /// The table once `key` is dead.
    pub open spec fn buried(self, key: Key) -> TableView {
        TableView {
            nodes: self.nodes.insert(key, Node::Dead(self.nodes[key].spec_slot())),
            ..self
        }
    }

    /// The table once `key` is gone and its slot is given back.
    pub open spec fn reaped(self, key: Key) -> TableView {
        TableView {
            nodes: self.nodes.remove(key),
            slots: self.slots.given(self.nodes[key].spec_slot()),
        }
    }
}

/// What clearing a node came to.
#[derive(Debug, Clone, Copy, PartialEq, Eq, Structural)]
pub enum Cleared {
    /// The node was dead: it is gone, and its slot was given back.
    Reaped(u32),
    /// The node is live: the edges of its record are to be emptied.
    Live(u32),
    /// There is no such node.
    Absent,
}

/// Which nodes exist, and the slots that they do not own.
#[derive(Debug)]
pub struct NodeTable {
    pub nodes: BTreeMap<Key, Node>,
    pub slots: Slots,
}

impl View for NodeTable {
    type V = TableView;

    open spec fn view(&self) -> TableView {
        TableView { nodes: self.nodes@, slots: self.slots@ }
    }
}

impl NodeTable {
    /// No nodes, and `cap` slots for them.
    pub fn new(cap: u32) -> (table: Self)
        ensures
            table@ == (TableView {
                nodes: Map::empty(),
                slots: SlotsView { next: 0, free: Seq::empty(), cap },
            }),
            table@.wf(),
    {
        NodeTable { nodes: BTreeMap::new(), slots: Slots::new(cap) }
    }

    /// The node known by `key`.
    pub fn node(&self, key: Key) -> (node: Option<Node>)
        ensures
            node == (if self@.nodes.contains_key(key) {
                Some(self@.nodes[key])
            } else {
                None
            }),
    {
        match self.nodes.get(&key) {
            Some(node) => Some(*node),
            None => None,
        }
    }

    /// Whether there is a live node known by `key`.
    pub fn is_live(&self, key: Key) -> (live: bool)
        ensures
            live == self@.live(key),
    {
        match self.node(key) {
            Some(node) => node.is_live(),
            None => false,
        }
    }

    /// The slots of the nodes of one partition, `None` where there is no node.
    pub fn slots_of(&self, partition_id: PartitionId, ids: &[PrimaryId]) -> (slots: Vec<Option<u32>>)
        ensures
            slots@.len() == ids@.len(),
            forall|i: int|
                0 <= i < ids@.len() ==> #[trigger] slots@[i] == (if self@.nodes.contains_key(
                    (partition_id, ids@[i]),
                ) {
                    Some(self@.nodes[(partition_id, ids@[i])].spec_slot())
                } else {
                    None
                }),
    {
        let mut slots: Vec<Option<u32>> = Vec::new();
        let n: usize = ids.len();
        for i in 0..n
            invariant
                n == ids@.len(),
                slots@.len() == i,
                forall|j: int|
                    0 <= j < i ==> #[trigger] slots@[j] == (if self@.nodes.contains_key(
                        (partition_id, ids@[j]),
                    ) {
                        Some(self@.nodes[(partition_id, ids@[j])].spec_slot())
                    } else {
                        None
                    }),
        {
            let slot: Option<u32> = match self.node((partition_id, ids[i])) {
                Some(node) => Some(node.slot()),
                None => None,
            };
            slots.push(slot);
        }
        slots
    }

    /// Make `key` live. A dead node keeps the slot it had; a new one is given
    /// a slot.
    pub fn claim(&mut self, key: Key) -> (claimed: Result<u32, StoreError>)
        requires
            old(self).slots.next <= old(self).slots.cap,
        ensures
            match claimed {
                Ok(slot) => {
                    &&& old(self)@.refusal(key) is None
                    &&& slot == old(self)@.claimed_slot(key)
                    &&& final(self)@ == old(self)@.claimed(key)
                },
                Err(err) => {
                    &&& old(self)@.refusal(key) == Some(err)
                    &&& final(self)@ == old(self)@
                },
            },
            old(self)@.wf() ==> final(self)@.wf(),
    {
        proof {
            if self@.wf() && self@.refusal(key) is None {
                lemma_claimed_keeps_wf(self@, key);
            }
        }
        let slot: u32 = match self.node(key) {
            Some(node) => {
                if node.is_live() {
                    return Err(StoreError::Conflict);
                }
                node.slot()
            },
            None => match self.slots.take() {
                Ok(slot) => slot,
                Err(err) => {
                    return Err(StoreError::Backend(err));
                },
            },
        };
        self.nodes.insert(key, Node::Live(slot));
        Ok(slot)
    }

    /// Drop `key` and hand `slot` back for reuse.
    pub fn release(&mut self, key: Key, slot: u32)
        ensures
            final(self)@ == (if old(self)@.nodes.contains_key(key) {
                TableView {
                    nodes: old(self)@.nodes.remove(key),
                    slots: old(self)@.slots.given(slot),
                }
            } else {
                old(self)@
            }),
            old(self)@.wf() && (old(self)@.nodes.contains_key(key)
                ==> old(self)@.nodes[key].spec_slot() == slot) ==> final(self)@.wf(),
    {
        proof {
            if self@.wf() && self@.nodes.contains_key(key) {
                lemma_reaped_keeps_wf(self@, key);
            }
        }
        if self.nodes.remove(&key).is_some() {
            self.slots.put(slot);
        }
    }

    /// Mark a live node dead. It keeps its slot.
    pub fn mark_dead(&mut self, key: Key) -> (marked: Result<(), StoreError>)
        ensures
            match marked {
                Ok(_) => {
                    &&& old(self)@.live(key)
                    &&& final(self)@ == old(self)@.buried(key)
                },
                Err(err) => {
                    &&& !old(self)@.live(key)
                    &&& err == StoreError::Conflict
                    &&& final(self)@ == old(self)@
                },
            },
            old(self)@.wf() ==> final(self)@.wf(),
    {
        proof {
            if self@.wf() && self@.live(key) {
                lemma_buried_keeps_wf(self@, key);
            }
        }
        match self.node(key) {
            Some(node) => {
                if node.is_live() {
                    self.nodes.insert(key, Node::Dead(node.slot()));
                    return Ok(());
                }
            },
            None => {},
        }
        Err(StoreError::Conflict)
    }

    /// Reap `key` if it is dead, and give its slot back.
    pub fn clear(&mut self, key: Key) -> (cleared: Cleared)
        ensures
            match cleared {
                Cleared::Reaped(slot) => {
                    &&& old(self)@.dead(key)
                    &&& slot == old(self)@.nodes[key].spec_slot()
                    &&& final(self)@ == old(self)@.reaped(key)
                },
                Cleared::Live(slot) => {
                    &&& old(self)@.live(key)
                    &&& slot == old(self)@.nodes[key].spec_slot()
                    &&& final(self)@ == old(self)@
                },
                Cleared::Absent => {
                    &&& !old(self)@.nodes.contains_key(key)
                    &&& final(self)@ == old(self)@
                },
            },
            old(self)@.wf() ==> final(self)@.wf(),
    {
        proof {
            if self@.wf() && self@.dead(key) {
                lemma_reaped_keeps_wf(self@, key);
            }
        }
        match self.node(key) {
            Some(node) => {
                let slot: u32 = node.slot();
                if node.is_live() {
                    return Cleared::Live(slot);
                }
                self.nodes.remove(&key);
                self.slots.put(slot);
                Cleared::Reaped(slot)
            },
            None => Cleared::Absent,
        }
    }

    /// Take back the claim of a live node: it is gone, and its slot is given
    /// back. A dead node is left to be cleared.
    pub fn abandon(&mut self, key: Key)
        ensures
            final(self)@ == (if old(self)@.live(key) {
                old(self)@.reaped(key)
            } else {
                old(self)@
            }),
            old(self)@.wf() ==> final(self)@.wf(),
    {
        proof {
            if self@.wf() && self@.live(key) {
                lemma_reaped_keeps_wf(self@, key);
            }
        }
        match self.node(key) {
            Some(node) => {
                if node.is_live() {
                    self.nodes.remove(&key);
                    self.slots.put(node.slot());
                }
            },
            None => {},
        }
    }
}

/// A claim keeps the table in order.
pub proof fn lemma_claimed_keeps_wf(table: TableView, key: Key)
    requires
        table.wf(),
        table.refusal(key) is None,
    ensures
        table.claimed(key).wf(),
{
    let after = table.claimed(key);
    if !table.nodes.contains_key(key) && table.slots.free.len() > 0 {
        let free = table.slots.free;
        let slot = free.last();
        assert(free[free.len() - 1] == slot);
        assert forall|i: int| 0 <= i < free.drop_last().len() implies #[trigger] free.drop_last()[i]
            < table.slots.next by {
            assert(free.drop_last()[i] == free[i]);
        }
        assert(free.contains(slot));
        assert forall|other: u32| #[trigger] free.drop_last().contains(other) implies free.contains(
            other,
        ) by {
            let i = choose|i: int| 0 <= i < free.drop_last().len() && free.drop_last()[i] == other;
            assert(free[i] == other);
        }
    }
    assert forall|other: Key| #[trigger] after.nodes.contains_key(other) implies after.nodes[other]
        .spec_slot() < after.slots.next && !after.slots.free.contains(after.nodes[other].spec_slot())
        by {
        if other != key {
            assert(table.nodes.contains_key(other));
        }
    }
    assert forall|a: Key, b: Key|
        #![trigger after.nodes.contains_key(a), after.nodes.contains_key(b)]
        after.nodes.contains_key(a) && after.nodes.contains_key(b) && a != b implies after.nodes[a]
        .spec_slot() != after.nodes[b].spec_slot() by {
        if a != key {
            assert(table.nodes.contains_key(a));
        }
        if b != key {
            assert(table.nodes.contains_key(b));
        }
    }
}

/// Giving back the slot of a node that is dropped keeps the table in order.
pub proof fn lemma_reaped_keeps_wf(table: TableView, key: Key)
    requires
        table.wf(),
        table.nodes.contains_key(key),
    ensures
        table.reaped(key).wf(),
{
    let after = table.reaped(key);
    let slot = table.nodes[key].spec_slot();
    let free = table.slots.free;
    assert forall|i: int| 0 <= i < free.push(slot).len() implies #[trigger] free.push(slot)[i]
        < table.slots.next by {
        if i < free.len() {
            assert(free.push(slot)[i] == free[i]);
        }
    }
    assert forall|other: u32| #[trigger] free.push(slot).contains(other) implies other == slot
        || free.contains(other) by {
        let i = choose|i: int| 0 <= i < free.push(slot).len() && free.push(slot)[i] == other;
        if i < free.len() {
            assert(free[i] == other);
        }
    }
    assert forall|other: Key| #[trigger] after.nodes.contains_key(other) implies after.nodes[other]
        .spec_slot() < after.slots.next && !after.slots.free.contains(after.nodes[other].spec_slot())
        by {
        assert(table.nodes.contains_key(other) && other != key);
    }
    assert forall|a: Key, b: Key|
        #![trigger after.nodes.contains_key(a), after.nodes.contains_key(b)]
        after.nodes.contains_key(a) && after.nodes.contains_key(b) && a != b implies after.nodes[a]
        .spec_slot() != after.nodes[b].spec_slot() by {
        assert(table.nodes.contains_key(a) && table.nodes.contains_key(b));
    }
}

/// Marking a node dead keeps the table in order.
pub proof fn lemma_buried_keeps_wf(table: TableView, key: Key)
    requires
        table.wf(),
        table.live(key),
    ensures
        table.buried(key).wf(),
{
    let after = table.buried(key);
    assert forall|other: Key| #[trigger] after.nodes.contains_key(other) implies after.nodes[other]
        .spec_slot() < after.slots.next && !after.slots.free.contains(after.nodes[other].spec_slot())
        by {
        assert(table.nodes.contains_key(other));
    }
    assert forall|a: Key, b: Key|
        #![trigger after.nodes.contains_key(a), after.nodes.contains_key(b)]
        after.nodes.contains_key(a) && after.nodes.contains_key(b) && a != b implies after.nodes[a]
        .spec_slot() != after.nodes[b].spec_slot() by {
        assert(table.nodes.contains_key(a) && table.nodes.contains_key(b));
    }
    assert(after.nodes.dom() =~= table.nodes.dom());
}

/// A store holds no more nodes than it has slots, dead ones included, and a
/// new node is refused exactly when it holds that many.
pub proof fn law_a_store_is_full_when_every_slot_is_owned(table: TableView, key: Key)
    requires
        table.wf(),
    ensures
        table.nodes.len() <= table.slots.cap,
        !table.nodes.contains_key(key) ==> (table.refusal(key) is Some <==> table.nodes.len()
            == table.slots.cap),
{
}

/// Reaping a dead node lets the next new one in, and hands it the slot.
pub proof fn law_reaping_lets_the_next_node_in(table: TableView, dead: Key, new: Key)
    requires
        table.wf(),
        table.dead(dead),
        !table.nodes.contains_key(new),
    ensures
        table.reaped(dead).refusal(new) is None,
        table.reaped(dead).claimed_slot(new) == table.nodes[dead].spec_slot(),
{
}

/// A dead node that is claimed again is live on the slot it had, and no other
/// node changes.
pub proof fn law_a_revived_node_keeps_its_slot(table: TableView, key: Key, other: Key)
    requires
        table.wf(),
        table.dead(key),
        other != key,
    ensures
        table.refusal(key) is None,
        table.claimed(key).live(key),
        table.claimed(key).nodes[key].spec_slot() == table.nodes[key].spec_slot(),
        table.claimed(key).slots == table.slots,
        table.claimed(key).nodes.contains_key(other) == table.nodes.contains_key(other),
        table.nodes.contains_key(other) ==> table.claimed(key).nodes[other] == table.nodes[other],
{
}

/// Two nodes never own one slot, and a slot that a node owns is not free.
pub proof fn law_two_nodes_never_share_a_slot(table: TableView, a: Key, b: Key)
    requires
        table.wf(),
        table.nodes.contains_key(a),
        table.nodes.contains_key(b),
        a != b,
    ensures
        table.nodes[a].spec_slot() != table.nodes[b].spec_slot(),
        !table.slots.free.contains(table.nodes[a].spec_slot()),
{
}

/// Of two claims of one node without anything between them, one is refused.
pub proof fn law_two_claims_cannot_both_win(table: TableView, key: Key)
    requires
        table.wf(),
        table.refusal(key) is None,
    ensures
        table.claimed(key).refusal(key) == Some(StoreError::Conflict),
{
}

/// Taking a claim back leaves the nodes as they were, and the slot is the next
/// to be handed out, as it was before.
pub proof fn law_abandoning_undoes_a_claim(table: TableView, key: Key)
    requires
        table.wf(),
        !table.nodes.contains_key(key),
        table.refusal(key) is None,
    ensures
        table.claimed(key).live(key),
        table.claimed(key).reaped(key).nodes == table.nodes,
        !table.claimed(key).reaped(key).slots.exhausted(),
        table.claimed(key).reaped(key).slots.upcoming() == table.slots.upcoming(),
        table.slots.free.len() > 0 ==> table.claimed(key).reaped(key) == table,
{
    let after = table.claimed(key).reaped(key);
    assert(after.nodes =~= table.nodes);
    if table.slots.free.len() > 0 {
        assert(after.slots.free =~= table.slots.free);
    }
}

/// A node of either kind is made of its slot, and gives it back.
pub proof fn law_a_node_gives_back_its_slot(slot: u32, of_live: u32, of_dead: u32, live: bool, dead: bool)
    requires
        call_ensures(Node::slot, (Node::Live(slot),), of_live),
        call_ensures(Node::slot, (Node::Dead(slot),), of_dead),
        call_ensures(Node::is_live, (Node::Live(slot),), live),
        call_ensures(Node::is_live, (Node::Dead(slot),), dead),
    ensures
        of_live == slot,
        of_dead == slot,
        live,
        !dead,
{
}

/// A slot that is handed out is the one given back last, which is then no longer
/// free, or else the first that never was handed out, which then has been. There
/// is none exactly when none was given back and all were handed out, and nothing
/// changes then.
pub proof fn law_the_slot_given_back_last_is_handed_out_first(
    slots: &mut Slots,
    taken: Result<u32, BackendError>,
)
    requires
        old(slots).next <= old(slots).cap,
        call_ensures(Slots::take, (slots,), taken),
    ensures
        final(slots).cap == old(slots).cap,
        taken is Err <==> old(slots).free@.len() == 0 && old(slots).next == old(slots).cap,
        match taken {
            Ok(slot) => if old(slots).free@.len() > 0 {
                &&& old(slots).free@ == final(slots).free@.push(slot)
                &&& final(slots).next == old(slots).next
            } else {
                &&& slot == old(slots).next
                &&& final(slots).next == slot + 1
                &&& final(slots).free@.len() == 0
            },
            Err(err) => {
                &&& err == (BackendError::Full { records: old(slots).cap })
                &&& final(slots).next == old(slots).next
                &&& final(slots).free@ == old(slots).free@
            },
        },
{
    let free = old(slots).free@;
    if free.len() > 0 {
        assert(free =~= free.drop_last().push(free.last()));
    }
}

/// A slot that was given back is the next to be handed out, and the slots are
/// then as they were before.
pub proof fn law_a_slot_given_back_is_handed_out_next(
    slots: &mut Slots,
    slot: u32,
    then: &mut Slots,
    taken: Result<u32, BackendError>,
)
    requires
        call_ensures(Slots::put, (slots, slot), ()),
        *final(slots) == *old(then),
        call_ensures(Slots::take, (then,), taken),
    ensures
        taken == Ok::<u32, BackendError>(slot),
        final(then).next == old(slots).next,
        final(then).free@ == old(slots).free@,
        final(then).cap == old(slots).cap,
{
    assert(old(slots).free@.push(slot).drop_last() =~= old(slots).free@);
}

/// Giving a slot back appends it to the free ones and changes nothing else.
pub proof fn law_giving_a_slot_back_frees_it_and_no_other(slots: &mut Slots, slot: u32)
    requires
        call_ensures(Slots::put, (slots, slot), ()),
    ensures
        final(slots).free@ == old(slots).free@.push(slot),
        final(slots).next == old(slots).next,
        final(slots).cap == old(slots).cap,
{
}

/// A new table has no node, and none of its slots was handed out.
pub proof fn law_a_new_table_is_empty(cap: u32, table: NodeTable, key: Key)
    requires
        call_ensures(NodeTable::new, (cap,), table),
    ensures
        !table.nodes@.contains_key(key),
        table.slots.next == 0,
        table.slots.free@.len() == 0,
        table.slots.cap == cap,
{
}

/// A lookup finds the node of that key and no other; it is live exactly if it was
/// not marked dead.
pub proof fn law_a_lookup_finds_the_node_of_its_key(
    table: &NodeTable,
    key: Key,
    node: Option<Node>,
    live: bool,
)
    requires
        call_ensures(NodeTable::node, (table, key), node),
        call_ensures(NodeTable::is_live, (table, key), live),
    ensures
        node is Some <==> table.nodes@.contains_key(key),
        table.nodes@.contains_key(key) ==> node == Some(table.nodes@[key]),
        live <==> table.nodes@.contains_key(key) && (table.nodes@[key] matches Node::Live(_)),
{
}

/// The slots of many nodes are those of each of them, at the same places.
pub proof fn law_slots_are_looked_up_place_by_place(
    table: &NodeTable,
    partition_id: PartitionId,
    ids: &[PrimaryId],
    slots: Vec<Option<u32>>,
    i: int,
)
    requires
        call_ensures(NodeTable::slots_of, (table, partition_id, ids), slots),
        0 <= i < ids@.len(),
    ensures
        slots@.len() == ids@.len(),
        match slots@[i] {
            Some(slot) => {
                &&& table.nodes@.contains_key((partition_id, ids@[i]))
                &&& table.nodes@[(partition_id, ids@[i])] == Node::Live(slot) || table.nodes@[(
                    partition_id,
                    ids@[i],
                )] == Node::Dead(slot)
            },
            None => !table.nodes@.contains_key((partition_id, ids@[i])),
        },
{
    assert(slots@[i] == slots@[i]);
}

/// Marking a node dead changes that node and nothing else: it keeps its slot,
/// every other node stays what it was, live or dead, on the slot that it had, and
/// the same slots are free. Only a live node can be marked; nothing changes where
/// there is none.
pub proof fn law_marking_a_node_dead_changes_no_other(
    table: &mut NodeTable,
    key: Key,
    marked: Result<(), StoreError>,
    other: Key,
)
    requires
        call_ensures(NodeTable::mark_dead, (table, key), marked),
        other != key,
    ensures
        marked is Ok <==> old(table).nodes@.contains_key(key) && (old(table).nodes@[key] matches Node::Live(_)),
        marked is Err ==> marked == Err::<(), StoreError>(StoreError::Conflict) && final(table).nodes@ == old(table).nodes@,
        marked is Ok ==> final(table).nodes@.contains_key(key) && (
        old(table).nodes@[key] matches Node::Live(slot) && final(table).nodes@[key] == Node::Dead(
            slot,
        )),
        final(table).nodes@.contains_key(other) == old(table).nodes@.contains_key(other),
        old(table).nodes@.contains_key(other) ==> final(table).nodes@[other] == old(table).nodes@[other],
        final(table).slots.free@ == old(table).slots.free@,
        final(table).slots.next == old(table).slots.next,
        final(table).slots.cap == old(table).slots.cap,
{
}

/// A claim makes its node live and changes no other. A dead node keeps the slot
/// that it had, and no slot is handed out; a new one is given the slot that was
/// given back last, or else the first that never was handed out. A node that is
/// live is refused, and so is a new one when no slot is left; nothing changes then.
pub proof fn law_a_claim_changes_one_node(
    table: &mut NodeTable,
    key: Key,
    claimed: Result<u32, StoreError>,
    other: Key,
)
    requires
        old(table).slots.next <= old(table).slots.cap,
        call_ensures(NodeTable::claim, (table, key), claimed),
        other != key,
    ensures
        match claimed {
            Ok(slot) => {
                &&& final(table).nodes@.contains_key(key)
                &&& final(table).nodes@[key] == Node::Live(slot)
                &&& if old(table).nodes@.contains_key(key) {
                    &&& old(table).nodes@[key] == Node::Dead(slot)
                    &&& final(table).slots.free@ == old(table).slots.free@
                    &&& final(table).slots.next == old(table).slots.next
                } else if old(table).slots.free@.len() > 0 {
                    &&& old(table).slots.free@ == final(table).slots.free@.push(slot)
                    &&& final(table).slots.next == old(table).slots.next
                } else {
                    &&& slot == old(table).slots.next
                    &&& slot < old(table).slots.cap
                    &&& final(table).slots.next == slot + 1
                    &&& final(table).slots.free@.len() == 0
                }
            },
            Err(err) => {
                &&& final(table).nodes@ == old(table).nodes@
                &&& final(table).slots.free@ == old(table).slots.free@
                &&& final(table).slots.next == old(table).slots.next
                &&& if old(table).nodes@.contains_key(key) {
                    &&& old(table).nodes@[key] matches Node::Live(_)
                    &&& err == StoreError::Conflict
                } else {
                    &&& old(table).slots.free@.len() == 0
                    &&& old(table).slots.next == old(table).slots.cap
                    &&& err == StoreError::Backend(
                        BackendError::Full { records: old(table).slots.cap },
                    )
                }
            },
        },
        final(table).slots.cap == old(table).slots.cap,
        final(table).nodes@.contains_key(other) == old(table).nodes@.contains_key(other),
        old(table).nodes@.contains_key(other) ==> final(table).nodes@[other] == old(table).nodes@[other],
{
    let free = old(table).slots.free@;
    if free.len() > 0 {
        assert(free =~= free.drop_last().push(free.last()));
    }
}

/// The slot of a node that was claimed is no other node's, and was no other's
/// before.
pub proof fn law_a_claimed_slot_is_no_other_nodes(
    table: &mut NodeTable,
    key: Key,
    claimed: Result<u32, StoreError>,
    other: Key,
)
    requires
        old(table)@.wf(),
        call_ensures(NodeTable::claim, (table, key), claimed),
        other != key,
        old(table).nodes@.contains_key(other),
    ensures
        claimed matches Ok(slot) ==> {
            &&& old(table).nodes@[other] != Node::Live(slot)
            &&& old(table).nodes@[other] != Node::Dead(slot)
            &&& !final(table).slots.free@.contains(slot)
            &&& slot < old(table).slots.cap
        },
{
    if claimed is Ok {
        assert(final(table)@.wf());
        assert(final(table)@.nodes.contains_key(key) && final(table)@.nodes.contains_key(other));
    }
}

/// Clearing reaps a dead node: it is gone, and its slot is free. A live node
/// stays, and so does every other; nothing changes where there is no node.
pub proof fn law_clearing_reaps_a_dead_node_only(
    table: &mut NodeTable,
    key: Key,
    cleared: Cleared,
    other: Key,
)
    requires
        call_ensures(NodeTable::clear, (table, key), cleared),
        other != key,
    ensures
        match cleared {
            Cleared::Reaped(slot) => {
                &&& old(table).nodes@.contains_key(key)
                &&& old(table).nodes@[key] == Node::Dead(slot)
                &&& !final(table).nodes@.contains_key(key)
                &&& final(table).slots.free@ == old(table).slots.free@.push(slot)
            },
            Cleared::Live(slot) => {
                &&& old(table).nodes@.contains_key(key)
                &&& old(table).nodes@[key] == Node::Live(slot)
                &&& final(table).nodes@ == old(table).nodes@
                &&& final(table).slots.free@ == old(table).slots.free@
            },
            Cleared::Absent => {
                &&& !old(table).nodes@.contains_key(key)
                &&& final(table).nodes@ == old(table).nodes@
                &&& final(table).slots.free@ == old(table).slots.free@
            },
        },
        final(table).slots.next == old(table).slots.next,
        final(table).slots.cap == old(table).slots.cap,
        final(table).nodes@.contains_key(other) == old(table).nodes@.contains_key(other),
        old(table).nodes@.contains_key(other) ==> final(table).nodes@[other] == old(table).nodes@[other],
{
}

/// Abandoning takes a live node away and frees its slot. A dead node stays, and
/// so does every other.
pub proof fn law_abandoning_takes_a_live_node_only(table: &mut NodeTable, key: Key, other: Key)
    requires
        call_ensures(NodeTable::abandon, (table, key), ()),
        other != key,
    ensures
        if old(table).nodes@.contains_key(key) && (old(table).nodes@[key] matches Node::Live(_)) {
            &&& old(table).nodes@[key] matches Node::Live(slot)
            &&& !final(table).nodes@.contains_key(key)
            &&& final(table).slots.free@ == old(table).slots.free@.push(slot)
        } else {
            &&& final(table).nodes@ == old(table).nodes@
            &&& final(table).slots.free@ == old(table).slots.free@
        },
        final(table).slots.next == old(table).slots.next,
        final(table).slots.cap == old(table).slots.cap,
        final(table).nodes@.contains_key(other) == old(table).nodes@.contains_key(other),
        old(table).nodes@.contains_key(other) ==> final(table).nodes@[other] == old(table).nodes@[other],
{
}

/// Releasing takes a node away and frees the slot that is handed back with it.
/// Every other node stays, and nothing changes where there is no node.
pub proof fn law_releasing_takes_one_node(table: &mut NodeTable, key: Key, slot: u32, other: Key)
    requires
        call_ensures(NodeTable::release, (table, key, slot), ()),
        other != key,
    ensures
        !final(table).nodes@.contains_key(key),
        final(table).slots.free@ == (if old(table).nodes@.contains_key(key) {
            old(table).slots.free@.push(slot)
        } else {
            old(table).slots.free@
        }),
        final(table).slots.next == old(table).slots.next,
        final(table).slots.cap == old(table).slots.cap,
        final(table).nodes@.contains_key(other) == old(table).nodes@.contains_key(other),
        old(table).nodes@.contains_key(other) ==> final(table).nodes@[other] == old(table).nodes@[other],
{
}

/// A node that was marked dead and then cleared is gone, its slot is free, and
/// the next new node is given that slot. No other node notices.
pub proof fn law_a_reaped_slot_goes_to_the_next_new_node(
    marking: &mut NodeTable,
    key: Key,
    clearing: &mut NodeTable,
    cleared: Cleared,
    claiming: &mut NodeTable,
    new: Key,
    claimed: Result<u32, StoreError>,
    other: Key,
)
    requires
        call_ensures(NodeTable::mark_dead, (marking, key), Ok::<(), StoreError>(())),
        *old(clearing) == *final(marking),
        call_ensures(NodeTable::clear, (clearing, key), cleared),
        *old(claiming) == *final(clearing),
        call_ensures(NodeTable::claim, (claiming, new), claimed),
        new == key || !old(marking).nodes@.contains_key(new),
        other != key,
        other != new,
    ensures
        old(marking).nodes@[key] matches Node::Live(slot) && cleared == Cleared::Reaped(slot)
            && claimed == Ok::<u32, StoreError>(slot) && final(claiming).nodes@[new] == Node::Live(
            slot,
        ),
        final(claiming).slots.free@ == old(marking).slots.free@,
        final(claiming).nodes@.contains_key(other) == old(marking).nodes@.contains_key(other),
        old(marking).nodes@.contains_key(other) ==> final(claiming).nodes@[other] == old(marking).nodes@[other],
{
    let slot = old(marking).nodes@[key].spec_slot();
    assert(old(marking).slots.free@.push(slot).drop_last() =~= old(marking).slots.free@);
}

/// A message says which of the two it is, with its number in decimal.
pub proof fn law_a_message_names_the_records_or_the_slot(
    err: BackendError,
    n: u64,
    number: String,
    text: String,
)
    requires
        call_ensures(BackendError::message, (&err,), text),
        n == (match err {
            BackendError::Full { records } => records as u64,
            BackendError::NoRecord { slot } => slot as u64,
        }),
        call_ensures(decimal, (n,), number),
    ensures
        match err {
            BackendError::Full { .. } => text@ == "the node store is full at "@ + number@
                + " records"@,
            BackendError::NoRecord { .. } => text@ == "the node file has no record "@ + number@,
        },
{
}

} // verus!
