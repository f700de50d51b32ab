//! What holds of a store whatever the order in which its users take turns.
//!
//! A request takes the lock of the node map and the lock of a record in turn,
//! so others come between. A slot that was looked up can belong to another node
//! by the time its record is reached.

use crate::nodes::lemma_buried_keeps_wf;
use crate::nodes::lemma_claimed_keeps_wf;
use crate::nodes::lemma_reaped_keeps_wf;
use crate::record::Key;
use crate::record::PrimaryId;
use crate::store::StoreView;
use vstd::prelude::*;

verus! {

/// One turn: what happens under one lock. A slot is what a user remembers, and
/// may have changed hands since.
pub enum Turn {
    /// A node is claimed.
    Claim { key: Key },
    /// A live node is marked dead.
    Bury { key: Key },
    /// A node goes, and its slot is given back.
    Reap { key: Key },
    /// A record is given a name and loses its edges.
    Name { key: Key, slot: int },
    /// Edges are stored under a name.
    StoreEdges { key: Key, slot: int, edges: Seq<PrimaryId> },
    /// A vector is stored under a name.
    StoreVector { key: Key, slot: int, vector: Seq<u32> },
}

impl StoreView {
    /// What holds at any time: every slot that was handed out has one owner or
    /// is free, and no edge is stored twice.
    pub open spec fn sound(self) -> bool {
        &&& self.table.wf()
        &&& self.table.slots.cap == self.records.len()
        &&& forall|i: int|
            0 <= i < self.records.len() ==> (#[trigger] self.records[i]).edges.no_duplicates()
    }

    /// The store after a turn.
    pub open spec fn after(self, turn: Turn) -> StoreView {
        match turn {
            Turn::Claim { key } => if self.table.refusal(key) is None {
                StoreView { table: self.table.claimed(key), ..self }
            } else {
                self
            },
            Turn::Bury { key } => if self.table.live(key) {
                StoreView { table: self.table.buried(key), ..self }
            } else {
                self
            },
            Turn::Reap { key } => if self.table.nodes.contains_key(key) {
                StoreView { table: self.table.reaped(key), ..self }
            } else {
                self
            },
            Turn::Name { key, slot } => StoreView {
                records: self.records.update(
                    slot,
                    self.records[slot].named(key),
                ),
                ..self
            },
            Turn::StoreEdges { key, slot, edges } => if self.records[slot].owner == key {
                StoreView {
                    records: self.records.update(
                        slot,
                        self.records[slot].with_edges(edges),
                    ),
                    ..self
                }
            } else {
                self
            },
            Turn::StoreVector { key, slot, vector } => if self.records[slot].owner == key {
                StoreView {
                    records: self.records.update(
                        slot,
                        self.records[slot].with_vector(vector),
                    ),
                    ..self
                }
            } else {
                self
            },
        }
    }

    /// The store after turns, one after another.
    pub open spec fn after_all(self, turns: Seq<Turn>) -> StoreView
        decreases turns.len(),
    {
        if turns.len() == 0 {
            self
        } else {
            self.after_all(turns.drop_last()).after(turns.last())
        }
    }
}

impl Turn {
    /// The turn reaches a record that is there, and repeats no edge.
    pub open spec fn fits(self, records: nat) -> bool {
        match self {
            Turn::Name { slot, .. } => 0 <= slot < records,
            Turn::StoreEdges { slot, edges, .. } => 0 <= slot < records && edges.no_duplicates(),
            Turn::StoreVector { slot, .. } => 0 <= slot < records,
            _ => true,
        }
    }
}

/// Whatever the turns and their order, and however old the slots that they
/// remember: no two nodes come to own one slot, no slot is lost, and no edge is
/// stored twice.
pub proof fn law_turns_keep_a_store_sound(store: StoreView, turns: Seq<Turn>)
    requires
        store.sound(),
        forall|i: int| 0 <= i < turns.len() ==> (#[trigger] turns[i]).fits(store.records.len()),
    ensures
        store.after_all(turns).sound(),
        store.after_all(turns).records.len() == store.records.len(),
    decreases turns.len(),
{
    if turns.len() > 0 {
        let rest = turns.drop_last();
        assert forall|i: int| 0 <= i < rest.len() implies (#[trigger] rest[i]).fits(
            store.records.len(),
        ) by {
            assert(rest[i] == turns[i]);
        }
        law_turns_keep_a_store_sound(store, rest);
        assert(turns[turns.len() - 1].fits(store.records.len()));
        lemma_turn_keeps_sound(store.after_all(rest), turns.last());
    }
}

/// One turn keeps a store sound.
proof fn lemma_turn_keeps_sound(store: StoreView, turn: Turn)
    requires
        store.sound(),
        turn.fits(store.records.len()),
    ensures
        store.after(turn).sound(),
        store.after(turn).records.len() == store.records.len(),
{
    match turn {
        Turn::Claim { key } => {
            if store.table.refusal(key) is None {
                lemma_claimed_keeps_wf(store.table, key);
            }
        },
        Turn::Bury { key } => {
            if store.table.live(key) {
                lemma_buried_keeps_wf(store.table, key);
            }
        },
        Turn::Reap { key } => {
            if store.table.nodes.contains_key(key) {
                lemma_reaped_keeps_wf(store.table, key);
            }
        },
        _ => {
            let after = store.after(turn);
            assert forall|i: int| 0 <= i < after.records.len() implies (
            #[trigger] after.records[i]).edges.no_duplicates() by {
                assert(store.records[i].edges.no_duplicates());
            }
        },
    }
}

/// A store under a name reaches records of that name only: one who remembers a
/// slot that was handed on leaves the new owner's edges and vector alone, and
/// no name changes but by naming.
pub proof fn law_a_store_reaches_records_of_its_name_only(store: StoreView, turn: Turn, i: int)
    requires
        turn.fits(store.records.len()),
        0 <= i < store.records.len(),
        turn is StoreEdges || turn is StoreVector,
    ensures
        store.after(turn).records[i].owner == store.records[i].owner,
        store.records[i].owner != (match turn {
            Turn::StoreEdges { key, .. } => key,
            Turn::StoreVector { key, .. } => key,
            _ => store.records[i].owner,
        }) ==> store.after(turn).records[i] == store.records[i],
        store.after(turn).table == store.table,
{
}

} // verus!
