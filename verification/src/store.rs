//! A store that keeps the vectors and the graph in one local file.
//!
//! The map that says which ids exist carries the record each one owns, and the
//! record names its owner. The file is sized once, to one record per point the
//! index may hold.

use crate::adjacency::extended;
use crate::adjacency::fit_edges;
use crate::adjacency::goes_on_with;
use crate::adjacency::law_extending_is_a_union;
use crate::adjacency::law_extending_twice_is_extending_once;
use crate::adjacency::law_extending_with_known_ids_changes_nothing;
use crate::adjacency::law_extending_with_new_ids_appends_them;
use crate::adjacency::listed;
use crate::adjacency::new_list;
use crate::adjacency::shortened;
use crate::codec::le_value;
use crate::layout::record_len;
use crate::layout::Layout;
use crate::mapping::law_replacing_a_record_touches_no_other;
use crate::mapping::lemma_slot_in_file;
use crate::mapping::Mapping;
use crate::node_record;
use crate::node_record::fitted;
use crate::node_record::is_sound;
use crate::node_record::lemma_appended;
use crate::node_record::lemma_kept_of_shortened;
use crate::node_record::record_view;
use crate::node_record::RecordView;
use crate::nodes::BackendError;
use crate::nodes::Cleared;
use crate::nodes::lemma_claimed_keeps_wf;
use crate::nodes::lemma_reaped_keeps_wf;
use crate::nodes::Node;
use crate::nodes::NodeTable;
use crate::nodes::SlotsView;
use crate::nodes::StoreError;
use crate::nodes::TableView;
use crate::record::header_in;
use crate::record::kept;
use crate::record::Key;
use crate::record::PartitionId;
use crate::record::PrimaryId;
use crate::text::dec;
use crate::text::decimal;
use crate::text::glue;
use crate::text::glue_number;
use diskann::graph::AdjacencyList;
use vstd::prelude::*;

verus! {

/// Why a store cannot be opened.
#[derive(Debug, Clone, Copy, PartialEq, Eq, Structural)]
pub enum OpenError {
    /// The dimension or the maximum degree is zero.
    EmptyShape,
    /// There are more records than a slot can number.
    TooManyRecords,
}

impl OpenError {
    /// What the message says.
    pub open spec fn says(self) -> Seq<char> {
        match self {
            OpenError::EmptyShape => "a node store needs a non-zero dimension and max degree"@,
            OpenError::TooManyRecords => "a node store holds at most 2^32 records"@,
        }
    }

    /// The message of the error.
    pub fn message(&self) -> (text: &'static str)
        ensures
            text@ == self.says(),
    {
        match *self {
            OpenError::EmptyShape => "a node store needs a non-zero dimension and max degree",
            OpenError::TooManyRecords => "a node store holds at most 2^32 records",
        }
    }
}

/// Why a vector was not stored.
#[derive(Debug, Clone, Copy, PartialEq, Eq, Structural)]
pub enum PutError {
    /// The vector is not of the store's dimension.
    Dimensions { got: usize, expected: usize },
    /// There is no such node.
    NotANode,
    /// The record belongs to another node by now.
    HandedOn,
}

impl PutError {
    /// What the message says of a node whose id is written as `id`.
    pub open spec fn says(self, id: Seq<char>) -> Seq<char> {
        match self {
            PutError::Dimensions { got, expected } => "put: "@ + id + " has "@ + dec(got as nat)
                + " dimensions, the store holds "@ + dec(expected as nat),
            PutError::NotANode => "put: "@ + id + " is not a node"@,
            PutError::HandedOn => "put: the record of "@ + id + " was handed to another node"@,
        }
    }

    /// The message of the error, for a node whose id is written as `id`.
    pub fn message(&self, id: &str) -> (text: String)
        ensures
            text@ == self.says(id@),
    {
        match *self {
            PutError::Dimensions { got, expected } => {
                let head = glue(glue("put: ", id).as_str(), " has ");
                let head = glue_number(
                    head.as_str(),
                    got as u64,
                    " dimensions, the store holds ",
                );
                glue(head.as_str(), decimal(expected as u64).as_str())
            },
            PutError::NotANode => glue(glue("put: ", id).as_str(), " is not a node"),
            PutError::HandedOn => glue(
                glue("put: the record of ", id).as_str(),
                " was handed to another node",
            ),
        }
    }
}

/// The nodes of a store and what its records hold.
#[verifier::ext_equal]
pub struct StoreView {
    pub table: TableView,
    pub records: Seq<RecordView>,
}

impl StoreView {
    /// The record of a node.
    pub open spec fn record_of(self, key: Key) -> RecordView {
        self.records[self.table.nodes[key].spec_slot() as int]
    }

    /// The edges of a node, if there is such a node.
    pub open spec fn edges_of(self, key: Key) -> Option<Seq<PrimaryId>> {
        if self.table.nodes.contains_key(key) {
            Some(self.record_of(key).edges)
        } else {
            None
        }
    }

    /// The vector of a node, if there is such a node.
    pub open spec fn vector_of(self, key: Key) -> Option<Seq<u32>> {
        if self.table.nodes.contains_key(key) {
            Some(self.record_of(key).vector)
        } else {
            None
        }
    }

    /// The store once the record of a node holds `record`.
    pub open spec fn rewritten(self, key: Key, record: RecordView) -> StoreView {
        StoreView {
            records: self.records.update(self.table.nodes[key].spec_slot() as int, record),
            ..self
        }
    }

    /// The store once `key` is created: live, its name on its record, no edges.
    pub open spec fn created(self, key: Key) -> StoreView {
        let claimed = StoreView { table: self.table.claimed(key), ..self };
        claimed.rewritten(key, claimed.record_of(key).named(key))
    }

    /// The store once a node has these edges.
    pub open spec fn with_edges(self, key: Key, edges: Seq<PrimaryId>) -> StoreView {
        self.rewritten(key, self.record_of(key).with_edges(edges))
    }

    /// The store once a node has this vector.
    pub open spec fn with_vector(self, key: Key, vector: Seq<u32>) -> StoreView {
        self.rewritten(key, self.record_of(key).with_vector(vector))
    }

    /// Every node owns a record of its own, which bears its name.
    pub open spec fn wf(self) -> bool {
        &&& self.table.wf()
        &&& self.table.slots.cap == self.records.len()
        &&& forall|i: int|
            0 <= i < self.records.len() ==> (#[trigger] self.records[i]).edges.no_duplicates()
        &&& forall|key: Key| #[trigger]
            self.table.nodes.contains_key(key) ==> self.record_of(key).owner == key
    }
}

/// What the records of a file hold.
pub open spec fn records_in(mapping: Mapping, file: Seq<u8>) -> Seq<RecordView> {
    Seq::new(
        mapping.records as nat,
        |i: int| record_view(mapping.layout, mapping.slot_bytes(file, i)),
    )
}

/// A store of nodes over the bytes of one local file.
#[derive(Debug)]
pub struct DiskNodeStore {
    pub mapping: Mapping,
    pub table: NodeTable,
}

impl DiskNodeStore {
    /// The nodes and what the records of `file` hold.
    pub open spec fn state(self, file: Seq<u8>) -> StoreView {
        StoreView { table: self.table@, records: records_in(self.mapping, file) }
    }

    /// The file is the store's, and every node owns a record of its own in it.
    pub open spec fn wf(self, file: Seq<u8>) -> bool {
        self.mapping.is_file(file) && self.state(file).wf()
    }

    /// A store for vectors of `dim` components, up to `max_degree` edges each
    /// and up to `max_points` nodes. Its file is to be all zeros.
    pub fn open(dim: usize, max_degree: usize, max_points: usize) -> (opened: Result<
        Self,
        OpenError,
    >)
        requires
            dim != 0 && max_degree != 0 && max_points <= u32::MAX ==> {
                &&& record_len(dim as nat, max_degree as nat) <= isize::MAX
                &&& max_points * record_len(dim as nat, max_degree as nat) <= isize::MAX
            },
        ensures
            match opened {
                Ok(store) => {
                    &&& dim != 0 && max_degree != 0 && max_points <= u32::MAX
                    &&& store.mapping.layout.dim == dim
                    &&& store.mapping.layout.max_degree == max_degree
                    &&& store.mapping.records == max_points
                    &&& store.mapping.wf()
                    &&& store.table@ == (TableView {
                        nodes: Map::empty(),
                        slots: SlotsView { next: 0, free: Seq::empty(), cap: max_points as u32 },
                    })
                    &&& forall|file: Seq<u8>|
                        store.mapping.is_file(file) && all_zero(file) ==> #[trigger] store.wf(file)
                },
                Err(OpenError::EmptyShape) => dim == 0 || max_degree == 0,
                Err(OpenError::TooManyRecords) => dim != 0 && max_degree != 0 && max_points
                    > u32::MAX,
            },
    {
        if dim == 0 || max_degree == 0 {
            return Err(OpenError::EmptyShape);
        }
        if max_points as u64 > u32::MAX as u64 {
            return Err(OpenError::TooManyRecords);
        }
        let layout: Layout = Layout::new(dim, max_degree);
        let store = DiskNodeStore {
            mapping: Mapping { layout, records: max_points },
            table: NodeTable::new(max_points as u32),
        };
        proof {
            assert forall|file: Seq<u8>|
                store.mapping.is_file(file) && all_zero(file) implies #[trigger] store.wf(file) by {
                lemma_fresh_records(store.mapping, file);
            }
        }
        Ok(store)
    }

    /// Whether there is a live node known by `key`.
    pub fn is_live(&self, key: Key) -> (live: bool)
        ensures
            live == self.table@.live(key),
    {
        self.table.is_live(key)
    }

    /// Create a node without edges. A dead one comes back on its own record.
    pub fn create(&mut self, file: &mut [u8], key: Key) -> (created: Result<(), StoreError>)
        requires
            old(self).wf(old(file)@),
        ensures
            final(self).wf(final(file)@),
            final(self).mapping == old(self).mapping,
            match created {
                Ok(_) => {
                    &&& old(self).table@.refusal(key) is None
                    &&& final(self).state(final(file)@) == old(self).state(old(file)@).created(key)
                },
                Err(err) => {
                    &&& old(self).table@.refusal(key) == Some(err)
                    &&& final(self).state(final(file)@) == old(self).state(old(file)@)
                },
            },
    {
        let ghost before = self.state(file@);
        let ghost bytes = file@;
        let slot: u32 = match self.table.claim(key) {
            Ok(slot) => slot,
            Err(err) => {
                return Err(err);
            },
        };
        proof {
            lemma_created_keeps_wf(before, key);
            lemma_slot_sound(self.mapping, bytes, slot as int);
        }
        match self.mapping.record_mut(file, slot as usize) {
            Some(record) => {
                node_record::name_record(&self.mapping.layout, record, key);
                proof {
                    lemma_record_written(self.mapping, bytes, slot as int, record@);
                }
                Ok(())
            },
            None => {
                self.table.release(key, slot);
                Err(StoreError::Backend(BackendError::NoRecord { slot }))
            },
        }
    }

    /// Mark a live node dead. Its edges and its vector stay.
    pub fn mark_dead(&mut self, key: Key) -> (marked: Result<(), StoreError>)
        ensures
            final(self).mapping == old(self).mapping,
            match marked {
                Ok(_) => {
                    &&& old(self).table@.live(key)
                    &&& final(self).table@ == old(self).table@.buried(key)
                },
                Err(err) => {
                    &&& !old(self).table@.live(key)
                    &&& err == StoreError::Conflict
                    &&& final(self).table@ == old(self).table@
                },
            },
            forall|file: Seq<u8>| old(self).wf(file) ==> #[trigger] final(self).wf(file),
    {
        let ghost before = *self;
        let marked = self.table.mark_dead(key);
        proof {
            assert forall|file: Seq<u8>| before.wf(file) implies #[trigger] self.wf(file) by {
                lemma_owners_stay(before.state(file), self.table@);
            }
        }
        marked
    }

    /// The edges of a node, live or dead, or `None` if there is no such node.
    pub fn get(&self, file: &[u8], key: Key) -> (list: Option<AdjacencyList<u64>>)
        requires
            self.wf(file@),
        ensures
            match list {
                Some(list) => self.state(file@).edges_of(key) == Some(listed(list)),
                None => self.state(file@).edges_of(key) is None,
            },
    {
        let slot: u32 = match self.table.node(key) {
            Some(node) => node.slot(),
            None => {
                return None;
            },
        };
        proof {
            lemma_slot_sound(self.mapping, file@, slot as int);
        }
        match self.mapping.record(file, slot as usize) {
            Some(record) => node_record::load_edges(&self.mapping.layout, record, key),
            None => None,
        }
    }

    /// Replace the edges of a node: each once, no more than the maximum degree.
    pub fn set(&self, file: &mut [u8], key: Key, edges: &[PrimaryId])
        requires
            self.wf(old(file)@),
        ensures
            self.wf(final(file)@),
            self.state(final(file)@) == (if self.table@.nodes.contains_key(key) {
                self.state(old(file)@).with_edges(
                    key,
                    fitted(self.mapping.layout, edges@),
                )
            } else {
                self.state(old(file)@)
            }),
    {
        let slot: u32 = match self.table.node(key) {
            Some(node) => node.slot(),
            None => {
                return ;
            },
        };
        let layout: Layout = self.mapping.layout;
        let ghost before = self.state(file@);
        let ghost bytes = file@;
        let list = fit_edges(edges, layout.max_degree);
        proof {
            lemma_fitted(layout, edges@, listed(list));
            lemma_slot_sound(self.mapping, bytes, slot as int);
            let after = before.record_of(key).with_edges(fitted(layout, edges@));
            lemma_rewritten_keeps_wf(before, key, after);
        }
        match self.mapping.record_mut(file, slot as usize) {
            Some(record) => {
                node_record::store_edges(&layout, record, key, &list);
                proof {
                    lemma_record_written(self.mapping, bytes, slot as int, record@);
                }
            },
            None => {},
        }
    }

    /// Add edges to those of a node, as far as there is room.
    pub fn append(&self, file: &mut [u8], key: Key, edges: &[PrimaryId])
        requires
            self.wf(old(file)@),
        ensures
            self.wf(final(file)@),
            self.state(final(file)@) == (match self.state(old(file)@).edges_of(key) {
                Some(present) => self.state(old(file)@).with_edges(
                    key,
                    kept(self.mapping.layout, extended(present, edges@)),
                ),
                None => self.state(old(file)@),
            }),
    {
        let slot: u32 = match self.table.node(key) {
            Some(node) => node.slot(),
            None => {
                return ;
            },
        };
        let layout: Layout = self.mapping.layout;
        let ghost before = self.state(file@);
        let ghost bytes = file@;
        proof {
            lemma_slot_sound(self.mapping, bytes, slot as int);
            let present = before.record_of(key).edges;
            law_extending_is_a_union(present, edges@);
            lemma_kept_of_shortened(layout, extended(present, edges@));
            let after = before.record_of(key).with_edges(
                kept(layout, extended(present, edges@)),
            );
            lemma_rewritten_keeps_wf(before, key, after);
        }
        match self.mapping.record_mut(file, slot as usize) {
            Some(record) => {
                node_record::append_edges(&layout, record, key, edges);
                proof {
                    lemma_record_written(self.mapping, bytes, slot as int, record@);
                }
            },
            None => {},
        }
    }

    /// Reap a dead node, or empty the edges of a live one.
    pub fn clear(&mut self, file: &mut [u8], key: Key)
        requires
            old(self).wf(old(file)@),
        ensures
            final(self).wf(final(file)@),
            final(self).mapping == old(self).mapping,
            final(self).state(final(file)@) == (if old(self).table@.live(key) {
                old(self).state(old(file)@).with_edges(key, Seq::empty())
            } else if old(self).table@.dead(key) {
                StoreView {
                    table: old(self).table@.reaped(key),
                    ..old(self).state(old(file)@)
                }
            } else {
                old(self).state(old(file)@)
            }),
    {
        let ghost before = self.state(file@);
        let ghost bytes = file@;
        match self.table.clear(key) {
            Cleared::Live(slot) => {
                let layout: Layout = self.mapping.layout;
                let none = new_list();
                proof {
                    lemma_slot_sound(self.mapping, bytes, slot as int);
                    assert(kept(layout, listed(none)) =~= Seq::<PrimaryId>::empty());
                    let after = before.record_of(key).with_edges(Seq::empty());
                    lemma_rewritten_keeps_wf(before, key, after);
                }
                match self.mapping.record_mut(file, slot as usize) {
                    Some(record) => {
                        node_record::store_edges(&layout, record, key, &none);
                        proof {
                            lemma_record_written(self.mapping, bytes, slot as int, record@);
                        }
                    },
                    None => {},
                }
            },
            Cleared::Reaped(_) => {
                proof {
                    lemma_owners_stay(before, self.table@);
                }
            },
            Cleared::Absent => {},
        }
    }

    /// Undo the creation of a node that is still live.
    pub fn abandon(&mut self, key: Key)
        ensures
            final(self).mapping == old(self).mapping,
            final(self).table@ == (if old(self).table@.live(key) {
                old(self).table@.reaped(key)
            } else {
                old(self).table@
            }),
            forall|file: Seq<u8>| old(self).wf(file) ==> #[trigger] final(self).wf(file),
    {
        let ghost before = *self;
        self.table.abandon(key);
        proof {
            assert forall|file: Seq<u8>| before.wf(file) implies #[trigger] self.wf(file) by {
                lemma_owners_stay(before.state(file), self.table@);
            }
        }
    }

    /// The vectors of the nodes of one partition, in the order of `ids`, `None`
    /// where there is no node.
    pub fn vectors(&self, file: &[u8], partition_id: PartitionId, ids: &[PrimaryId]) -> (vectors: Vec<
        Option<Vec<u32>>,
    >)
        requires
            self.wf(file@),
        ensures
            vectors@.len() == ids@.len(),
            forall|i: int|
                0 <= i < ids@.len() ==> is_vector(
                    #[trigger] vectors@[i],
                    self.state(file@).vector_of((partition_id, ids@[i])),
                ),
    {
        let slots: Vec<Option<u32>> = self.table.slots_of(partition_id, ids);
        let n: usize = ids.len();
        let mut vectors: Vec<Option<Vec<u32>>> = Vec::new();
        for i in 0..n
            invariant
                self.wf(file@),
                n == ids@.len(),
                slots@.len() == n,
                forall|j: int|
                    0 <= j < n ==> #[trigger] slots@[j] == (if self.table@.nodes.contains_key(
                        (partition_id, ids@[j]),
                    ) {
                        Some(self.table@.nodes[(partition_id, ids@[j])].spec_slot())
                    } else {
                        None
                    }),
                vectors@.len() == i,
                forall|j: int|
                    0 <= j < i ==> is_vector(
                        #[trigger] vectors@[j],
                        self.state(file@).vector_of((partition_id, ids@[j])),
                    ),
        {
            let key: Key = (partition_id, ids[i]);
            let vector: Option<Vec<u32>> = match slots[i] {
                Some(slot) => {
                    proof {
                        assert(self.table@.nodes.contains_key(key));
                        assert(self.state(file@).record_of(key).owner == key);
                        lemma_slot_sound(self.mapping, file@, slot as int);
                    }
                    match self.mapping.record(file, slot as usize) {
                        Some(record) => node_record::load_vector(
                            &self.mapping.layout,
                            record,
                            key,
                        ),
                        None => None,
                    }
                },
                None => None,
            };
            vectors.push(vector);
        }
        vectors
    }

    /// Store the vector of a node.
    pub fn put(&self, file: &mut [u8], key: Key, vector: &[u32]) -> (put: Result<(), PutError>)
        requires
            self.wf(old(file)@),
        ensures
            self.wf(final(file)@),
            put == put_outcome(
                vector@.len() as usize,
                self.mapping.layout.dim,
                self.table@.nodes.contains_key(key),
            ),
            self.state(final(file)@) == (if put is Ok {
                self.state(old(file)@).with_vector(key, vector@)
            } else {
                self.state(old(file)@)
            }),
    {
        let layout: Layout = self.mapping.layout;
        let slot: u32 = match check_put(vector.len(), layout.dim, self.table.node(key)) {
            Ok(slot) => slot,
            Err(err) => {
                return Err(err);
            },
        };
        let ghost before = self.state(file@);
        let ghost bytes = file@;
        proof {
            lemma_slot_sound(self.mapping, bytes, slot as int);
            let after = before.record_of(key).with_vector(vector@);
            lemma_rewritten_keeps_wf(before, key, after);
        }
        match self.mapping.record_mut(file, slot as usize) {
            Some(record) => {
                let stored: bool = node_record::store_vector(&layout, record, key, vector);
                proof {
                    lemma_record_written(self.mapping, bytes, slot as int, record@);
                }
                if stored {
                    Ok(())
                } else {
                    Err(PutError::HandedOn)
                }
            },
            None => Err(PutError::HandedOn),
        }
    }
}

/// The slot that a vector of `got` components is to be stored in, for a node
/// that was looked up.
pub fn check_put(got: usize, dim: usize, node: Option<Node>) -> (slot: Result<u32, PutError>)
    ensures
        match slot {
            Ok(slot) => {
                &&& put_outcome(got, dim, node is Some) is Ok
                &&& node matches Some(node) && slot == node.spec_slot()
            },
            Err(err) => put_outcome(got, dim, node is Some) == Err::<(), PutError>(err),
        },
{
    if got != dim {
        return Err(PutError::Dimensions { got, expected: dim });
    }
    match node {
        Some(node) => Ok(node.slot()),
        None => Err(PutError::NotANode),
    }
}

/// What storing a vector comes to: its length must be the store's dimension,
/// and there must be such a node.
pub open spec fn put_outcome(got: usize, dim: usize, is_node: bool) -> Result<(), PutError> {
    if got != dim {
        Err(PutError::Dimensions { got, expected: dim })
    } else if !is_node {
        Err(PutError::NotANode)
    } else {
        Ok(())
    }
}

/// A vector that was read is the one that is there.
pub open spec fn is_vector(read: Option<Vec<u32>>, there: Option<Seq<u32>>) -> bool {
    match read {
        Some(vector) => there == Some(vector@),
        None => there is None,
    }
}

/// The edges that fit are what a record keeps of them.
proof fn lemma_fitted(layout: Layout, edges: Seq<PrimaryId>, list: Seq<PrimaryId>)
    requires
        layout.wf(),
        list == shortened(extended(Seq::empty(), edges), layout.max_degree as int),
    ensures
        kept(layout, list) == fitted(layout, edges),
        fitted(layout, edges).no_duplicates(),
        list.no_duplicates(),
{
    let all = extended(Seq::empty(), edges);
    law_extending_is_a_union(Seq::empty(), edges);
    lemma_kept_of_shortened(layout, all);
    assert(list.no_duplicates());
}

/// A store stays in order when nodes die or go and the others keep their slots.
proof fn lemma_owners_stay(store: StoreView, table: TableView)
    requires
        store.wf(),
        table.wf(),
        table.slots.cap == store.table.slots.cap,
        forall|key: Key| #[trigger]
            table.nodes.contains_key(key) ==> store.table.nodes.contains_key(key)
                && table.nodes[key].spec_slot() == store.table.nodes[key].spec_slot(),
    ensures
        (StoreView { table, ..store }).wf(),
{
    let after = StoreView { table, ..store };
    assert forall|key: Key| #[trigger] after.table.nodes.contains_key(key) implies after.record_of(
        key,
    ).owner == key by {
        assert(store.table.nodes.contains_key(key));
        assert(store.record_of(key).owner == key);
    }
}

/// Every byte is zero, as those of a new sparse file are.
pub open spec fn all_zero(file: Seq<u8>) -> bool {
    forall|i: int| 0 <= i < file.len() ==> file[i] == 0
}

/// Zero bytes are the number zero.
proof fn lemma_zero_value(bytes: Seq<u8>)
    requires
        all_zero(bytes),
    ensures
        le_value(bytes) == 0,
    decreases bytes.len(),
{
    if bytes.len() > 0 {
        lemma_zero_value(bytes.drop_first());
    }
}

/// The records of a new file have no edges.
proof fn lemma_fresh_records(mapping: Mapping, file: Seq<u8>)
    requires
        mapping.is_file(file),
        all_zero(file),
    ensures
        forall|i: int|
            0 <= i < mapping.records ==> (#[trigger] records_in(mapping, file)[i]).edges.len() == 0,
{
    assert forall|i: int| 0 <= i < mapping.records implies (
    #[trigger] records_in(mapping, file)[i]).edges.len() == 0 by {
        lemma_slot_in_file(mapping, i);
        let record = mapping.slot_bytes(file, i);
        lemma_zero_value(record.subrange(16, 20));
        assert(header_in(record).n_edges == 0);
    }
}

/// The records of a store in order are sound.
proof fn lemma_slot_sound(mapping: Mapping, file: Seq<u8>, slot: int)
    requires
        mapping.is_file(file),
        0 <= slot < mapping.records,
        records_in(mapping, file)[slot].edges.no_duplicates(),
    ensures
        is_sound(mapping.layout, mapping.slot_bytes(file, slot)),
        records_in(mapping, file)[slot] == record_view(
            mapping.layout,
            mapping.slot_bytes(file, slot),
        ),
{
    lemma_slot_in_file(mapping, slot);
}

/// Writing one record of a file changes that record and no other.
proof fn lemma_record_written(mapping: Mapping, before: Seq<u8>, slot: int, record: Seq<u8>)
    requires
        mapping.is_file(before),
        0 <= slot < mapping.records,
        record.len() == mapping.layout.record,
    ensures
        mapping.is_file(mapping.replaced(before, slot, record)),
        records_in(mapping, mapping.replaced(before, slot, record)) == records_in(
            mapping,
            before,
        ).update(slot, record_view(mapping.layout, record)),
{
    let after = mapping.replaced(before, slot, record);
    law_replacing_a_record_touches_no_other(mapping, before, slot, record);
    let left = records_in(mapping, after);
    let right = records_in(mapping, before).update(slot, record_view(mapping.layout, record));
    assert forall|i: int| 0 <= i < left.len() implies left[i] == right[i] by {
        if i != slot {
            assert(mapping.slot_bytes(after, i) == mapping.slot_bytes(before, i));
        }
    }
    assert(left =~= right);
}

/// Rewriting the record of a node under its name keeps the store in order.
proof fn lemma_rewritten_keeps_wf(store: StoreView, key: Key, record: RecordView)
    requires
        store.wf(),
        store.table.nodes.contains_key(key),
        record.owner == key,
        record.edges.no_duplicates(),
    ensures
        store.rewritten(key, record).wf(),
{
    let after = store.rewritten(key, record);
    let slot = store.table.nodes[key].spec_slot() as int;
    assert forall|other: Key| #[trigger] after.table.nodes.contains_key(other) implies after.record_of(
        other,
    ).owner == other by {
        assert(store.table.nodes.contains_key(other));
        assert(store.record_of(other).owner == other);
        if other != key {
            assert(store.table.nodes[other].spec_slot() != slot);
        }
    }
    assert forall|i: int| 0 <= i < after.records.len() implies (
    #[trigger] after.records[i]).edges.no_duplicates() by {
        if i != slot {
            assert(after.records[i] == store.records[i]);
        }
    }
}

/// Creating a node keeps the store in order.
proof fn lemma_created_keeps_wf(store: StoreView, key: Key)
    requires
        store.wf(),
        store.table.refusal(key) is None,
        store.table.claimed(key).wf(),
    ensures
        store.created(key).wf(),
        0 <= store.table.claimed_slot(key) < store.records.len(),
{
    let after = store.created(key);
    let slot = store.table.claimed_slot(key) as int;
    assert(after.table.nodes.contains_key(key));
    assert forall|other: Key| #[trigger] after.table.nodes.contains_key(other) implies after.record_of(
        other,
    ).owner == other by {
        if other != key {
            assert(store.table.nodes.contains_key(other));
            assert(store.record_of(other).owner == other);
            assert(after.table.nodes[other].spec_slot() != slot);
        }
    }
    assert forall|i: int| 0 <= i < after.records.len() implies (
    #[trigger] after.records[i]).edges.no_duplicates() by {
        if i != slot {
            assert(after.records[i] == store.records[i]);
        }
    }
}

/// What is stored is what is read: edges and vectors come back as they were
/// stored, beside each other, and no other node notices.
pub proof fn law_a_read_gives_back_what_was_written(
    store: StoreView,
    key: Key,
    other: Key,
    edges: Seq<PrimaryId>,
    vector: Seq<u32>,
)
    requires
        store.wf(),
        store.table.nodes.contains_key(key),
        other != key,
    ensures
        store.with_edges(key, edges).edges_of(key) == Some(edges),
        store.with_edges(key, edges).vector_of(key) == store.vector_of(key),
        store.with_vector(key, vector).vector_of(key) == Some(vector),
        store.with_vector(key, vector).edges_of(key) == store.edges_of(key),
        store.with_edges(key, edges).edges_of(other) == store.edges_of(other),
        store.with_edges(key, edges).vector_of(other) == store.vector_of(other),
        store.with_vector(key, vector).edges_of(other) == store.edges_of(other),
        store.with_vector(key, vector).vector_of(other) == store.vector_of(other),
{
    if store.table.nodes.contains_key(other) {
        assert(store.table.nodes[other].spec_slot() != store.table.nodes[key].spec_slot());
    }
}

/// A node that was created is live and has no edges, whatever owned its record
/// before; no other node notices, be it another row, another epoch of the row
/// or the same row of another partition.
pub proof fn law_a_created_node_starts_without_edges(store: StoreView, key: Key, other: Key)
    requires
        store.wf(),
        store.table.refusal(key) is None,
        other != key,
    ensures
        store.created(key).wf(),
        store.created(key).table.live(key),
        store.created(key).edges_of(key) == Some(Seq::<PrimaryId>::empty()),
        store.created(key).table.live(other) == store.table.live(other),
        store.created(key).table.dead(other) == store.table.dead(other),
        store.created(key).edges_of(other) == store.edges_of(other),
        store.created(key).vector_of(other) == store.vector_of(other),
{
    lemma_claimed_keeps_wf(store.table, key);
    lemma_created_keeps_wf(store, key);
    let claimed = store.table.claimed(key);
    assert(claimed.nodes.contains_key(key));
    if store.table.nodes.contains_key(other) {
        assert(claimed.nodes.contains_key(other));
        assert(claimed.nodes[other].spec_slot() != claimed.nodes[key].spec_slot());
    }
}

/// A dead node is not live, but its edges and its vector can still be read,
/// and it can come back.
pub proof fn law_a_dead_node_keeps_its_record(store: StoreView, key: Key)
    requires
        store.wf(),
        store.table.live(key),
    ensures
        ({
            let after = StoreView { table: store.table.buried(key), ..store };
            &&& !after.table.live(key)
            &&& after.edges_of(key) == store.edges_of(key)
            &&& after.vector_of(key) == store.vector_of(key)
            &&& after.table.refusal(key) is None
        }),
{
}

/// A node that was reaped is gone. Once its record is handed to another node,
/// the record bears the other's name: a reader that still holds the slot sees
/// that the record is not its node's.
pub proof fn law_a_reused_record_does_not_answer_to_its_former_owner(
    store: StoreView,
    reaped: Key,
    new: Key,
)
    requires
        store.wf(),
        store.table.nodes.contains_key(reaped),
        !store.table.nodes.contains_key(new),
        new != reaped,
    ensures
        ({
            let slot = store.table.nodes[reaped].spec_slot() as int;
            let after = StoreView { table: store.table.reaped(reaped), ..store };
            &&& after.wf()
            &&& after.edges_of(reaped) is None
            &&& after.vector_of(reaped) is None
            &&& after.table.refusal(new) is None
            &&& after.created(new).records[slot].owner == new
            &&& after.created(new).table.nodes[new].spec_slot() == slot
            &&& after.created(new).edges_of(reaped) is None
        }),
{
    lemma_reaped_keeps_wf(store.table, reaped);
    lemma_owners_stay(store, store.table.reaped(reaped));
}

/// Edges are stored once each, and never more than the maximum degree.
pub proof fn law_stored_edges_are_unique_and_few(
    layout: Layout,
    present: Seq<PrimaryId>,
    edges: Seq<PrimaryId>,
)
    requires
        present.no_duplicates(),
    ensures
        fitted(layout, edges).no_duplicates(),
        fitted(layout, edges).len() <= layout.max_degree,
        kept(layout, extended(present, edges)).no_duplicates(),
        kept(layout, extended(present, edges)).len() <= layout.max_degree,
        layout.max_degree <= u32::MAX && present.len() <= layout.max_degree
            ==> present.is_prefix_of(kept(layout, extended(present, edges))),
{
    law_extending_is_a_union(Seq::empty(), edges);
    law_extending_is_a_union(present, edges);
    lemma_kept_of_shortened(layout, extended(Seq::empty(), edges));
    lemma_kept_of_shortened(layout, extended(present, edges));
}

/// A list of edges without repetitions that a record has room for is stored as
/// it is.
pub proof fn law_edges_that_fit_are_stored_whole(layout: Layout, edges: Seq<PrimaryId>)
    requires
        edges.no_duplicates(),
        edges.len() <= layout.max_degree,
        edges.len() <= u32::MAX,
    ensures
        fitted(layout, edges) == edges,
{
    assert(Seq::<PrimaryId>::empty() + edges =~= edges);
    law_extending_with_new_ids_appends_them(Seq::empty(), edges);
    assert(kept(layout, edges) =~= edges);
}

/// Edges that are added to a list that fills the record are not kept, and
/// edges that are added to any other are kept as far as there is room: either
/// way it is as if the list had not been cut before.
proof fn lemma_cut_before_extending(layout: Layout, list: Seq<PrimaryId>, more: Seq<PrimaryId>)
    requires
        layout.max_degree <= u32::MAX,
        list.no_duplicates(),
    ensures
        kept(layout, extended(kept(layout, list), more)) == kept(layout, extended(list, more)),
{
    let cut = kept(layout, list);
    lemma_kept_of_shortened(layout, list);
    law_extending_is_a_union(cut, more);
    law_extending_is_a_union(list, more);
    if list.len() <= layout.max_degree {
        assert(cut =~= list);
    } else {
        assert(cut.len() == layout.max_degree);
        assert(kept(layout, extended(cut, more)) =~= cut);
        assert(kept(layout, extended(list, more)) =~= cut);
    }
}

/// Setting the edges of a node and then appending to them leaves the store as
/// setting both lists at once does: what was set stays in front, in order, no
/// edge occurs twice and there are no more than the maximum degree. Appending
/// the same edges once more changes nothing.
pub proof fn law_appending_after_setting_is_setting_both(
    layout: Layout,
    store: StoreView,
    key: Key,
    a: Seq<PrimaryId>,
    b: Seq<PrimaryId>,
)
    requires
        layout.max_degree <= u32::MAX,
        store.wf(),
        store.table.nodes.contains_key(key),
    ensures
        ({
            let set = store.with_edges(key, fitted(layout, a));
            let both = fitted(layout, a + b);
            let appended = set.with_edges(key, kept(layout, extended(set.record_of(key).edges, b)));
            let again = appended.with_edges(
                key,
                kept(layout, extended(appended.record_of(key).edges, b)),
            );
            &&& appended == store.with_edges(key, both)
            &&& appended.edges_of(key) == Some(both)
            &&& fitted(layout, a).is_prefix_of(both)
            &&& both.no_duplicates()
            &&& both.len() <= layout.max_degree
            &&& again == appended
        }),
{
    let none = Seq::<PrimaryId>::empty();
    let set = store.with_edges(key, fitted(layout, a));
    let both = fitted(layout, a + b);
    law_extending_is_a_union(none, a);
    law_extending_twice_is_extending_once(none, a, b);
    lemma_cut_before_extending(layout, extended(none, a), b);
    assert(kept(layout, extended(fitted(layout, a), b)) == both);
    law_stored_edges_are_unique_and_few(layout, none, a);
    law_stored_edges_are_unique_and_few(layout, none, a + b);
    law_stored_edges_are_unique_and_few(layout, fitted(layout, a), b);
    assert(set.record_of(key).edges == fitted(layout, a));
    let appended = set.with_edges(key, both);
    assert(appended =~= store.with_edges(key, both));
    law_appending_the_same_edges_again_changes_nothing(layout, fitted(layout, a), b);
    assert(appended.record_of(key).edges == both);
    assert(appended.with_edges(key, both) =~= appended);
}

/// Appending the same edges a second time changes nothing, whatever the edges
/// were before.
pub proof fn law_appending_the_same_edges_again_changes_nothing(
    layout: Layout,
    present: Seq<PrimaryId>,
    edges: Seq<PrimaryId>,
)
    requires
        layout.max_degree <= u32::MAX,
        present.no_duplicates(),
    ensures
        ({
            let once = kept(layout, extended(present, edges));
            kept(layout, extended(once, edges)) == once
        }),
{
    let whole = extended(present, edges);
    law_extending_is_a_union(present, edges);
    lemma_cut_before_extending(layout, whole, edges);
    assert forall|i: int| 0 <= i < edges.len() implies whole.contains(#[trigger] edges[i]) by {
        assert(edges.contains(edges[i]));
    }
    law_extending_with_known_ids_changes_nothing(whole, edges);
}

/// What a store shows of a node: whether it is live, its edges and its vector.
#[verifier::ext_equal]
pub struct Seen {
    pub live: bool,
    pub edges: Option<Seq<PrimaryId>>,
    pub vector: Option<Seq<u32>>,
}

/// Asked about a node, the store answers like this.
pub open spec fn shows(store: DiskNodeStore, file: Seq<u8>, key: Key, seen: Seen) -> bool {
    exists|
        bytes: &[u8],
        ids: &[PrimaryId],
        list: Option<AdjacencyList<u64>>,
        vectors: Vec<Option<Vec<u32>>>,
    |
        {
            &&& bytes@ == file
            &&& ids@ == seq![key.1]
            &&& call_ensures(DiskNodeStore::is_live, (&store, key), seen.live)
            &&& #[trigger] call_ensures(DiskNodeStore::get, (&store, bytes, key), list)
            &&& #[trigger] call_ensures(
                DiskNodeStore::vectors,
                (&store, bytes, key.0, ids),
                vectors,
            )
            &&& seen.edges == (match list {
                Some(list) => Some(listed(list)),
                None => None,
            })
            &&& seen.vector == (match vectors@[0] {
                Some(vector) => Some(vector@),
                None => None,
            })
        }
}

/// What a store shows is what it holds.
proof fn lemma_shows(store: DiskNodeStore, file: Seq<u8>, key: Key, seen: Seen)
    requires
        shows(store, file, key, seen),
    ensures
        seen.live == store.table@.live(key),
        seen.edges == store.state(file).edges_of(key),
        seen.vector == store.state(file).vector_of(key),
{
    let (bytes, ids, list, vectors) = choose|
        bytes: &[u8],
        ids: &[PrimaryId],
        list: Option<AdjacencyList<u64>>,
        vectors: Vec<Option<Vec<u32>>>,
    |
        {
            &&& bytes@ == file
            &&& ids@ == seq![key.1]
            &&& call_ensures(DiskNodeStore::is_live, (&store, key), seen.live)
            &&& #[trigger] call_ensures(DiskNodeStore::get, (&store, bytes, key), list)
            &&& #[trigger] call_ensures(
                DiskNodeStore::vectors,
                (&store, bytes, key.0, ids),
                vectors,
            )
            &&& seen.edges == (match list {
                Some(list) => Some(listed(list)),
                None => None,
            })
            &&& seen.vector == (match vectors@[0] {
                Some(vector) => Some(vector@),
                None => None,
            })
        };
    assert(ids@[0] == key.1);
    assert(is_vector(vectors@[0], store.state(file).vector_of((key.0, ids@[0]))));
}

/// A store is opened exactly for a dimension and a degree that are not zero and
/// for no more records than a slot can number; it is laid out for these. On a file
/// of zeros, which is as long as its records, it shows no node.
pub proof fn law_a_new_store_shows_no_node(
    dim: usize,
    max_degree: usize,
    max_points: usize,
    opened: Result<DiskNodeStore, OpenError>,
    file: Seq<u8>,
    key: Key,
    seen: Seen,
)
    requires
        call_ensures(DiskNodeStore::open, (dim, max_degree, max_points), opened),
        opened matches Ok(store) ==> shows(store, file, key, seen),
        opened matches Ok(store) ==> store.mapping.is_file(file),
        forall|i: int| 0 <= i < file.len() ==> file[i] == 0,
    ensures
        opened is Ok <==> dim != 0 && max_degree != 0 && max_points <= u32::MAX,
        match opened {
            Ok(store) => {
                &&& store.mapping.layout.dim == dim
                &&& store.mapping.layout.max_degree == max_degree
                &&& store.mapping.records == max_points
                &&& store.wf(file)
                &&& !seen.live
                &&& seen.edges is None
                &&& seen.vector is None
            },
            Err(OpenError::EmptyShape) => dim == 0 || max_degree == 0,
            Err(OpenError::TooManyRecords) => max_points > u32::MAX,
        },
{
    if let Ok(store) = opened {
        lemma_shows(store, file, key, seen);
        assert(store.mapping.is_file(file) && all_zero(file));
        assert(store.wf(file));
    }
}

/// A node that is created is live and has no edges; one that was dead has the
/// vector that it had. A live node is refused, and so is a new one when there are
/// as many nodes as records; nothing changes then. No other node ever notices.
pub proof fn law_creating_a_node_shows_it_live_and_without_edges(
    store: &mut DiskNodeStore,
    file: &mut [u8],
    key: Key,
    created: Result<(), StoreError>,
    before: Seen,
    after: Seen,
    other: Key,
    other_before: Seen,
    other_after: Seen,
)
    requires
        old(store).wf(old(file)@),
        call_ensures(DiskNodeStore::create, (store, file, key), created),
        shows(*old(store), old(file)@, key, before),
        shows(*final(store), final(file)@, key, after),
        other != key,
        shows(*old(store), old(file)@, other, other_before),
        shows(*final(store), final(file)@, other, other_after),
    ensures
        other_after == other_before,
        match created {
            Ok(_) => {
                &&& !before.live
                &&& after.live
                &&& after.edges == Some(Seq::<PrimaryId>::empty())
                &&& after.vector is Some
                &&& before.vector is Some ==> after.vector == before.vector
            },
            Err(StoreError::Conflict) => before.live && after == before,
            Err(StoreError::Backend(err)) => {
                &&& before.edges is None
                &&& after == before
                &&& old(store).table.nodes@.len() == old(store).mapping.records
                &&& err == (BackendError::Full { records: old(store).table.slots.cap })
            },
        },
        final(store).mapping == old(store).mapping,
        final(store).wf(final(file)@),
{
    lemma_shows(*old(store), old(file)@, key, before);
    lemma_shows(*final(store), final(file)@, key, after);
    lemma_shows(*old(store), old(file)@, other, other_before);
    lemma_shows(*final(store), final(file)@, other, other_after);
    let state = old(store).state(old(file)@);
    if created is Ok {
        law_a_created_node_starts_without_edges(state, key, other);
        lemma_claimed_keeps_wf(state.table, key);
        lemma_created_keeps_wf(state, key);
    }
    assert(other_after =~= other_before);
}

/// A live node that is marked dead is shown as dead, with the edges and the vector
/// that it had. Any other is refused, and nothing changes. No other node notices.
pub proof fn law_marking_a_node_dead_leaves_its_edges_and_its_vector(
    store: &mut DiskNodeStore,
    file: Seq<u8>,
    key: Key,
    marked: Result<(), StoreError>,
    before: Seen,
    after: Seen,
    other: Key,
    other_before: Seen,
    other_after: Seen,
)
    requires
        old(store).wf(file),
        call_ensures(DiskNodeStore::mark_dead, (store, key), marked),
        shows(*old(store), file, key, before),
        shows(*final(store), file, key, after),
        other != key,
        shows(*old(store), file, other, other_before),
        shows(*final(store), file, other, other_after),
    ensures
        other_after == other_before,
        marked is Ok <==> before.live,
        marked matches Err(err) ==> err == StoreError::Conflict,
        !after.live,
        after.edges == before.edges,
        after.vector == before.vector,
        final(store).mapping == old(store).mapping,
        final(store).wf(file),
{
    lemma_shows(*old(store), file, key, before);
    lemma_shows(*final(store), file, key, after);
    lemma_shows(*old(store), file, other, other_before);
    lemma_shows(*final(store), file, other, other_after);
    assert(other_after =~= other_before);
}

/// The edges that a node is given are shown, each where it is first met, up to the
/// maximum degree; it is live or dead as it was, and its vector stays. Where there
/// is no such node nothing changes. No other node notices.
pub proof fn law_edges_that_were_set_are_shown(
    store: &DiskNodeStore,
    file: &mut [u8],
    key: Key,
    edges: &[PrimaryId],
    before: Seen,
    after: Seen,
    other: Key,
    other_before: Seen,
    other_after: Seen,
)
    requires
        store.wf(old(file)@),
        store.mapping.layout.max_degree <= u32::MAX,
        call_ensures(DiskNodeStore::set, (store, file, key, edges), ()),
        shows(*store, old(file)@, key, before),
        shows(*store, final(file)@, key, after),
        other != key,
        shows(*store, old(file)@, other, other_before),
        shows(*store, final(file)@, other, other_after),
    ensures
        other_after == other_before,
        after.live == before.live,
        after.vector == before.vector,
        before.edges is None ==> after.edges is None,
        before.edges is Some ==> (after.edges matches Some(shown) && {
            &&& shown.no_duplicates()
            &&& shown.len() <= store.mapping.layout.max_degree
            &&& goes_on_with(shown, 0, edges@)
            &&& shown.len() < store.mapping.layout.max_degree ==> forall|i: int|
                0 <= i < edges@.len() ==> shown.contains(#[trigger] edges@[i])
        }),
        store.wf(final(file)@),
{
    lemma_shows(*store, old(file)@, key, before);
    lemma_shows(*store, final(file)@, key, after);
    lemma_shows(*store, old(file)@, other, other_before);
    lemma_shows(*store, final(file)@, other, other_after);
    let state = store.state(old(file)@);
    let layout = store.mapping.layout;
    lemma_appended(layout, Seq::empty(), edges@);
    if state.table.nodes.contains_key(key) {
        law_a_read_gives_back_what_was_written(
            state,
            key,
            other,
            fitted(layout, edges@),
            Seq::empty(),
        );
    }
    assert(other_after =~= other_before);
}

/// The edges that are appended to a node are shown behind those that it had, each
/// where it is first met, up to the maximum degree; it is live or dead as it was,
/// and its vector stays. Where there is no such node nothing changes. No other node
/// notices.
pub proof fn law_edges_that_were_appended_are_shown_behind_the_others(
    store: &DiskNodeStore,
    file: &mut [u8],
    key: Key,
    edges: &[PrimaryId],
    before: Seen,
    after: Seen,
    other: Key,
    other_before: Seen,
    other_after: Seen,
)
    requires
        store.wf(old(file)@),
        store.mapping.layout.max_degree <= u32::MAX,
        call_ensures(DiskNodeStore::append, (store, file, key, edges), ()),
        shows(*store, old(file)@, key, before),
        shows(*store, final(file)@, key, after),
        other != key,
        shows(*store, old(file)@, other, other_before),
        shows(*store, final(file)@, other, other_after),
    ensures
        other_after == other_before,
        after.live == before.live,
        after.vector == before.vector,
        before.edges is None ==> after.edges is None,
        before.edges matches Some(present) ==> (after.edges matches Some(shown) && {
            &&& shown.no_duplicates()
            &&& shown.len() <= store.mapping.layout.max_degree
            &&& present.is_prefix_of(shown)
            &&& goes_on_with(shown, present.len() as int, edges@)
            &&& shown.len() < store.mapping.layout.max_degree ==> forall|i: int|
                0 <= i < edges@.len() ==> shown.contains(#[trigger] edges@[i])
        }),
        store.wf(final(file)@),
{
    lemma_shows(*store, old(file)@, key, before);
    lemma_shows(*store, final(file)@, key, after);
    lemma_shows(*store, old(file)@, other, other_before);
    lemma_shows(*store, final(file)@, other, other_after);
    let state = store.state(old(file)@);
    let layout = store.mapping.layout;
    if state.table.nodes.contains_key(key) {
        let present = state.record_of(key).edges;
        lemma_slot_sound(
            store.mapping,
            old(file)@,
            state.table.nodes[key].spec_slot() as int,
        );
        lemma_appended(layout, present, edges@);
        law_a_read_gives_back_what_was_written(
            state,
            key,
            other,
            kept(layout, extended(present, edges@)),
            Seq::empty(),
        );
    }
    assert(other_after =~= other_before);
}

/// A dead node that is cleared is gone. A live one stays, with its vector and
/// without edges; where there is no such node nothing changes. No other node
/// notices.
pub proof fn law_clearing_takes_a_dead_node_and_the_edges_of_a_live_one(
    store: &mut DiskNodeStore,
    file: &mut [u8],
    key: Key,
    before: Seen,
    after: Seen,
    other: Key,
    other_before: Seen,
    other_after: Seen,
)
    requires
        old(store).wf(old(file)@),
        call_ensures(DiskNodeStore::clear, (store, file, key), ()),
        shows(*old(store), old(file)@, key, before),
        shows(*final(store), final(file)@, key, after),
        other != key,
        shows(*old(store), old(file)@, other, other_before),
        shows(*final(store), final(file)@, other, other_after),
    ensures
        other_after == other_before,
        after.live == before.live,
        if before.live {
            &&& after.edges == Some(Seq::<PrimaryId>::empty())
            &&& after.vector == before.vector
        } else {
            &&& after.edges is None
            &&& after.vector is None
        },
        final(store).mapping == old(store).mapping,
        final(store).wf(final(file)@),
{
    lemma_shows(*old(store), old(file)@, key, before);
    lemma_shows(*final(store), final(file)@, key, after);
    lemma_shows(*old(store), old(file)@, other, other_before);
    lemma_shows(*final(store), final(file)@, other, other_after);
    let state = old(store).state(old(file)@);
    if state.table.nodes.contains_key(key) {
        law_a_read_gives_back_what_was_written(state, key, other, Seq::empty(), Seq::empty());
    }
    assert(other_after =~= other_before);
}

/// A live node that is abandoned is gone. A dead one stays as it was, and so does
/// every other.
pub proof fn law_abandoning_shows_a_live_node_no_more(
    store: &mut DiskNodeStore,
    file: Seq<u8>,
    key: Key,
    before: Seen,
    after: Seen,
    other: Key,
    other_before: Seen,
    other_after: Seen,
)
    requires
        old(store).wf(file),
        call_ensures(DiskNodeStore::abandon, (store, key), ()),
        shows(*old(store), file, key, before),
        shows(*final(store), file, key, after),
        other != key,
        shows(*old(store), file, other, other_before),
        shows(*final(store), file, other, other_after),
    ensures
        other_after == other_before,
        if before.live {
            &&& !after.live
            &&& after.edges is None
            &&& after.vector is None
        } else {
            after == before
        },
        final(store).mapping == old(store).mapping,
        final(store).wf(file),
{
    lemma_shows(*old(store), file, key, before);
    lemma_shows(*final(store), file, key, after);
    lemma_shows(*old(store), file, other, other_before);
    lemma_shows(*final(store), file, other, other_after);
    assert(other_after =~= other_before);
    assert(!before.live ==> after =~= before);
}

/// A vector that is stored is shown as it is; the node is live or dead as it was,
/// and its edges stay. A vector of another dimension is refused, and so is one of
/// a node that is not there; nothing changes then. No other node notices.
pub proof fn law_a_vector_that_was_stored_is_shown(
    store: &DiskNodeStore,
    file: &mut [u8],
    key: Key,
    vector: &[u32],
    put: Result<(), PutError>,
    before: Seen,
    after: Seen,
    other: Key,
    other_before: Seen,
    other_after: Seen,
)
    requires
        store.wf(old(file)@),
        vector@.len() <= usize::MAX,
        call_ensures(DiskNodeStore::put, (store, file, key, vector), put),
        shows(*store, old(file)@, key, before),
        shows(*store, final(file)@, key, after),
        other != key,
        shows(*store, old(file)@, other, other_before),
        shows(*store, final(file)@, other, other_after),
    ensures
        other_after == other_before,
        after.live == before.live,
        after.edges == before.edges,
        put is Ok <==> vector@.len() == store.mapping.layout.dim && before.vector is Some,
        match put {
            Ok(_) => after.vector == Some(vector@),
            Err(PutError::Dimensions { got, expected }) => {
                &&& after.vector == before.vector
                &&& got == vector@.len()
                &&& expected == store.mapping.layout.dim
                &&& got != expected
            },
            Err(PutError::NotANode) => {
                &&& after.vector == before.vector
                &&& before.vector is None
                &&& vector@.len() == store.mapping.layout.dim
            },
            Err(PutError::HandedOn) => false,
        },
        store.wf(final(file)@),
{
    lemma_shows(*store, old(file)@, key, before);
    lemma_shows(*store, final(file)@, key, after);
    lemma_shows(*store, old(file)@, other, other_before);
    lemma_shows(*store, final(file)@, other, other_after);
    let state = store.state(old(file)@);
    if state.table.nodes.contains_key(key) {
        law_a_read_gives_back_what_was_written(state, key, other, Seq::empty(), vector@);
    }
    assert(other_after =~= other_before);
}

/// The vectors of many nodes are those of each of them, at the same places.
pub proof fn law_vectors_are_read_place_by_place(
    store: &DiskNodeStore,
    file: &[u8],
    partition_id: PartitionId,
    ids: &[PrimaryId],
    vectors: Vec<Option<Vec<u32>>>,
    i: int,
    seen: Seen,
)
    requires
        store.wf(file@),
        call_ensures(DiskNodeStore::vectors, (store, file, partition_id, ids), vectors),
        0 <= i < ids@.len(),
        shows(*store, file@, (partition_id, ids@[i]), seen),
    ensures
        vectors@.len() == ids@.len(),
        seen.vector == (match vectors@[i] {
            Some(vector) => Some(vector@),
            None => None,
        }),
{
    lemma_shows(*store, file@, (partition_id, ids@[i]), seen);
    assert(is_vector(vectors@[i], store.state(file@).vector_of((partition_id, ids@[i]))));
}

/// A node is there exactly if it has edges to show, be they none, and a vector;
/// only a node that is there is live.
pub proof fn law_what_a_store_shows_of_a_node_is_all_or_nothing(
    store: &DiskNodeStore,
    file: Seq<u8>,
    key: Key,
    seen: Seen,
)
    requires
        store.wf(file),
        shows(*store, file, key, seen),
    ensures
        seen.edges is Some <==> store.table.nodes@.contains_key(key),
        seen.vector is Some <==> store.table.nodes@.contains_key(key),
        seen.live <==> store.table.nodes@.contains_key(key) && (
        store.table.nodes@[key] matches Node::Live(_)),
{
    lemma_shows(*store, file, key, seen);
}

/// A vector may be stored exactly if it has as many components as the store keeps
/// and there is such a node, and then in the slot of the node.
pub proof fn law_a_vector_goes_to_the_slot_of_its_node(
    got: usize,
    dim: usize,
    node: Option<Node>,
    slot: Result<u32, PutError>,
)
    requires
        call_ensures(check_put, (got, dim, node), slot),
    ensures
        match slot {
            Ok(slot) => got == dim && (node == Some(Node::Live(slot)) || node == Some(
                Node::Dead(slot),
            )),
            Err(PutError::Dimensions { got: refused, expected }) => got != dim && refused == got
                && expected == dim,
            Err(PutError::NotANode) => got == dim && node is None,
            Err(PutError::HandedOn) => false,
        },
{
}

/// The edges and the vector that a store shows of a node lie in the file in the
/// record of its slot: the number of edges in the header, the edges behind it, and
/// the vector behind the room for all edges.
pub proof fn law_what_a_store_shows_lies_in_the_record_of_the_slot(
    store: &DiskNodeStore,
    file: Seq<u8>,
    key: Key,
    seen: Seen,
    slot: int,
    record: &[u8],
    edges: Vec<PrimaryId>,
    vector: Vec<u32>,
)
    requires
        store.wf(file),
        shows(*store, file, key, seen),
        store.table.nodes@.contains_key(key),
        store.table.nodes@[key] == Node::Live(slot as u32) || store.table.nodes@[key]
            == Node::Dead(slot as u32),
        0 <= slot <= u32::MAX,
        record@ == file.subrange(
            slot * store.mapping.layout.record,
            slot * store.mapping.layout.record + store.mapping.layout.record,
        ),
        call_ensures(crate::record::edges, (&store.mapping.layout, record), edges),
        call_ensures(crate::record::vector, (&store.mapping.layout, record), vector),
    ensures
        seen.edges == Some(edges@),
        seen.vector == Some(vector@),
{
    lemma_shows(*store, file, key, seen);
    lemma_slot_sound(store.mapping, file, slot);
}

/// A message says why a vector was not stored, and of which node.
pub proof fn law_a_message_names_the_node_and_both_dimensions(
    err: PutError,
    id: &str,
    got: u64,
    expected: u64,
    got_text: String,
    expected_text: String,
    text: String,
)
    requires
        call_ensures(PutError::message, (&err, id), text),
        err matches PutError::Dimensions { got: g, expected: e } ==> g == got && e == expected,
        call_ensures(decimal, (got,), got_text),
        call_ensures(decimal, (expected,), expected_text),
    ensures
        match err {
            PutError::Dimensions { .. } => text@ == "put: "@ + id@ + " has "@ + got_text@
                + " dimensions, the store holds "@ + expected_text@,
            PutError::NotANode => text@ == "put: "@ + id@ + " is not a node"@,
            PutError::HandedOn => text@ == "put: the record of "@ + id@
                + " was handed to another node"@,
        },
{
}

/// A message says why a store was not opened.
pub proof fn law_a_message_says_why_a_store_was_not_opened(err: OpenError, text: &'static str)
    requires
        call_ensures(OpenError::message, (&err,), text),
    ensures
        match err {
            OpenError::EmptyShape => text@
                == "a node store needs a non-zero dimension and max degree"@,
            OpenError::TooManyRecords => text@ == "a node store holds at most 2^32 records"@,
        },
{
}

} // verus!
