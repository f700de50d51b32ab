use diskann_store::adjacency::all_unique;
use diskann_store::adjacency::fit_edges;
use diskann_store::adjacency::join_edges;
use diskann_store::mapping::stripe;
use diskann_store::mapping::STRIPES;
use diskann_store::node_record;
use diskann_store::nodes::BackendError;
use diskann_store::nodes::Cleared;
use diskann_store::nodes::Node;
use diskann_store::nodes::NodeTable;
use diskann_store::nodes::Slots;
use diskann_store::nodes::StoreError;
use diskann_store::record;
use diskann_store::record::Header;
use diskann_store::record::PartitionId;
use diskann_store::record::PrimaryId;
use diskann_store::layout::Layout;
use diskann_store::layout::Span;
use diskann_store::store::check_put;
use diskann_store::store::DiskNodeStore;
use diskann_store::store::OpenError;
use diskann_store::store::PutError;

/// A store and the bytes of its node file.
struct Fixture {
    store: DiskNodeStore,
    file: Vec<u8>,
}

fn store(dim: usize, max_degree: usize) -> Fixture {
    store_holding(dim, max_degree, 64)
}

fn store_holding(dim: usize, max_degree: usize, max_points: usize) -> Fixture {
    let store = DiskNodeStore::open(dim, max_degree, max_points).unwrap();
    let file = vec![0u8; store.mapping.file_len()];
    Fixture { store, file }
}

fn part() -> PartitionId {
    1
}

/// An id with the row slot and the epoch spelled out.
fn id(idx: u64, epoch: u64) -> PrimaryId {
    epoch << 48 | idx
}

fn bits(vector: &[f32]) -> Vec<u32> {
    vector.iter().map(|value| value.to_bits()).collect()
}

impl Fixture {
    fn create(&mut self, id: PrimaryId) -> Result<(), StoreError> {
        self.store.create(&mut self.file, (part(), id))
    }

    fn set(&mut self, id: PrimaryId, edges: &[PrimaryId]) {
        self.store.set(&mut self.file, (part(), id), edges)
    }

    fn append(&mut self, id: PrimaryId, edges: &[PrimaryId]) {
        self.store.append(&mut self.file, (part(), id), edges)
    }

    fn clear(&mut self, id: PrimaryId) {
        self.store.clear(&mut self.file, (part(), id))
    }

    fn mark_dead(&mut self, id: PrimaryId) -> Result<(), StoreError> {
        self.store.mark_dead((part(), id))
    }

    fn abandon(&mut self, id: PrimaryId) {
        self.store.abandon((part(), id))
    }

    fn is_live(&self, id: PrimaryId) -> bool {
        self.store.is_live((part(), id))
    }

    fn put(&mut self, id: PrimaryId, vector: &[f32]) -> Result<(), PutError> {
        self.store.put(&mut self.file, (part(), id), &bits(vector))
    }

    fn edges(&self, id: PrimaryId) -> Option<Vec<PrimaryId>> {
        self.store.get(&self.file, (part(), id)).map(|list| list.to_vec())
    }

    fn vectors(&self, ids: &[PrimaryId]) -> Vec<Option<Vec<f32>>> {
        self.store
            .vectors(&self.file, part(), ids)
            .into_iter()
            .map(|vector| vector.map(|v| v.into_iter().map(f32::from_bits).collect()))
            .collect()
    }

    fn slot_of(&self, id: PrimaryId) -> Option<u32> {
        self.store.table.node((part(), id)).map(Node::slot)
    }
}

#[test]
fn a_node_is_absent_then_live_then_dead() {
    let mut store = store(2, 3);

    // Absent: no edges, and every write to it is dropped.
    assert_eq!(store.edges(id(1, 0)), None);
    store.set(id(1, 0), &[id(2, 0)]);
    store.append(id(1, 0), &[id(2, 0)]);
    store.clear(id(1, 0));
    assert_eq!(store.edges(id(1, 0)), None);

    // Live: an empty list rather than an absent node.
    store.create(id(1, 0)).unwrap();
    assert!(store.is_live(id(1, 0)));
    assert_eq!(store.edges(id(1, 0)), Some(vec![]));

    // Deduplicated, then capped at the max degree.
    store.set(
        id(1, 0),
        &[id(2, 0), id(2, 0), id(3, 0), id(4, 0), id(5, 0)],
    );
    assert_eq!(
        store.edges(id(1, 0)),
        Some(vec![id(2, 0), id(3, 0), id(4, 0)])
    );

    // A second create is refused without touching the winner's edges.
    assert!(matches!(
        store.create(id(1, 0)),
        Err(StoreError::Conflict)
    ));

    // Dead: invisible, but the repair pass can still read the edges.
    store.mark_dead(id(1, 0)).unwrap();
    assert!(!store.is_live(id(1, 0)));
    assert_eq!(
        store.edges(id(1, 0)),
        Some(vec![id(2, 0), id(3, 0), id(4, 0)])
    );
    assert!(matches!(
        store.mark_dead(id(1, 0)),
        Err(StoreError::Conflict)
    ));

    // Clearing a dead node reaps it.
    store.clear(id(1, 0));
    assert_eq!(store.edges(id(1, 0)), None);
}

#[test]
fn two_epochs_of_one_row_do_not_share_a_record() {
    let mut store = store(2, 4);
    let (old, new) = (id(7, 0), id(7, 1));

    store.create(old).unwrap();
    store.put(old, &[1.0, 2.0]).unwrap();
    store.set(old, &[id(1, 0), id(2, 0)]);

    // The new epoch arrives while the old one is still being repaired.
    store.create(new).unwrap();
    store.put(new, &[3.0, 4.0]).unwrap();
    store.set(new, &[id(3, 0)]);

    assert_ne!(store.slot_of(old), store.slot_of(new));
    assert_eq!(store.edges(old), Some(vec![id(1, 0), id(2, 0)]));
    assert_eq!(store.edges(new), Some(vec![id(3, 0)]));
    assert_eq!(
        store.vectors(&[old, new]),
        vec![Some(vec![1.0, 2.0]), Some(vec![3.0, 4.0])]
    );
}

#[test]
fn a_reaped_node_gives_its_record_back() {
    let mut store = store(2, 2);

    store.create(id(1, 0)).unwrap();
    let reaped = store.slot_of(id(1, 0)).unwrap();
    store.mark_dead(id(1, 0)).unwrap();
    store.clear(id(1, 0));

    store.create(id(2, 0)).unwrap();
    assert_eq!(store.slot_of(id(2, 0)), Some(reaped));
    assert_eq!(store.edges(id(2, 0)), Some(vec![]));
}

#[test]
fn vectors_are_aligned_with_the_ids_and_absent_for_non_nodes() {
    let mut store = store(2, 2);

    store.create(id(1, 0)).unwrap();
    store.put(id(1, 0), &[1.0, 1.0]).unwrap();
    store.create(id(3, 0)).unwrap();
    store.put(id(3, 0), &[3.0, 3.0]).unwrap();

    assert_eq!(
        store.vectors(&[id(1, 0), id(2, 0), id(3, 0), id(1, 1)]),
        vec![Some(vec![1.0, 1.0]), None, Some(vec![3.0, 3.0]), None]
    );
    assert!(store.put(id(2, 0), &[2.0, 2.0]).is_err());
    assert!(store.put(id(1, 0), &[1.0]).is_err());
}

#[test]
fn abandon_leaves_the_id_absent() {
    let mut store = store(2, 2);

    store.create(id(1, 0)).unwrap();
    store.set(id(1, 0), &[id(2, 0)]);
    store.abandon(id(1, 0));

    assert!(!store.is_live(id(1, 0)));
    assert_eq!(store.edges(id(1, 0)), None);

    store.create(id(1, 0)).unwrap();
    assert_eq!(store.edges(id(1, 0)), Some(vec![]));
}

#[test]
fn a_partition_does_not_see_another_partitions_nodes() {
    let mut store = store(2, 2);
    let other: PartitionId = 2;

    store.create(id(1, 0)).unwrap();
    store.put(id(1, 0), &[1.0, 1.0]).unwrap();

    assert!(!store.store.is_live((other, id(1, 0))));
    assert!(store.store.get(&store.file, (other, id(1, 0))).is_none());
    assert_eq!(
        store.store.vectors(&store.file, other, &[id(1, 0)]),
        vec![None]
    );
}

#[test]
fn the_store_holds_no_more_than_its_records() {
    let mut store = store_holding(2, 2, 2);

    store.create(id(1, 0)).unwrap();
    store.create(id(2, 0)).unwrap();
    assert!(matches!(
        store.create(id(3, 0)),
        Err(StoreError::Backend(_))
    ));

    // Reaping one lets the next node in.
    store.mark_dead(id(1, 0)).unwrap();
    store.clear(id(1, 0));
    store.create(id(3, 0)).unwrap();
    assert_eq!(store.edges(id(3, 0)), Some(vec![]));
}

#[test]
fn a_full_store_says_how_many_records_it_has() {
    let mut store = store_holding(2, 2, 1);
    store.create(id(1, 0)).unwrap();
    let err = store.create(id(2, 0)).unwrap_err();
    assert_eq!(
        err,
        StoreError::Backend(BackendError::Full { records: 1 })
    );
    assert_eq!(
        BackendError::Full { records: 1 }.message(),
        "the node store is full at 1 records"
    );
    assert_eq!(
        BackendError::NoRecord { slot: 4294967295 }.message(),
        "the node file has no record 4294967295"
    );
}

#[test]
fn a_store_without_records_takes_no_node() {
    let mut store = store_holding(2, 2, 0);
    assert_eq!(
        store.create(id(1, 0)),
        Err(StoreError::Backend(BackendError::Full { records: 0 }))
    );
}

#[test]
fn a_store_needs_a_shape_and_numbered_records() {
    let err = DiskNodeStore::open(0, 3, 4).unwrap_err();
    assert_eq!(err, OpenError::EmptyShape);
    assert_eq!(DiskNodeStore::open(3, 0, 4).unwrap_err(), OpenError::EmptyShape);
    assert_eq!(
        err.message(),
        "a node store needs a non-zero dimension and max degree"
    );

    let err = DiskNodeStore::open(1, 1, u32::MAX as usize + 1).unwrap_err();
    assert_eq!(err, OpenError::TooManyRecords);
    assert_eq!(err.message(), "a node store holds at most 2^32 records");

    let largest = DiskNodeStore::open(1, 1, u32::MAX as usize).unwrap();
    assert_eq!(largest.mapping.file_len(), 4096 * (u32::MAX as usize));
}

#[test]
fn a_refused_vector_says_why() {
    let mut store = store(2, 2);
    store.create(id(1, 0)).unwrap();

    let err = store.put(id(1, 0), &[1.0, 2.0, 3.0]).unwrap_err();
    assert_eq!(err, PutError::Dimensions { got: 3, expected: 2 });
    assert_eq!(
        err.message("1"),
        "put: 1 has 3 dimensions, the store holds 2"
    );

    // The dimension is looked at before the node is.
    assert_eq!(
        store.put(id(2, 0), &[1.0]).unwrap_err(),
        PutError::Dimensions { got: 1, expected: 2 }
    );

    let err = store.put(id(2, 0), &[1.0, 2.0]).unwrap_err();
    assert_eq!(err, PutError::NotANode);
    assert_eq!(err.message("2"), "put: 2 is not a node");
    assert_eq!(
        PutError::HandedOn.message("3"),
        "put: the record of 3 was handed to another node"
    );
}

#[test]
fn a_revived_node_keeps_its_record() {
    let mut store = store(2, 2);
    store.create(id(9, 0)).unwrap();
    store.create(id(1, 0)).unwrap();
    store.put(id(1, 0), &[5.0, 6.0]).unwrap();
    store.set(id(1, 0), &[id(9, 0)]);
    let slot = store.slot_of(id(1, 0));
    store.mark_dead(id(1, 0)).unwrap();

    store.create(id(1, 0)).unwrap();
    assert_eq!(store.slot_of(id(1, 0)), slot);
    assert_eq!(store.edges(id(1, 0)), Some(vec![]));
    assert_eq!(store.vectors(&[id(1, 0)]), vec![Some(vec![5.0, 6.0])]);
}

#[test]
fn appending_keeps_what_is_there_and_repeats_nothing() {
    let mut store = store(1, 4);
    store.create(id(1, 0)).unwrap();
    store.set(id(1, 0), &[id(5, 0), id(3, 0)]);
    store.append(id(1, 0), &[id(3, 0), id(4, 0), id(4, 0), id(5, 0)]);
    assert_eq!(
        store.edges(id(1, 0)),
        Some(vec![id(5, 0), id(3, 0), id(4, 0)])
    );
    store.append(id(1, 0), &[id(6, 0), id(7, 0)]);
    assert_eq!(
        store.edges(id(1, 0)),
        Some(vec![id(5, 0), id(3, 0), id(4, 0), id(6, 0)])
    );
}

#[test]
fn clearing_a_live_node_empties_its_edges_only() {
    let mut store = store(2, 2);
    store.create(id(1, 0)).unwrap();
    store.put(id(1, 0), &[1.5, -2.5]).unwrap();
    store.set(id(1, 0), &[id(2, 0)]);
    store.clear(id(1, 0));
    assert!(store.is_live(id(1, 0)));
    assert_eq!(store.edges(id(1, 0)), Some(vec![]));
    assert_eq!(store.vectors(&[id(1, 0)]), vec![Some(vec![1.5, -2.5])]);
}

#[test]
fn abandoning_leaves_a_dead_node_alone() {
    let mut store = store(2, 2);
    store.create(id(1, 0)).unwrap();
    store.mark_dead(id(1, 0)).unwrap();
    store.abandon(id(1, 0));
    assert_eq!(store.edges(id(1, 0)), Some(vec![]));
    store.abandon(id(2, 0));
    assert_eq!(store.edges(id(2, 0)), None);
}

#[test]
fn a_reused_record_does_not_answer_to_its_former_owner() {
    let mut store = store(2, 2);
    store.create(id(1, 0)).unwrap();
    let slot = store.slot_of(id(1, 0)).unwrap() as usize;
    store.mark_dead(id(1, 0)).unwrap();
    store.clear(id(1, 0));
    store.create(id(2, 0)).unwrap();
    store.set(id(2, 0), &[id(7, 0)]);

    // A reader that still holds the slot of the reaped node.
    let layout = store.store.mapping.layout;
    let record = store.store.mapping.record_mut(&mut store.file, slot).unwrap();
    let old = (part(), id(1, 0));
    let new = (part(), id(2, 0));
    assert!(!node_record::owned(&layout, record, old));
    assert!(node_record::owned(&layout, record, new));
    assert!(node_record::check_sound(&layout, record));
    assert!(node_record::load_edges(&layout, record, old).is_none());
    assert_eq!(
        node_record::load_edges(&layout, record, new).map(|list| list.to_vec()),
        Some(vec![id(7, 0)])
    );
    assert_eq!(node_record::load_vector(&layout, record, old), None);
    assert!(!node_record::store_vector(&layout, record, old, &bits(&[1.0, 1.0])));
    node_record::append_edges(&layout, record, old, &[id(8, 0)]);
    node_record::store_edges(&layout, record, old, &fit_edges(&[id(9, 0)], 2));
    assert_eq!(store.edges(id(2, 0)), Some(vec![id(7, 0)]));
    assert_eq!(store.vectors(&[id(2, 0)]), vec![Some(vec![0.0, 0.0])]);
}

#[test]
fn slots_come_back_last_in_first_out() {
    let mut slots = Slots::new(3);
    assert_eq!(slots.take(), Ok(0));
    assert_eq!(slots.take(), Ok(1));
    slots.put(0);
    slots.put(1);
    assert_eq!(slots.take(), Ok(1));
    assert_eq!(slots.take(), Ok(0));
    assert_eq!(slots.take(), Ok(2));
    assert_eq!(slots.take(), Err(BackendError::Full { records: 3 }));
}

#[test]
fn a_released_node_gives_up_its_claim() {
    let mut table = NodeTable::new(1);
    assert_eq!(table.claim((1, 2)), Ok(0));
    assert_eq!(table.node((1, 2)), Some(Node::Live(0)));
    table.release((1, 2), 0);
    assert_eq!(table.node((1, 2)), None);
    assert_eq!(table.claim((1, 3)), Ok(0));
    table.release((1, 2), 0);
    assert_eq!(
        table.claim((1, 2)),
        Err(StoreError::Backend(BackendError::Full { records: 1 }))
    );
}

#[test]
fn clearing_says_what_it_came_to() {
    let mut table = NodeTable::new(4);
    assert_eq!(table.clear((1, 2)), Cleared::Absent);
    table.claim((1, 2)).unwrap();
    assert_eq!(table.clear((1, 2)), Cleared::Live(0));
    table.mark_dead((1, 2)).unwrap();
    assert_eq!(table.clear((1, 2)), Cleared::Reaped(0));
    assert_eq!(table.slots_of(1, &[2]), vec![None]);
}

#[test]
fn a_record_is_whole_pages() {
    assert_eq!(Layout::new(2, 3).record, 4096);
    // 24 + 8 * 1 + 4 * 1016 fills a page exactly.
    assert_eq!(Layout::new(1016, 1).record, 4096);
    assert_eq!(Layout::new(1017, 1).record, 8192);
    assert!(Layout::fits(1016, 1, 4));
    assert!(!Layout::fits(usize::MAX, 1, 1));
    assert!(!Layout::fits(1, usize::MAX, 1));
    assert!(!Layout::fits(1, 1, usize::MAX));
}

#[test]
fn spans_lie_end_to_end() {
    let layout = Layout::new(5, 3);
    assert_eq!(layout.header(), Span { offset: 0, len: 24 });
    assert_eq!(layout.edges(2), Span { offset: 24, len: 16 });
    assert_eq!(layout.edges(9), Span { offset: 24, len: 24 });
    assert_eq!(layout.vector(9), Span { offset: 48, len: 20 });
    assert_eq!(layout.vector(1), Span { offset: 48, len: 4 });
    assert_eq!(layout.offset(3), 3 * 4096);
}

#[test]
fn records_of_a_file_do_not_overlap() {
    let store = store_holding(5, 3, 2).store;
    let mapping = store.mapping;
    assert_eq!(mapping.record_range(0), Some(Span { offset: 0, len: 4096 }));
    assert_eq!(mapping.record_range(1), Some(Span { offset: 4096, len: 4096 }));
    assert_eq!(mapping.record_range(2), None);
    assert_eq!(mapping.vector_range(1), Some(Span { offset: 4096 + 48, len: 20 }));
    assert_eq!(mapping.vector_range(2), None);
    assert_eq!(stripe(1025), 1);
    assert_eq!(STRIPES, 1024);
}

#[test]
fn a_record_is_laid_out_in_little_endian() {
    let layout = Layout::new(2, 3);
    let mut bytes = vec![0u8; layout.record];
    let header = Header {
        owner: 0x0102030405060708,
        partition_id: 0x1112131415161718,
        n_edges: 0,
        pad: 7,
    };
    record::set_header(&layout, &mut bytes, header);
    record::set_edges(&layout, &mut bytes, &[1, 0x0a0b0c0d0e0f0001, 3, 4]);
    record::set_vector(&layout, &mut bytes, &bits(&[1.0, -2.0]));
    assert_eq!(
        &bytes[..8],
        &[0x08, 0x07, 0x06, 0x05, 0x04, 0x03, 0x02, 0x01]
    );
    assert_eq!(
        &bytes[8..16],
        &[0x18, 0x17, 0x16, 0x15, 0x14, 0x13, 0x12, 0x11]
    );
    assert_eq!(&bytes[16..24], &[3, 0, 0, 0, 7, 0, 0, 0]);
    assert_eq!(
        &bytes[32..40],
        &[0x01, 0x00, 0x0f, 0x0e, 0x0d, 0x0c, 0x0b, 0x0a]
    );
    assert_eq!(&bytes[48..52], &1.0f32.to_le_bytes());
    assert_eq!(&bytes[52..56], &(-2.0f32).to_le_bytes());

    assert_eq!(record::header(&layout, &bytes), Header { n_edges: 3, ..header });
    assert_eq!(header.key(), (0x1112131415161718, 0x0102030405060708));
    assert_eq!(record::edges(&layout, &bytes), vec![1, 0x0a0b0c0d0e0f0001, 3]);
    assert_eq!(record::vector(&layout, &bytes), bits(&[1.0, -2.0]));

    // A shorter vector replaces the first components only.
    record::set_vector(&layout, &mut bytes, &bits(&[4.0]));
    assert_eq!(record::vector(&layout, &bytes), bits(&[4.0, -2.0]));
}

#[test]
fn a_write_leaves_every_other_byte() {
    let layout = Layout::new(2, 3);
    let mut bytes: Vec<u8> = (0..layout.record).map(|i| i as u8 | 0x80).collect();
    let before = bytes.clone();

    record::set_edges(&layout, &mut bytes, &[5]);
    assert_eq!(&bytes[..16], &before[..16]);
    assert_eq!(&bytes[16..20], &[1, 0, 0, 0]);
    assert_eq!(&bytes[20..24], &before[20..24]);
    assert_eq!(&bytes[24..32], &5u64.to_le_bytes());
    assert_eq!(&bytes[32..], &before[32..]);

    let before = bytes.clone();
    record::set_vector(&layout, &mut bytes, &[7]);
    assert_eq!(&bytes[..48], &before[..48]);
    assert_eq!(&bytes[48..52], &7u32.to_le_bytes());
    assert_eq!(&bytes[52..], &before[52..]);

    let before = bytes.clone();
    node_record::name_record(&layout, &mut bytes, (4, 5));
    assert_eq!(&bytes[24..], &before[24..]);
}

#[test]
fn a_copy_stops_at_the_shorter_of_the_two() {
    let source = vec![1u8, 2, 3, 4, 5];
    let mut out = vec![9u8; 4];
    record::read(&source, Span { offset: 1, len: 2 }, &mut out);
    assert_eq!(out, vec![2, 3, 9, 9]);
    record::read(&source, Span { offset: 0, len: 5 }, &mut out);
    assert_eq!(out, vec![1, 2, 3, 4]);

    let mut target = vec![0u8; 5];
    record::write(&mut target, Span { offset: 2, len: 2 }, &[7, 8, 9]);
    assert_eq!(target, vec![0, 0, 7, 8, 0]);
    record::write(&mut target, Span { offset: 0, len: 5 }, &[1]);
    assert_eq!(target, vec![1, 0, 7, 8, 0]);
}

#[test]
fn lists_of_edges_are_unique_and_short() {
    assert_eq!(fit_edges(&[3, 1, 3, 2], 2).to_vec(), vec![3, 1]);
    assert_eq!(join_edges(&[3, 1], &[1, 2, 4], 3).to_vec(), vec![3, 1, 2]);
    assert!(all_unique(&[1, 2, 3]));
    assert!(!all_unique(&[1, 2, 1]));
    assert!(all_unique(&[]));
}

#[test]
fn records_begin_at_a_page() {
    let layout = Layout::new(3000, 5);
    assert_eq!(layout.record, 3 * 4096);
    assert_eq!(layout.offset(7) % 4096, 0);
}

#[test]
fn abandoning_undoes_a_creation() {
    let mut store = store(2, 2);
    store.create(id(1, 0)).unwrap();
    store.create(id(2, 0)).unwrap();
    let slot = store.slot_of(id(2, 0));
    store.abandon(id(2, 0));
    assert!(store.is_live(id(1, 0)));
    store.create(id(3, 0)).unwrap();
    assert_eq!(store.slot_of(id(3, 0)), slot);
}

#[test]
fn two_claims_cannot_both_win() {
    let mut table = NodeTable::new(4);
    assert_eq!(table.claim((1, 2)), Ok(0));
    assert_eq!(table.claim((1, 2)), Err(StoreError::Conflict));
    // The same row of another partition is another node.
    assert_eq!(table.claim((2, 2)), Ok(1));
    assert!(table.is_live((1, 2)));
    assert!(table.is_live((2, 2)));
    assert_eq!(table.slots_of(1, &[3, 2]), vec![None, Some(0)]);
}

#[test]
fn a_vector_is_stored_in_the_slot_of_its_node() {
    assert_eq!(check_put(2, 2, Some(Node::Live(5))), Ok(5));
    assert_eq!(check_put(2, 2, Some(Node::Dead(6))), Ok(6));
    assert_eq!(check_put(2, 2, None), Err(PutError::NotANode));
    assert_eq!(
        check_put(1, 2, None),
        Err(PutError::Dimensions { got: 1, expected: 2 })
    );
}

#[test]
fn turns_of_different_users_keep_a_store_sound() {
    let mut store = store(2, 2);
    store.create(id(1, 0)).unwrap();

    // One user remembers the slot; another has the node reaped and its record
    // handed on before the first one gets to write.
    let remembered = store.slot_of(id(1, 0)).unwrap() as usize;
    store.mark_dead(id(1, 0)).unwrap();
    store.clear(id(1, 0));
    store.create(id(2, 0)).unwrap();
    store.put(id(2, 0), &[1.0, 2.0]).unwrap();

    let layout = store.store.mapping.layout;
    let record = store
        .store
        .mapping
        .record_mut(&mut store.file, remembered)
        .unwrap();
    node_record::append_edges(&layout, record, (part(), id(1, 0)), &[id(9, 0)]);
    assert!(node_record::check_sound(&layout, record));
    assert_eq!(store.edges(id(2, 0)), Some(vec![]));
    assert_eq!(store.vectors(&[id(2, 0)]), vec![Some(vec![1.0, 2.0])]);
}

#[test]
fn setting_and_appending_is_setting_both() {
    let lists: [&[PrimaryId]; 4] = [&[], &[3, 1, 3], &[1, 2, 4, 5, 6], &[7, 3]];
    for a in lists {
        for b in lists {
            let mut store = store(1, 4);
            store.create(1).unwrap();
            store.create(2).unwrap();
            store.set(1, a);
            store.append(1, b);
            store.set(2, &[a, b].concat());
            let edges = store.edges(1);
            assert_eq!(edges, store.edges(2));
            store.append(1, b);
            assert_eq!(edges, store.edges(1));
        }
    }
}

#[test]
fn a_header_counts_its_edges_and_is_padded_with_zero() {
    let layout = Layout::new(2, 2);
    let mut bytes = vec![0xffu8; layout.record];
    node_record::name_record(&layout, &mut bytes, (4, 5));
    let named = Header { owner: 5, partition_id: 4, n_edges: 0, pad: 0 };
    assert_eq!(record::header(&layout, &bytes), named);
    record::set_edges(&layout, &mut bytes, &[1, 2, 3]);
    assert_eq!(record::header(&layout, &bytes), Header { n_edges: 2, ..named });
    node_record::store_edges(&layout, &mut bytes, (4, 5), &fit_edges(&[9], 2));
    assert_eq!(record::header(&layout, &bytes), Header { n_edges: 1, ..named });
}
