//! A record as the node that owns it sees it.
//!
//! A slot can be reaped and handed out again between the moment a reader looks
//! it up and the moment it reaches the record. The record names its owner, so
//! such a reader finds another name on it and treats its node as gone.

use crate::adjacency::all_unique;
use crate::adjacency::extended;
use crate::adjacency::goes_on_with;
use crate::adjacency::join_edges;
use crate::adjacency::law_extending_is_a_union;
use crate::adjacency::lemma_extended_goes_on;
use crate::adjacency::lemma_shortened_goes_on;
use crate::adjacency::list_ids;
use crate::adjacency::list_with_capacity;
use crate::adjacency::listed;
use crate::adjacency::overwrite_list;
use crate::adjacency::shortened;
use crate::layout::at_most;
use crate::layout::Layout;
use crate::record;
use crate::record::edges_in;
use crate::record::edges_written;
use crate::record::header_in;
use crate::record::is_record;
use crate::record::kept;
use crate::record::owner_of;
use crate::record::patched;
use crate::record::vector_in;
use crate::record::vector_written;
use crate::record::Header;
use crate::record::Key;
use crate::record::PrimaryId;
use diskann::graph::AdjacencyList;
use vstd::prelude::*;

verus! {

/// What a record holds.
#[verifier::ext_equal]
pub struct RecordView {
    pub owner: Key,
    pub n_edges: u32,
    pub pad: u32,
    pub edges: Seq<PrimaryId>,
    pub vector: Seq<u32>,
}

impl RecordView {
    /// The record once it is given a name: it has no edges.
    pub open spec fn named(self, key: Key) -> RecordView {
        RecordView { owner: key, n_edges: 0, pad: 0, edges: Seq::empty(), ..self }
    }

    /// The record once it holds these edges, and counts them.
    pub open spec fn with_edges(self, edges: Seq<PrimaryId>) -> RecordView {
        RecordView { n_edges: edges.len() as u32, edges, ..self }
    }

    /// The record once it holds this vector.
    pub open spec fn with_vector(self, vector: Seq<u32>) -> RecordView {
        RecordView { vector, ..self }
    }
}

/// What the bytes of a record hold.
pub open spec fn record_view(layout: Layout, record: Seq<u8>) -> RecordView {
    RecordView {
        owner: owner_of(record),
        n_edges: header_in(record).n_edges,
        pad: header_in(record).pad,
        edges: edges_in(layout, record),
        vector: vector_in(layout, record),
    }
}

/// The bytes belong to a record of this layout, and no edge of it occurs twice.
pub open spec fn is_sound(layout: Layout, record: Seq<u8>) -> bool {
    is_record(layout, record) && edges_in(layout, record).no_duplicates()
}

/// The edges that a record keeps of a list that is to be stored: each once, no
/// more than the maximum degree.
pub open spec fn fitted(layout: Layout, edges: Seq<PrimaryId>) -> Seq<PrimaryId> {
    kept(layout, extended(Seq::empty(), edges))
}

/// Whether no edge of a record occurs twice.
pub fn check_sound(layout: &Layout, record: &[u8]) -> (sound: bool)
    requires
        is_record(*layout, record@),
    ensures
        sound == is_sound(*layout, record@),
{
    all_unique(record::edges(layout, record).as_slice())
}

/// Whether `key` still owns the record.
pub fn owned(layout: &Layout, record: &[u8], key: Key) -> (owned: bool)
    requires
        is_record(*layout, record@),
    ensures
        owned == (record_view(*layout, record@).owner == key),
{
    let owner: Key = record::header(layout, record).key();
    owner.0 == key.0 && owner.1 == key.1
}

/// Put the name of a node on the record and leave it with no edges.
pub fn name_record(layout: &Layout, record: &mut [u8], key: Key)
    requires
        is_record(*layout, old(record)@),
    ensures
        is_sound(*layout, final(record)@),
        final(record)@ == patched(
            old(record)@,
            0,
            (Header { owner: key.1, partition_id: key.0, n_edges: 0, pad: 0 }).bytes(),
        ),
        header_in(final(record)@) == (Header {
            owner: key.1,
            partition_id: key.0,
            n_edges: 0,
            pad: 0,
        }),
        record_view(*layout, final(record)@) == record_view(
            *layout,
            old(record)@,
        ).named(key),
{
    record::set_header(
        layout,
        record,
        Header { owner: key.1, partition_id: key.0, n_edges: 0, pad: 0 },
    );
    assert(edges_in(*layout, record@) =~= Seq::<PrimaryId>::empty());
}

/// The edges of `key`, if it still owns the record.
pub fn load_edges(layout: &Layout, record: &[u8], key: Key) -> (list: Option<AdjacencyList<u64>>)
    requires
        is_sound(*layout, record@),
    ensures
        match list {
            Some(list) => {
                &&& record_view(*layout, record@).owner == key
                &&& listed(list) == record_view(*layout, record@).edges
            },
            None => record_view(*layout, record@).owner != key,
        },
{
    if owned(layout, record, key) {
        proof {
            lemma_list_fits(*layout);
        }
        let mut list = list_with_capacity(layout.max_degree);
        overwrite_list(&mut list, record::edges(layout, record).as_slice());
        Some(list)
    } else {
        None
    }
}

/// Store the edges of `key`, unless it does not own the record any more.
pub fn store_edges(layout: &Layout, record: &mut [u8], key: Key, list: &AdjacencyList<u64>)
    requires
        is_record(*layout, old(record)@),
    ensures
        is_record(*layout, final(record)@),
        record_view(*layout, old(record)@).owner == key ==> record_view(*layout, final(record)@)
            == record_view(*layout, old(record)@).with_edges(kept(*layout, listed(*list))),
        record_view(*layout, old(record)@).owner == key ==> final(record)@ == edges_written(
            *layout,
            old(record)@,
            listed(*list),
        ),
        record_view(*layout, old(record)@).owner != key ==> final(record)@ == old(record)@,
        is_sound(*layout, old(record)@) && listed(*list).no_duplicates() ==> is_sound(
            *layout,
            final(record)@,
        ),
{
    if owned(layout, record, key) {
        record::set_edges(layout, record, list_ids(list));
    }
}

/// Add edges to those of `key`, as far as there is room, unless it does not
/// own the record any more.
pub fn append_edges(layout: &Layout, record: &mut [u8], key: Key, edges: &[PrimaryId])
    requires
        is_sound(*layout, old(record)@),
    ensures
        is_sound(*layout, final(record)@),
        record_view(*layout, old(record)@).owner == key ==> record_view(*layout, final(record)@)
            == record_view(*layout, old(record)@).with_edges(
            kept(*layout, extended(record_view(*layout, old(record)@).edges, edges@)),
        ),
        record_view(*layout, old(record)@).owner == key ==> final(record)@ == edges_written(
            *layout,
            old(record)@,
            shortened(
                extended(record_view(*layout, old(record)@).edges, edges@),
                layout.max_degree as int,
            ),
        ),
        record_view(*layout, old(record)@).owner != key ==> final(record)@ == old(record)@,
{
    if owned(layout, record, key) {
        proof {
            lemma_list_fits(*layout);
        }
        let present: Vec<PrimaryId> = record::edges(layout, record);
        let list = join_edges(present.as_slice(), edges, layout.max_degree);
        record::set_edges(layout, record, list_ids(&list));
        proof {
            law_extending_is_a_union(present@, edges@);
            lemma_kept_of_shortened(*layout, extended(present@, edges@));
        }
    }
}

/// The vector of `key`, if it still owns the record.
pub fn load_vector(layout: &Layout, record: &[u8], key: Key) -> (vector: Option<Vec<u32>>)
    requires
        is_record(*layout, record@),
    ensures
        match vector {
            Some(vector) => {
                &&& record_view(*layout, record@).owner == key
                &&& vector@ == record_view(*layout, record@).vector
                &&& vector@.len() == layout.dim
            },
            None => record_view(*layout, record@).owner != key,
        },
{
    if owned(layout, record, key) {
        Some(record::vector(layout, record))
    } else {
        None
    }
}

/// Store the vector of `key`, and say whether it still owns the record.
pub fn store_vector(layout: &Layout, record: &mut [u8], key: Key, vector: &[u32]) -> (stored: bool)
    requires
        is_record(*layout, old(record)@),
        vector@.len() == layout.dim,
    ensures
        stored == (record_view(*layout, old(record)@).owner == key),
        is_record(*layout, final(record)@),
        stored ==> final(record)@ == vector_written(*layout, old(record)@, vector@),
        stored ==> record_view(*layout, final(record)@) == record_view(
            *layout,
            old(record)@,
        ).with_vector(vector@),
        !stored ==> final(record)@ == old(record)@,
        is_sound(*layout, old(record)@) ==> is_sound(*layout, final(record)@),
{
    let ghost before = record@;
    let stored: bool = owned(layout, record, key);
    if stored {
        record::set_vector(layout, record, vector);
        proof {
            let n = layout.dim as int;
            assert(vector_in(*layout, before).len() == n);
            assert(vector@.take(n) + vector_in(*layout, before).skip(n) =~= vector@);
        }
    }
    stored
}

/// A list with room for every edge of a record can be allocated.
proof fn lemma_list_fits(layout: Layout)
    requires
        layout.wf(),
        layout.record <= isize::MAX,
    ensures
        layout.max_degree * 8 <= isize::MAX,
{
}

/// Cutting a list to the maximum degree first changes nothing of what is kept.
pub proof fn lemma_kept_of_shortened(layout: Layout, edges: Seq<PrimaryId>)
    ensures
        kept(layout, shortened(edges, layout.max_degree as int)) == kept(layout, edges),
        edges.no_duplicates() ==> kept(layout, edges).no_duplicates(),
{
    let n = at_most(edges.len() as int, layout.max_degree as int);
    let short = shortened(edges, layout.max_degree as int);
    assert(at_most(short.len() as int, layout.max_degree as int) == n);
    assert(short.take(n % 0x1_0000_0000) =~= edges.take(n % 0x1_0000_0000));
}

/// What one who looks for `key` finds on a record: the edges and the vector, if
/// the record still belongs to `key`.
pub open spec fn is_found(
    layout: &Layout,
    record: Seq<u8>,
    key: Key,
    edges: Option<Seq<PrimaryId>>,
    vector: Option<Seq<u32>>,
) -> bool {
    exists|bytes: &[u8], list: Option<AdjacencyList<u64>>, held: Option<Vec<u32>>|
        {
            &&& bytes@ == record
            &&& #[trigger] call_ensures(load_edges, (layout, bytes, key), list)
            &&& #[trigger] call_ensures(load_vector, (layout, bytes, key), held)
            &&& edges == (match list {
                Some(list) => Some(listed(list)),
                None => None,
            })
            &&& vector == (match held {
                Some(held) => Some(held@),
                None => None,
            })
        }
}

/// What is found on a record, in terms of its bytes.
proof fn lemma_found(
    layout: &Layout,
    record: Seq<u8>,
    key: Key,
    edges: Option<Seq<PrimaryId>>,
    vector: Option<Seq<u32>>,
)
    requires
        is_found(layout, record, key, edges, vector),
    ensures
        edges is Some <==> record_view(*layout, record).owner == key,
        vector is Some <==> record_view(*layout, record).owner == key,
        edges matches Some(edges) ==> edges == record_view(*layout, record).edges,
        vector matches Some(vector) ==> vector == record_view(*layout, record).vector,
{
}

/// What is found on a record is its edges and its vector as its bytes hold them,
/// by the one who is named by the header, and nothing by anyone else.
pub proof fn law_a_record_answers_to_the_name_on_it_only(
    layout: &Layout,
    record: &[u8],
    key: Key,
    header: Header,
    held_edges: Vec<PrimaryId>,
    held_vector: Vec<u32>,
    edges: Option<Seq<PrimaryId>>,
    vector: Option<Seq<u32>>,
    owned: bool,
)
    requires
        is_sound(*layout, record@),
        call_ensures(self::owned, (layout, record, key), owned),
        call_ensures(record::header, (layout, record), header),
        call_ensures(record::edges, (layout, record), held_edges),
        call_ensures(record::vector, (layout, record), held_vector),
        is_found(layout, record@, key, edges, vector),
    ensures
        if header.partition_id == key.0 && header.owner == key.1 {
            &&& owned
            &&& edges == Some(held_edges@)
            &&& vector == Some(held_vector@)
        } else {
            &&& !owned
            &&& edges is None
            &&& vector is None
        },
{
    lemma_found(layout, record@, key, edges, vector);
}

/// A record that is given a name answers to that name, without edges and with the
/// vector that was on it, and to no other name any more.
pub proof fn law_a_named_record_answers_to_its_new_name_only(
    layout: &Layout,
    record: &mut [u8],
    key: Key,
    former: Key,
    vector: Option<Seq<u32>>,
    edges_after: Option<Seq<PrimaryId>>,
    vector_after: Option<Seq<u32>>,
    other: Key,
    edges_other: Option<Seq<PrimaryId>>,
    vector_other: Option<Seq<u32>>,
    edges_former: Option<Seq<PrimaryId>>,
    i: int,
)
    requires
        is_record(*layout, old(record)@),
        call_ensures(name_record, (layout, record, key), ()),
        is_found(layout, old(record)@, former, edges_former, vector),
        is_found(layout, final(record)@, key, edges_after, vector_after),
        other != key,
        is_found(layout, final(record)@, other, edges_other, vector_other),
    ensures
        edges_after == Some(Seq::<PrimaryId>::empty()),
        vector is Some ==> vector_after == vector,
        edges_other is None,
        vector_other is None,
        final(record)@.len() == old(record)@.len(),
        24 <= i < old(record)@.len() ==> final(record)@[i] == old(record)@[i],
{
    lemma_found(layout, old(record)@, former, edges_former, vector);
    lemma_found(layout, final(record)@, key, edges_after, vector_after);
    lemma_found(layout, final(record)@, other, edges_other, vector_other);
    record::lemma_header_comes_back(
        Header { owner: key.1, partition_id: key.0, n_edges: 0, pad: 0 },
        Seq::empty(),
    );
}

/// Edges that are stored by the owner of a record are found by it, the first of
/// them if there are more than the maximum degree, and its vector stays. Stored by
/// anyone else they change nothing.
pub proof fn law_stored_edges_are_found_by_the_owner(
    layout: &Layout,
    record: &mut [u8],
    key: Key,
    list: &AdjacencyList<u64>,
    edges: Option<Seq<PrimaryId>>,
    vector: Option<Seq<u32>>,
    edges_after: Option<Seq<PrimaryId>>,
    vector_after: Option<Seq<u32>>,
)
    requires
        is_sound(*layout, old(record)@),
        layout.max_degree <= u32::MAX,
        listed(*list).no_duplicates(),
        call_ensures(store_edges, (layout, record, key, list), ()),
        is_found(layout, old(record)@, key, edges, vector),
        is_found(layout, final(record)@, key, edges_after, vector_after),
    ensures
        edges is None ==> final(record)@ == old(record)@,
        edges is Some ==> edges_after == Some(
            if listed(*list).len() <= layout.max_degree {
                listed(*list)
            } else {
                listed(*list).take(layout.max_degree as int)
            },
        ),
        vector_after == vector,
{
    lemma_found(layout, old(record)@, key, edges, vector);
    lemma_found(layout, final(record)@, key, edges_after, vector_after);
    let ids = listed(*list);
    assert(ids.take(ids.len() as int) =~= ids);
}

/// Edges that are appended by the owner of a record are found by it behind those
/// that were there, each where it is first met, as far as there is room; its
/// vector stays. Appended by anyone else they change nothing.
pub proof fn law_appended_edges_are_found_behind_the_others(
    layout: &Layout,
    record: &mut [u8],
    key: Key,
    more: &[PrimaryId],
    edges: Option<Seq<PrimaryId>>,
    vector: Option<Seq<u32>>,
    edges_after: Option<Seq<PrimaryId>>,
    vector_after: Option<Seq<u32>>,
)
    requires
        is_sound(*layout, old(record)@),
        layout.max_degree <= u32::MAX,
        call_ensures(append_edges, (layout, record, key, more), ()),
        is_found(layout, old(record)@, key, edges, vector),
        is_found(layout, final(record)@, key, edges_after, vector_after),
    ensures
        edges is None ==> final(record)@ == old(record)@,
        edges matches Some(edges) ==> (edges_after matches Some(after) && {
            &&& after.no_duplicates()
            &&& after.len() <= layout.max_degree
            &&& edges.is_prefix_of(after)
            &&& goes_on_with(after, edges.len() as int, more@)
            &&& after.len() < layout.max_degree ==> forall|i: int|
                0 <= i < more@.len() ==> after.contains(#[trigger] more@[i])
        }),
        vector_after == vector,
{
    lemma_found(layout, old(record)@, key, edges, vector);
    lemma_found(layout, final(record)@, key, edges_after, vector_after);
    if let Some(edges) = edges {
        lemma_appended(*layout, edges, more@);
    }
}

/// What a record keeps of its edges and others.
pub proof fn lemma_appended(layout: Layout, edges: Seq<PrimaryId>, more: Seq<PrimaryId>)
    requires
        edges.no_duplicates(),
        edges.len() <= layout.max_degree <= u32::MAX,
    ensures
        ({
            let after = kept(layout, extended(edges, more));
            &&& after.no_duplicates()
            &&& after.len() <= layout.max_degree
            &&& edges.is_prefix_of(after)
            &&& goes_on_with(after, edges.len() as int, more)
            &&& after.len() < layout.max_degree ==> forall|i: int|
                0 <= i < more.len() ==> after.contains(#[trigger] more[i])
        }),
{
    let whole = extended(edges, more);
    let after = kept(layout, whole);
    law_extending_is_a_union(edges, more);
    lemma_extended_goes_on(edges, more);
    lemma_shortened_goes_on(whole, edges.len() as int, more, layout.max_degree as int);
    lemma_kept_of_shortened(layout, whole);
    assert(after =~= shortened(whole, layout.max_degree as int));
    assert(edges =~= after.subrange(0, edges.len() as int));
    assert forall|i: int|
        0 <= i < more.len() && after.len() < layout.max_degree implies after.contains(
        #[trigger] more[i],
    ) by {
        assert(more.contains(more[i]));
        assert(after =~= whole);
    }
}

/// A vector that is stored by the owner of a record is found by it, and its edges
/// stay. Stored by anyone else it changes nothing, and that is said.
pub proof fn law_a_stored_vector_is_found_by_the_owner(
    layout: &Layout,
    record: &mut [u8],
    key: Key,
    stored_vector: &[u32],
    stored: bool,
    edges: Option<Seq<PrimaryId>>,
    vector: Option<Seq<u32>>,
    edges_after: Option<Seq<PrimaryId>>,
    vector_after: Option<Seq<u32>>,
)
    requires
        is_sound(*layout, old(record)@),
        stored_vector@.len() == layout.dim,
        call_ensures(store_vector, (layout, record, key, stored_vector), stored),
        is_found(layout, old(record)@, key, edges, vector),
        is_found(layout, final(record)@, key, edges_after, vector_after),
    ensures
        stored <==> vector is Some,
        !stored ==> final(record)@ == old(record)@,
        stored ==> vector_after == Some(stored_vector@),
        edges_after == edges,
{
    lemma_found(layout, old(record)@, key, edges, vector);
    lemma_found(layout, final(record)@, key, edges_after, vector_after);
}

/// A record is sound exactly if none of the edges that are read from it occurs
/// twice.
pub proof fn law_a_sound_record_repeats_no_edge(
    layout: &Layout,
    record: &[u8],
    sound: bool,
    edges: Vec<PrimaryId>,
)
    requires
        is_record(*layout, record@),
        call_ensures(check_sound, (layout, record), sound),
        call_ensures(record::edges, (layout, record), edges),
    ensures
        sound <==> edges@.no_duplicates(),
{
}

} // verus!
