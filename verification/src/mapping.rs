//! The node file: one record per slot, end to end.

use crate::layout::law_slots_do_not_overlap;
use crate::layout::Layout;
use crate::layout::Span;
use vstd::arithmetic::mul::lemma_mul_inequality;
use vstd::prelude::*;
use vstd::slice::slice_subrange;

verus! {

/// The shape of the node file, which is sized once.
#[derive(Debug, Clone, Copy, PartialEq, Eq, Structural)]
pub struct Mapping {
    pub layout: Layout,
    pub records: usize,
}

impl Mapping {
    /// The file can be mapped whole.
    pub open spec fn wf(self) -> bool {
        &&& self.layout.wf()
        &&& self.layout.record <= isize::MAX
        &&& self.records * self.layout.record <= isize::MAX
    }

    /// The bytes are a file of this shape.
    pub open spec fn is_file(self, file: Seq<u8>) -> bool {
        self.wf() && file.len() == self.records * self.layout.record
    }

    /// The bytes of the record at `slot`.
    pub open spec fn slot_bytes(self, file: Seq<u8>, slot: int) -> Seq<u8> {
        file.subrange(slot * self.layout.record, slot * self.layout.record + self.layout.record)
    }

    /// The file with the record at `slot` replaced.
    pub open spec fn replaced(self, file: Seq<u8>, slot: int, record: Seq<u8>) -> Seq<u8> {
        file.subrange(0, slot * self.layout.record) + record + file.subrange(
            slot * self.layout.record + self.layout.record,
            file.len() as int,
        )
    }

    /// How long the file is.
    pub fn file_len(&self) -> (len: usize)
        requires
            self.wf(),
        ensures
            len == self.records * self.layout.record,
    {
        self.records * self.layout.record
    }

    /// Where the record of `slot` is, or `None` if the file has no such slot.
    pub fn record_range(&self, slot: usize) -> (range: Option<Span>)
        requires
            self.wf(),
        ensures
            match range {
                Some(range) => {
                    &&& slot < self.records
                    &&& range.offset == slot * self.layout.record
                    &&& range.len == self.layout.record
                    &&& range.end() <= self.records * self.layout.record
                },
                None => slot >= self.records,
            },
    {
        if slot < self.records {
            proof {
                lemma_slot_in_file(*self, slot as int);
            }
            Some(Span { offset: self.layout.offset(slot), len: self.layout.record })
        } else {
            None
        }
    }

    /// Where the vector of `slot` is, or `None` if the file has no such slot.
    pub fn vector_range(&self, slot: usize) -> (range: Option<Span>)
        requires
            self.wf(),
        ensures
            match range {
                Some(range) => {
                    &&& slot < self.records
                    &&& range.offset == slot * self.layout.record + self.layout.vector_offset()
                    &&& range.len == 4 * self.layout.dim
                    &&& range.end() <= slot * self.layout.record + self.layout.record
                },
                None => slot >= self.records,
            },
    {
        match self.record_range(slot) {
            Some(record) => {
                let vector: Span = self.layout.vector(self.layout.dim);
                Some(Span { offset: record.offset + vector.offset, len: vector.len })
            },
            None => None,
        }
    }

    /// The record at `slot`, or `None` if the file has no such slot.
    pub fn record<'a>(&self, file: &'a [u8], slot: usize) -> (record: Option<&'a [u8]>)
        requires
            self.is_file(file@),
        ensures
            match record {
                Some(record) => {
                    &&& slot < self.records
                    &&& record@ == self.slot_bytes(file@, slot as int)
                    &&& record@.len() == self.layout.record
                },
                None => slot >= self.records,
            },
    {
        match self.record_range(slot) {
            Some(range) => Some(slice_subrange(file, range.offset, range.offset + range.len)),
            None => None,
        }
    }

    /// The record at `slot` for writing, or `None` if the file has no such slot.
    pub fn record_mut<'a>(&self, file: &'a mut [u8], slot: usize) -> (record: Option<&'a mut [u8]>)
        requires
            self.is_file(old(file)@),
        ensures
            match record {
                Some(record) => {
                    &&& slot < self.records
                    &&& record@ == self.slot_bytes(old(file)@, slot as int)
                    &&& record@.len() == self.layout.record
                    &&& final(file)@ == self.replaced(old(file)@, slot as int, final(record)@)
                },
                None => slot >= self.records && final(file)@ == old(file)@,
            },
    {
        match self.record_range(slot) {
            Some(range) => {
                let ghost before = file@;
                let (_, tail) = file.split_at_mut(range.offset);
                let (record, _) = tail.split_at_mut(range.len);
                assert(record@ =~= self.slot_bytes(before, slot as int));
                Some(record)
            },
            None => None,
        }
    }
}

/// How many locks the records share: enough that unrelated slots rarely
/// collide, few enough to stay cheap.
pub const STRIPES: usize = 1024;

/// The lock of a record.
pub fn stripe(slot: u32) -> (stripe: usize)
    ensures
        stripe == slot % 1024,
        stripe < STRIPES,
{
    slot as usize % STRIPES
}

/// A slot of the file lies inside it.
pub proof fn lemma_slot_in_file(mapping: Mapping, slot: int)
    requires
        mapping.wf(),
        0 <= slot < mapping.records,
    ensures
        0 <= slot * mapping.layout.record,
        slot * mapping.layout.record + mapping.layout.record <= mapping.records
            * mapping.layout.record,
{
    lemma_mul_inequality(0, slot, mapping.layout.record as int);
    law_slots_do_not_overlap(mapping.layout, slot, mapping.records as int);
}

/// Replacing one record puts the new bytes there, keeps the file's length, and
/// leaves every other record as it was.
pub proof fn law_replacing_a_record_touches_no_other(
    mapping: Mapping,
    file: Seq<u8>,
    slot: int,
    record: Seq<u8>,
)
    requires
        mapping.is_file(file),
        0 <= slot < mapping.records,
        record.len() == mapping.layout.record,
    ensures
        mapping.is_file(mapping.replaced(file, slot, record)),
        mapping.slot_bytes(mapping.replaced(file, slot, record), slot) == record,
        forall|other: int|
            0 <= other < mapping.records && other != slot ==> #[trigger] mapping.slot_bytes(
                mapping.replaced(file, slot, record),
                other,
            ) == mapping.slot_bytes(file, other),
{
    let after = mapping.replaced(file, slot, record);
    lemma_slot_in_file(mapping, slot);
    assert(mapping.slot_bytes(after, slot) =~= record);
    assert forall|other: int| 0 <= other < mapping.records && other != slot implies #[trigger]
        mapping.slot_bytes(after, other) == mapping.slot_bytes(file, other) by {
        lemma_slot_in_file(mapping, other);
        if other < slot {
            law_slots_do_not_overlap(mapping.layout, other, slot);
        } else {
            law_slots_do_not_overlap(mapping.layout, slot, other);
        }
        assert(mapping.slot_bytes(after, other) =~= mapping.slot_bytes(file, other));
    }
}

/// The file has a record for every slot below the number of records and for no
/// other, and is as long as all of them. The record of a slot begins behind those
/// of all slots before it; its vector lies in it, behind the header and the room
/// for all edges.
pub proof fn law_the_file_is_its_records_end_to_end(
    mapping: &Mapping,
    slot: usize,
    len: usize,
    record: Option<Span>,
    vector: Option<Span>,
)
    requires
        mapping.wf(),
        call_ensures(Mapping::file_len, (mapping,), len),
        call_ensures(Mapping::record_range, (mapping, slot), record),
        call_ensures(Mapping::vector_range, (mapping, slot), vector),
    ensures
        len == mapping.records * mapping.layout.record,
        record is Some <==> slot < mapping.records,
        vector is Some <==> slot < mapping.records,
        record matches Some(span) ==> span.offset == slot * mapping.layout.record && span.len
            == mapping.layout.record && span.offset + span.len <= len,
        vector matches Some(span) ==> span.offset == slot * mapping.layout.record + 24 + 8
            * mapping.layout.max_degree && span.len == 4 * mapping.layout.dim,
{
    if slot < mapping.records {
        lemma_slot_in_file(*mapping, slot as int);
    }
}

/// Reading a record reads the bytes of its slot, in order.
pub proof fn law_a_record_is_the_bytes_of_its_slot(
    mapping: &Mapping,
    file: &[u8],
    slot: usize,
    record: Option<&[u8]>,
    i: int,
)
    requires
        mapping.is_file(file@),
        call_ensures(Mapping::record, (mapping, file, slot), record),
    ensures
        record is Some <==> slot < mapping.records,
        record matches Some(record) ==> {
            &&& record@.len() == mapping.layout.record
            &&& 0 <= i < record@.len() ==> record@[i] == file@[slot * mapping.layout.record + i]
        },
{
    if slot < mapping.records {
        lemma_slot_in_file(*mapping, slot as int);
    }
}

/// Writing a record writes the bytes of its slot, in order, and no other byte of
/// the file.
pub proof fn law_writing_a_record_writes_the_bytes_of_its_slot(
    mapping: &Mapping,
    file: &mut [u8],
    slot: usize,
    record: Option<&mut [u8]>,
    i: int,
)
    requires
        mapping.is_file(old(file)@),
        call_ensures(Mapping::record_mut, (mapping, file, slot), record),
        record matches Some(record) ==> final(record)@.len() == record@.len(),
        0 <= i < old(file)@.len(),
    ensures
        record is Some <==> slot < mapping.records,
        final(file)@.len() == old(file)@.len(),
        match record {
            Some(record) => {
                let start = slot * mapping.layout.record;
                &&& record@.len() == mapping.layout.record
                &&& if start <= i < start + mapping.layout.record {
                    &&& record@[i - start] == old(file)@[i]
                    &&& final(file)@[i] == final(record)@[i - start]
                } else {
                    final(file)@[i] == old(file)@[i]
                }
            },
            None => final(file)@[i] == old(file)@[i],
        },
{
    if slot < mapping.records {
        lemma_slot_in_file(*mapping, slot as int);
    }
}

/// There are 1024 locks, each record has one of them, and no two records that are
/// fewer than 1024 slots apart share one.
pub proof fn law_neighbouring_records_have_locks_of_their_own(
    a: u32,
    b: u32,
    of_a: usize,
    of_b: usize,
)
    requires
        call_ensures(stripe, (a,), of_a),
        call_ensures(stripe, (b,), of_b),
        a < b < a + 1024,
    ensures
        of_a < 1024,
        of_b < 1024,
        of_a != of_b,
{
}

} // verus!
