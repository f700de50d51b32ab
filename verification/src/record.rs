//! One record of the node file, as the bytes of its slot.

use crate::codec::bytes32;
use crate::codec::bytes64;
use crate::codec::decode_u32s;
use crate::codec::decode_u64s;
use crate::codec::encode_u32s;
use crate::codec::encode_u64s;
use crate::codec::le_bytes;
use crate::codec::le_value;
use crate::codec::lemma_bytes32_take;
use crate::codec::lemma_bytes64_take;
use crate::codec::lemma_decode_encode;
use crate::codec::lemma_encode_decode;
use crate::codec::lemma_le_bytes_digit;
use crate::codec::lemma_le_bytes_len;
use crate::codec::lemma_word_capacities;
use crate::codec::lemma_words32_of_bytes32;
use crate::codec::lemma_words64_of_bytes64;
use crate::codec::u32_from_bytes;
use crate::codec::u32_to_bytes;
use crate::codec::u64_from_bytes;
use crate::codec::u64_to_bytes;
use crate::codec::words32;
use crate::codec::words64;
use crate::codec::chunk4;
use crate::codec::chunk8;
use crate::layout::at_most;
use crate::layout::Layout;
use crate::layout::Span;
use crate::layout::HEADER;
use vstd::arithmetic::power::pow;
use vstd::prelude::*;
use vstd::slice::slice_subrange;

verus! {

/// A partition of the indexed table.
pub type PartitionId = u64;

/// A row of a partition.
pub type PrimaryId = u64;

/// What a node is known by.
pub type Key = (PartitionId, PrimaryId);

/// The first bytes of a record: who owns it and how many edges it holds.
#[derive(Debug, Clone, Copy, PartialEq, Eq, Structural)]
pub struct Header {
    pub owner: u64,
    pub partition_id: u64,
    pub n_edges: u32,
    pub pad: u32,
}

impl Header {
    /// The node that owns the record.
    pub open spec fn owner_key(self) -> Key {
        (self.partition_id, self.owner)
    }

    /// The node that owns the record.
    pub fn key(&self) -> (key: Key)
        ensures
            key == self.owner_key(),
    {
        (self.partition_id, self.owner)
    }

    /// The bytes of the header.
    pub open spec fn bytes(self) -> Seq<u8> {
        le_bytes(self.owner as nat, 8) + le_bytes(self.partition_id as nat, 8) + le_bytes(
            self.n_edges as nat,
            4,
        ) + le_bytes(self.pad as nat, 4)
    }
}

/// The header that the first bytes of a record hold.
pub open spec fn header_in(record: Seq<u8>) -> Header {
    Header {
        owner: le_value(record.subrange(0, 8)) as u64,
        partition_id: le_value(record.subrange(8, 16)) as u64,
        n_edges: le_value(record.subrange(16, 20)) as u32,
        pad: le_value(record.subrange(20, 24)) as u32,
    }
}

/// The node that a record says it belongs to.
pub open spec fn owner_of(record: Seq<u8>) -> Key {
    header_in(record).owner_key()
}

/// How many edges a record of this layout holds.
pub open spec fn edge_count(layout: Layout, record: Seq<u8>) -> int {
    at_most(header_in(record).n_edges as int, layout.max_degree as int)
}

/// The edges that a record holds.
pub open spec fn edges_in(layout: Layout, record: Seq<u8>) -> Seq<PrimaryId> {
    words64(record.subrange(HEADER as int, HEADER + 8 * edge_count(layout, record)))
}

/// The vector that a record holds, component by component.
pub open spec fn vector_in(layout: Layout, record: Seq<u8>) -> Seq<u32> {
    words32(
        record.subrange(layout.vector_offset(), layout.vector_offset() + 4 * layout.dim),
    )
}

/// As many of `edges` as a record keeps: no more than the maximum degree, and
/// their number is kept in 32 bits.
pub open spec fn kept(layout: Layout, edges: Seq<PrimaryId>) -> Seq<PrimaryId> {
    edges.take(at_most(edges.len() as int, layout.max_degree as int) % 0x1_0000_0000)
}

/// The bytes belong to a record of this layout, which is no longer than a
/// slice can be.
pub open spec fn is_record(layout: Layout, record: Seq<u8>) -> bool {
    layout.wf() && record.len() == layout.record && layout.record <= isize::MAX
}

/// `record` with `bytes` copied to `offset`.
pub open spec fn patched(record: Seq<u8>, offset: int, bytes: Seq<u8>) -> Seq<u8> {
    record.subrange(0, offset) + bytes + record.subrange(
        offset + bytes.len(),
        record.len() as int,
    )
}

/// A record once edges are written to it: their number in the header, then as
/// many of them as there is room for. Every other byte stays.
pub open spec fn edges_written(layout: Layout, record: Seq<u8>, edges: Seq<PrimaryId>) -> Seq<u8> {
    let count = at_most(edges.len() as int, layout.max_degree as int);
    let header = Header { n_edges: (count % 0x1_0000_0000) as u32, ..header_in(record) };
    patched(patched(record, 0, header.bytes()), HEADER as int, bytes64(edges.take(count)))
}

/// A record once the first components of its vector are written. Every other
/// byte stays.
pub open spec fn vector_written(layout: Layout, record: Seq<u8>, vector: Seq<u32>) -> Seq<u8> {
    let count = at_most(vector.len() as int, layout.dim as int);
    patched(record, layout.vector_offset(), bytes32(vector.take(count)))
}

/// Copy `span` of the record out into `out`, as far as the shorter of the two reaches.
pub fn read(record: &[u8], span: Span, out: &mut [u8])
    requires
        span.end() <= record@.len(),
    ensures
        final(out)@ == patched(
            old(out)@,
            0,
            record@.subrange(
                span.offset as int,
                span.offset + at_most(span.len as int, old(out)@.len() as int),
            ),
        ),
{
    let whole: usize = record.len();
    let room: usize = out.len();
    let len: usize = if span.len <= room {
        span.len
    } else {
        room
    };
    let ghost before = out@;
    for i in 0..len
        invariant
            span.offset + len <= whole,
            whole == record@.len(),
            len <= before.len(),
            out@ == patched(before, 0, record@.subrange(span.offset as int, span.offset + i)),
    {
        let byte: u8 = record[span.offset + i];
        out[i] = byte;
        assert(out@ =~= patched(
            before,
            0,
            record@.subrange(span.offset as int, span.offset + i + 1),
        ));
    }
}

/// Copy `bytes` into `span` of the record, as far as the shorter of the two reaches.
pub fn write(record: &mut [u8], span: Span, bytes: &[u8])
    requires
        span.end() <= old(record)@.len(),
    ensures
        final(record)@ == patched(
            old(record)@,
            span.offset as int,
            bytes@.take(at_most(span.len as int, bytes@.len() as int)),
        ),
{
    let whole: usize = record.len();
    let given: usize = bytes.len();
    let len: usize = if span.len <= given {
        span.len
    } else {
        given
    };
    let ghost before = record@;
    assert(record@ =~= patched(before, span.offset as int, bytes@.take(0)));
    for i in 0..len
        invariant
            span.offset + len <= whole,
            whole == before.len(),
            len <= bytes@.len(),
            record@ == patched(before, span.offset as int, bytes@.take(i as int)),
    {
        let byte: u8 = bytes[i];
        record[span.offset + i] = byte;
        assert(record@ =~= patched(before, span.offset as int, bytes@.take(i + 1)));
    }
}

/// The header of a record.
pub fn header(layout: &Layout, record: &[u8]) -> (header: Header)
    requires
        is_record(*layout, record@),
    ensures
        header == header_in(record@),
{
    let span: Span = layout.header();
    let mut bytes: Vec<u8> = zeros(HEADER);
    read(record, span, bytes.as_mut_slice());
    assert(bytes@ =~= record@.subrange(0, 24));
    assert(bytes@.subrange(0, 8) =~= record@.subrange(0, 8));
    assert(bytes@.subrange(8, 16) =~= record@.subrange(8, 16));
    assert(bytes@.subrange(16, 20) =~= record@.subrange(16, 20));
    assert(bytes@.subrange(20, 24) =~= record@.subrange(20, 24));
    let bytes: &[u8] = bytes.as_slice();
    Header {
        owner: u64_from_bytes(slice_subrange(bytes, 0, 8)),
        partition_id: u64_from_bytes(slice_subrange(bytes, 8, 16)),
        n_edges: u32_from_bytes(slice_subrange(bytes, 16, 20)),
        pad: u32_from_bytes(slice_subrange(bytes, 20, 24)),
    }
}

/// `n` zero bytes.
fn zeros(n: usize) -> (bytes: Vec<u8>)
    ensures
        bytes@ == Seq::new(n as nat, |i: int| 0u8),
{
    let bytes: Vec<u8> = vec![0u8; n];
    assert(bytes@ =~= Seq::new(n as nat, |i: int| 0u8));
    bytes
}

/// A header comes back out of a record that begins with its bytes.
pub proof fn lemma_header_comes_back(header: Header, rest: Seq<u8>)
    ensures
        header.bytes().len() == HEADER,
        header_in(header.bytes() + rest) == header,
{
    lemma_word_capacities();
    let owner = le_bytes(header.owner as nat, 8);
    let partition = le_bytes(header.partition_id as nat, 8);
    let n_edges = le_bytes(header.n_edges as nat, 4);
    let pad = le_bytes(header.pad as nat, 4);
    lemma_le_bytes_len(header.owner as nat, 8);
    lemma_le_bytes_len(header.partition_id as nat, 8);
    lemma_le_bytes_len(header.n_edges as nat, 4);
    lemma_le_bytes_len(header.pad as nat, 4);
    lemma_decode_encode(header.owner as nat, 8);
    lemma_decode_encode(header.partition_id as nat, 8);
    lemma_decode_encode(header.n_edges as nat, 4);
    lemma_decode_encode(header.pad as nat, 4);
    let record = header.bytes() + rest;
    assert(record.subrange(0, 8) =~= owner);
    assert(record.subrange(8, 16) =~= partition);
    assert(record.subrange(16, 20) =~= n_edges);
    assert(record.subrange(20, 24) =~= pad);
}

/// Records that agree on the vector's bytes hold the same vector.
proof fn lemma_vector_in_agrees(layout: Layout, a: Seq<u8>, b: Seq<u8>)
    requires
        is_record(layout, a),
        is_record(layout, b),
        forall|i: int| layout.vector_offset() <= i < a.len() ==> a[i] == b[i],
    ensures
        vector_in(layout, a) == vector_in(layout, b),
{
    let start = layout.vector_offset();
    let end = layout.vector_offset() + 4 * layout.dim;
    assert(a.subrange(start, end) =~= b.subrange(start, end));
}

/// Records that begin with the same bytes have the same header.
proof fn lemma_header_in_agrees(a: Seq<u8>, b: Seq<u8>)
    requires
        a.len() >= HEADER,
        b.len() >= HEADER,
        forall|i: int| 0 <= i < HEADER ==> a[i] == b[i],
    ensures
        header_in(a) == header_in(b),
{
    assert(a.subrange(0, 8) =~= b.subrange(0, 8));
    assert(a.subrange(8, 16) =~= b.subrange(8, 16));
    assert(a.subrange(16, 20) =~= b.subrange(16, 20));
    assert(a.subrange(20, 24) =~= b.subrange(20, 24));
}

/// What a record holds once its edges have been written behind their number.
proof fn lemma_edges_written(
    layout: Layout,
    named: Seq<u8>,
    edges: Seq<PrimaryId>,
    after: Seq<u8>,
)
    requires
        is_record(layout, named),
        header_in(named).n_edges == at_most(edges.len() as int, layout.max_degree as int)
            % 0x1_0000_0000,
        bytes64(edges).len() == 8 * edges.len(),
        after == patched(
            named,
            HEADER as int,
            bytes64(edges).take(8 * at_most(edges.len() as int, layout.max_degree as int)),
        ),
    ensures
        is_record(layout, after),
        header_in(after) == header_in(named),
        edges_in(layout, after) == kept(layout, edges),
        vector_in(layout, after) == vector_in(layout, named),
{
    let count = at_most(edges.len() as int, layout.max_degree as int);
    let kept_count = count % 0x1_0000_0000;
    let bytes = bytes64(edges);
    lemma_header_in_agrees(named, after);
    assert(edge_count(layout, after) == kept_count);
    assert(after.subrange(HEADER as int, HEADER + 8 * kept_count) =~= bytes.take(8 * kept_count));
    lemma_words64_take(edges, kept_count);
    lemma_vector_in_agrees(layout, named, after);
}

/// The first words of a run of bytes are the words of its first bytes.
proof fn lemma_words64_take(words: Seq<u64>, n: int)
    requires
        0 <= n <= words.len(),
    ensures
        words64(bytes64(words).take(8 * n)) == words.take(n),
{
    lemma_words64_of_bytes64(words);
    let all = bytes64(words);
    let part = all.take(8 * n);
    assert forall|i: int| 0 <= i < n implies words64(part)[i] == words[i] by {
        assert(chunk8(part, i) =~= chunk8(all, i));
        assert(words64(all)[i] == words[i]);
    }
    assert(words64(part) =~= words.take(n));
}

/// Write the header of a record.
pub fn set_header(layout: &Layout, record: &mut [u8], header: Header)
    requires
        is_record(*layout, old(record)@),
    ensures
        final(record)@ == patched(old(record)@, 0, header.bytes()),
        is_record(*layout, final(record)@),
        header_in(final(record)@) == header,
        vector_in(*layout, final(record)@) == vector_in(*layout, old(record)@),
{
    let mut bytes: Vec<u8> = u64_to_bytes(header.owner);
    let mut partition: Vec<u8> = u64_to_bytes(header.partition_id);
    let mut n_edges: Vec<u8> = u32_to_bytes(header.n_edges);
    let mut pad: Vec<u8> = u32_to_bytes(header.pad);
    bytes.append(&mut partition);
    bytes.append(&mut n_edges);
    bytes.append(&mut pad);
    assert(bytes@ == header.bytes());
    proof {
        lemma_header_comes_back(header, record@.subrange(HEADER as int, record@.len() as int));
    }
    let ghost before = record@;
    write(record, layout.header(), bytes.as_slice());
    assert(bytes@.take(HEADER as int) =~= bytes@);
    proof {
        assert(record@ =~= header.bytes() + before.subrange(HEADER as int, before.len() as int));
        lemma_vector_in_agrees(*layout, before, record@);
    }
}

/// The edges of a record.
pub fn edges(layout: &Layout, record: &[u8]) -> (edges: Vec<PrimaryId>)
    requires
        is_record(*layout, record@),
    ensures
        edges@ == edges_in(*layout, record@),
{
    let span: Span = layout.edges(header(layout, record).n_edges as usize);
    let mut bytes: Vec<u8> = zeros(span.len);
    read(record, span, bytes.as_mut_slice());
    assert(bytes@ =~= record@.subrange(HEADER as int, HEADER + 8 * edge_count(*layout, record@)));
    decode_u64s(bytes.as_slice())
}

/// Write the edges of a record, no more than it has room for.
pub fn set_edges(layout: &Layout, record: &mut [u8], edges: &[PrimaryId])
    requires
        is_record(*layout, old(record)@),
    ensures
        is_record(*layout, final(record)@),
        final(record)@ == edges_written(*layout, old(record)@, edges@),
        forall|i: int|
            HEADER + 8 * at_most(edges@.len() as int, layout.max_degree as int) <= i < old(
                record,
            )@.len() ==> final(record)@[i] == old(record)@[i],
        owner_of(final(record)@) == owner_of(old(record)@),
        header_in(final(record)@).pad == header_in(old(record)@).pad,
        header_in(final(record)@).n_edges == at_most(edges@.len() as int, layout.max_degree as int)
            % 0x1_0000_0000,
        edges_in(*layout, final(record)@) == kept(*layout, edges@),
        vector_in(*layout, final(record)@) == vector_in(*layout, old(record)@),
{
    let span: Span = layout.edges(edges.len());
    let count: usize = span.len / 8;
    let mut head: Header = header(layout, record);
    head.n_edges = (count as u64 % 0x1_0000_0000) as u32;
    set_header(layout, record, head);
    let ghost named = record@;
    let bytes: Vec<u8> = encode_u64s(edges);
    write(record, span, bytes.as_slice());
    proof {
        lemma_words64_of_bytes64(edges@);
        assert(span.len == 8 * at_most(edges@.len() as int, layout.max_degree as int));
        lemma_edges_written(*layout, named, edges@, record@);
        lemma_bytes64_take(edges@, at_most(edges@.len() as int, layout.max_degree as int));
        lemma_header_comes_back(head, Seq::empty());
    }
}

/// The vector of a record.
pub fn vector(layout: &Layout, record: &[u8]) -> (vector: Vec<u32>)
    requires
        is_record(*layout, record@),
    ensures
        vector@ == vector_in(*layout, record@),
        vector@.len() == layout.dim,
{
    let span: Span = layout.vector(layout.dim);
    let mut bytes: Vec<u8> = zeros(span.len);
    read(record, span, bytes.as_mut_slice());
    assert(bytes@ =~= record@.subrange(
        layout.vector_offset(),
        layout.vector_offset() + 4 * layout.dim,
    ));
    decode_u32s(bytes.as_slice())
}

/// Write the first components of a record's vector, no more than it has.
pub fn set_vector(layout: &Layout, record: &mut [u8], vector: &[u32])
    requires
        is_record(*layout, old(record)@),
    ensures
        is_record(*layout, final(record)@),
        final(record)@ == vector_written(*layout, old(record)@, vector@),
        forall|i: int|
            0 <= i < old(record)@.len() && !(layout.vector_offset() <= i < layout.vector_offset()
                + 4 * at_most(vector@.len() as int, layout.dim as int)) ==> final(record)@[i]
                == old(record)@[i],
        header_in(final(record)@) == header_in(old(record)@),
        edges_in(*layout, final(record)@) == edges_in(*layout, old(record)@),
        vector_in(*layout, final(record)@) == vector@.take(
            at_most(vector@.len() as int, layout.dim as int),
        ) + vector_in(*layout, old(record)@).skip(
            at_most(vector@.len() as int, layout.dim as int),
        ),
{
    let span: Span = layout.vector(vector.len());
    let ghost before = record@;
    let bytes: Vec<u8> = encode_u32s(vector);
    write(record, span, bytes.as_slice());
    proof {
        let n = at_most(vector@.len() as int, layout.dim as int);
        let start = layout.vector_offset();
        let end = layout.vector_offset() + 4 * layout.dim;
        lemma_words32_of_bytes32(vector@);
        assert(record@ == patched(before, start, bytes@.take(4 * n)));
        lemma_bytes32_take(vector@, n);
        lemma_header_in_agrees(before, record@);
        let count = edge_count(*layout, before);
        assert(record@.subrange(HEADER as int, HEADER + 8 * count) =~= before.subrange(
            HEADER as int,
            HEADER + 8 * count,
        ));
        let old_bytes = before.subrange(start, end);
        let new_bytes = record@.subrange(start, end);
        assert forall|i: int| 0 <= i < layout.dim implies vector_in(*layout, record@)[i] == (
        vector@.take(n) + vector_in(*layout, before).skip(n))[i] by {
            if i < n {
                assert(chunk4(new_bytes, i) =~= chunk4(bytes@, i));
                assert(words32(bytes@)[i] == vector@[i]);
            } else {
                assert(chunk4(new_bytes, i) =~= chunk4(old_bytes, i));
            }
        }
        assert(vector_in(*layout, record@) =~= vector@.take(n) + vector_in(*layout, before).skip(
            n,
        ));
    }
}

/// Byte `j` of a number, least significant first.
pub open spec fn byte_of(x: int, j: nat) -> int {
    (x / pow(256, j)) % 256
}

/// Copying out of a record copies as many bytes of the span as there is room for,
/// in order, to the front; what is behind them stays.
pub proof fn law_reading_copies_the_span_to_the_front(
    record: &[u8],
    span: Span,
    out: &mut [u8],
    i: int,
)
    requires
        span.offset + span.len <= record@.len(),
        call_ensures(read, (record, span, out), ()),
        0 <= i < old(out)@.len(),
    ensures
        final(out)@.len() == old(out)@.len(),
        final(out)@[i] == (if i < span.len {
            record@[span.offset + i]
        } else {
            old(out)@[i]
        }),
{
}

/// Copying into a record copies as many bytes as are given and as the span takes,
/// in order; no byte outside the span changes.
pub proof fn law_writing_copies_into_the_span_only(
    record: &mut [u8],
    span: Span,
    bytes: &[u8],
    i: int,
)
    requires
        span.offset + span.len <= old(record)@.len(),
        call_ensures(write, (record, span, bytes), ()),
        0 <= i < old(record)@.len(),
    ensures
        final(record)@.len() == old(record)@.len(),
        final(record)@[i] == (if span.offset <= i < span.offset + span.len && i - span.offset
            < bytes@.len() {
            bytes@[i - span.offset]
        } else {
            old(record)@[i]
        }),
{
}

/// The bytes of a number that is read from eight bytes are those bytes.
proof fn lemma_bytes_of_long(bytes: Seq<u8>, j: nat)
    requires
        bytes.len() == 8,
        j < 8,
    ensures
        bytes[j as int] as int == byte_of(le_value(bytes) as u64 as int, j),
{
    lemma_word_capacities();
    lemma_encode_decode(bytes);
    lemma_le_bytes_digit(le_value(bytes), 8, j);
}

/// The bytes of a number that is read from four bytes are those bytes.
proof fn lemma_bytes_of_word(bytes: Seq<u8>, j: nat)
    requires
        bytes.len() == 4,
        j < 4,
    ensures
        bytes[j as int] as int == byte_of(le_value(bytes) as u32 as int, j),
{
    lemma_word_capacities();
    lemma_encode_decode(bytes);
    lemma_le_bytes_digit(le_value(bytes), 4, j);
}

/// The first 24 bytes of a record are, least significant byte first: the row of
/// its owner in eight, the partition of its owner in eight, the number of its
/// edges in four, and padding.
pub proof fn law_a_header_names_the_row_the_partition_and_the_number_of_edges(
    layout: &Layout,
    record: &[u8],
    header: Header,
    j: nat,
)
    requires
        is_record(*layout, record@),
        call_ensures(self::header, (layout, record), header),
    ensures
        j < 8 ==> record@[j as int] as int == byte_of(header.owner as int, j),
        j < 8 ==> record@[8 + j as int] as int == byte_of(header.partition_id as int, j),
        j < 4 ==> record@[16 + j as int] as int == byte_of(header.n_edges as int, j),
        j < 4 ==> record@[20 + j as int] as int == byte_of(header.pad as int, j),
{
    if j < 8 {
        lemma_bytes_of_long(record@.subrange(0, 8), j);
        lemma_bytes_of_long(record@.subrange(8, 16), j);
    }
    if j < 4 {
        lemma_bytes_of_word(record@.subrange(16, 20), j);
        lemma_bytes_of_word(record@.subrange(20, 24), j);
    }
}

/// The node that a header names is its partition and its row.
pub proof fn law_a_header_names_its_owner(header: &Header, key: Key)
    requires
        call_ensures(Header::key, (header,), key),
    ensures
        key.0 == header.partition_id,
        key.1 == header.owner,
{
}

/// Writing a header writes the first 24 bytes of the record, and the header is
/// read back as it was written.
pub proof fn law_a_header_is_read_back_as_it_was_written(
    layout: &Layout,
    record: &mut [u8],
    header: Header,
    after: &[u8],
    back: Header,
    i: int,
)
    requires
        is_record(*layout, old(record)@),
        call_ensures(set_header, (layout, record, header), ()),
        after@ == final(record)@,
        call_ensures(self::header, (layout, after), back),
    ensures
        back == header,
        final(record)@.len() == old(record)@.len(),
        24 <= i < old(record)@.len() ==> final(record)@[i] == old(record)@[i],
{
    lemma_header_comes_back(header, Seq::empty());
}

/// A record holds as many edges as its header says, but no more than the maximum
/// degree. They follow the header, eight bytes each, least significant first.
pub proof fn law_edges_follow_the_header(
    layout: &Layout,
    record: &[u8],
    header: Header,
    edges: Vec<PrimaryId>,
    i: int,
    j: nat,
)
    requires
        is_record(*layout, record@),
        call_ensures(self::header, (layout, record), header),
        call_ensures(self::edges, (layout, record), edges),
    ensures
        edges@.len() == (if header.n_edges <= layout.max_degree {
            header.n_edges as int
        } else {
            layout.max_degree as int
        }),
        0 <= i < edges@.len() && j < 8 ==> record@[24 + 8 * i + j] as int == byte_of(
            edges@[i] as int,
            j,
        ),
{
    let count = edge_count(*layout, record@);
    let bytes = record@.subrange(HEADER as int, HEADER + 8 * count);
    if 0 <= i < edges@.len() && j < 8 {
        lemma_bytes_of_long(chunk8(bytes, i), j);
    }
}

/// A vector follows the room for all edges, four bytes for each component, least
/// significant first.
pub proof fn law_the_vector_follows_the_room_for_all_edges(
    layout: &Layout,
    record: &[u8],
    vector: Vec<u32>,
    i: int,
    j: nat,
)
    requires
        is_record(*layout, record@),
        call_ensures(self::vector, (layout, record), vector),
    ensures
        vector@.len() == layout.dim,
        0 <= i < layout.dim && j < 4 ==> record@[24 + 8 * layout.max_degree + 4 * i + j] as int
            == byte_of(vector@[i] as int, j),
{
    let start = layout.vector_offset();
    let bytes = record@.subrange(start, start + 4 * layout.dim);
    if 0 <= i < layout.dim && j < 4 {
        lemma_bytes_of_word(chunk4(bytes, i), j);
    }
}

/// The edges that were written are read back, the first of them if there are more
/// than the maximum degree, in their order. The owner, the padding and the vector
/// stay, and so does every byte but those of the number and of these edges.
pub proof fn law_edges_are_read_back_as_they_were_written(
    layout: &Layout,
    record: &mut [u8],
    edges: &[PrimaryId],
    before: &[u8],
    named: Header,
    vector: Vec<u32>,
    after: &[u8],
    header: Header,
    back: Vec<PrimaryId>,
    vector_after: Vec<u32>,
    i: int,
)
    requires
        is_record(*layout, old(record)@),
        layout.max_degree <= u32::MAX,
        call_ensures(set_edges, (layout, record, edges), ()),
        before@ == old(record)@,
        call_ensures(self::header, (layout, before), named),
        call_ensures(self::vector, (layout, before), vector),
        after@ == final(record)@,
        call_ensures(self::header, (layout, after), header),
        call_ensures(self::edges, (layout, after), back),
        call_ensures(self::vector, (layout, after), vector_after),
    ensures
        ({
            let n = if edges@.len() <= layout.max_degree {
                edges@.len() as int
            } else {
                layout.max_degree as int
            };
            &&& back@ == edges@.take(n)
            &&& header.n_edges == n
            &&& header.owner == named.owner
            &&& header.partition_id == named.partition_id
            &&& header.pad == named.pad
            &&& vector_after@ == vector@
            &&& final(record)@.len() == old(record)@.len()
            &&& 0 <= i < 16 || 20 <= i < 24 || 24 + 8 * n <= i < old(record)@.len() ==> final(
                record)@[i] == old(record)@[i]
        }),
{
    let head = Header { n_edges: header.n_edges, ..header_in(old(record)@) };
    lemma_header_comes_back(head, Seq::empty());
    if 0 <= i < 16 || 20 <= i < 24 {
        lemma_header_bytes_agree(old(record)@, final(record)@, i);
    }
}

/// Headers of the same owner and padding are of the same bytes but for the number
/// of edges.
proof fn lemma_header_bytes_agree(a: Seq<u8>, b: Seq<u8>, i: int)
    requires
        a.len() >= 24,
        b.len() >= 24,
        header_in(a).owner == header_in(b).owner,
        header_in(a).partition_id == header_in(b).partition_id,
        header_in(a).pad == header_in(b).pad,
        0 <= i < 16 || 20 <= i < 24,
    ensures
        a[i] == b[i],
{
    if i < 8 {
        lemma_bytes_of_long(a.subrange(0, 8), i as nat);
        lemma_bytes_of_long(b.subrange(0, 8), i as nat);
    } else if i < 16 {
        lemma_bytes_of_long(a.subrange(8, 16), (i - 8) as nat);
        lemma_bytes_of_long(b.subrange(8, 16), (i - 8) as nat);
    } else {
        lemma_bytes_of_word(a.subrange(20, 24), (i - 20) as nat);
        lemma_bytes_of_word(b.subrange(20, 24), (i - 20) as nat);
    }
}

/// The components that were written are read back, no more than the vector has;
/// the components behind them stay, and so do the header and the edges, and every
/// other byte.
pub proof fn law_a_vector_is_read_back_as_it_was_written(
    layout: &Layout,
    record: &mut [u8],
    vector: &[u32],
    before: &[u8],
    named: Header,
    edges: Vec<PrimaryId>,
    held: Vec<u32>,
    after: &[u8],
    header: Header,
    edges_after: Vec<PrimaryId>,
    back: Vec<u32>,
    k: int,
    i: int,
)
    requires
        is_record(*layout, old(record)@),
        call_ensures(set_vector, (layout, record, vector), ()),
        before@ == old(record)@,
        call_ensures(self::header, (layout, before), named),
        call_ensures(self::edges, (layout, before), edges),
        call_ensures(self::vector, (layout, before), held),
        after@ == final(record)@,
        call_ensures(self::header, (layout, after), header),
        call_ensures(self::edges, (layout, after), edges_after),
        call_ensures(self::vector, (layout, after), back),
    ensures
        back@.len() == layout.dim,
        0 <= k < layout.dim ==> back@[k] == (if k < vector@.len() {
            vector@[k]
        } else {
            held@[k]
        }),
        header == named,
        edges_after@ == edges@,
        final(record)@.len() == old(record)@.len(),
        0 <= i < old(record)@.len() && (i < 24 + 8 * layout.max_degree || i >= 24 + 8
            * layout.max_degree + 4 * layout.dim || i >= 24 + 8 * layout.max_degree + 4
            * vector@.len()) ==> final(record)@[i] == old(record)@[i],
{
}

} // verus!
