//! Where things are inside a record of the node file.
//!
//! A record holds a header naming its owner, the adjacency list and then the
//! vector, padded to whole pages.

use vstd::arithmetic::mul::lemma_mul_inequality;
use vstd::arithmetic::mul::lemma_mul_is_distributive_add_other_way;
use vstd::prelude::*;

verus! {

/// Records are padded to this, so one never spans more pages than it needs.
pub const PAGE: usize = 4096;

/// The bytes of a record header.
pub const HEADER: usize = 24;

/// The bytes of one edge.
pub const EDGE: usize = 8;

/// The bytes of one vector component.
pub const COMPONENT: usize = 4;

/// The smaller of two lengths.
pub open spec fn at_most(n: int, cap: int) -> int {
    if n <= cap {
        n
    } else {
        cap
    }
}

/// What a record holds before padding.
pub open spec fn raw_len(dim: nat, max_degree: nat) -> nat {
    (HEADER + max_degree * EDGE + dim * COMPONENT) as nat
}

/// The length of a record: its contents rounded up to whole pages.
pub open spec fn record_len(dim: nat, max_degree: nat) -> nat {
    ((raw_len(dim, max_degree) + PAGE - 1) / PAGE as int * PAGE) as nat
}

/// Bytes of a record, by position and length.
#[derive(Debug, Clone, Copy, PartialEq, Eq, Structural)]
pub struct Span {
    pub offset: usize,
    pub len: usize,
}

impl Span {
    /// Where the span ends.
    pub open spec fn end(self) -> int {
        self.offset + self.len
    }
}

/// Where things are inside a record.
#[derive(Debug, Clone, Copy, PartialEq, Eq, Structural)]
pub struct Layout {
    pub max_degree: usize,
    pub dim: usize,
    pub record: usize,
}

impl Layout {
    /// The record length belongs to the dimension and the degree.
    pub open spec fn wf(self) -> bool {
        self.record == record_len(self.dim as nat, self.max_degree as nat)
    }

    /// Where the edges end and the vector begins.
    pub open spec fn vector_offset(self) -> int {
        HEADER + self.max_degree * EDGE
    }

    /// Whether records of this shape, `records` of them, fit the address space.
    pub fn fits(dim: usize, max_degree: usize, records: usize) -> (fit: bool)
        ensures
            fit == {
                &&& record_len(dim as nat, max_degree as nat) <= isize::MAX
                &&& records * record_len(dim as nat, max_degree as nat) <= isize::MAX
            },
    {
        let limit: u128 = isize::MAX as u128;
        let raw: u128 = 24 + 8 * (max_degree as u128) + 4 * (dim as u128);
        let record: u128 = (raw + 4095) / 4096 * 4096;
        assert(record == record_len(dim as nat, max_degree as nat));
        if record > limit {
            return false;
        }
        assert(records * record <= 0xffff_ffff_ffff_ffff * 0x7fff_ffff_ffff_ffff) by (nonlinear_arith)
            requires
                records <= 0xffff_ffff_ffff_ffff,
                record <= 0x7fff_ffff_ffff_ffff,
        ;
        (records as u128) * record <= limit
    }

    /// Lay out records for vectors of `dim` components and up to `max_degree` edges.
    pub fn new(dim: usize, max_degree: usize) -> (layout: Self)
        requires
            record_len(dim as nat, max_degree as nat) <= usize::MAX,
        ensures
            layout.wf(),
            layout.dim == dim,
            layout.max_degree == max_degree,
            layout.record == record_len(dim as nat, max_degree as nat),
    {
        let raw: usize = HEADER + max_degree * EDGE + dim * COMPONENT;
        let whole: usize = raw / PAGE;
        let pages: usize = if raw % PAGE == 0 {
            whole
        } else {
            whole + 1
        };
        Layout { max_degree, dim, record: pages * PAGE }
    }

    /// Where the record of slot `idx` begins in the node file.
    pub fn offset(&self, idx: usize) -> (offset: usize)
        requires
            idx * self.record <= usize::MAX,
        ensures
            offset == idx * self.record,
    {
        idx * self.record
    }

    /// The header of a record.
    pub fn header(&self) -> (span: Span)
        ensures
            span == (Span { offset: 0, len: HEADER }),
    {
        Span { offset: 0, len: HEADER }
    }

    /// The first `n` edges, or every edge a record holds if `n` is larger.
    pub fn edges(&self, n: usize) -> (span: Span)
        requires
            self.wf(),
        ensures
            span.offset == HEADER,
            span.len == at_most(n as int, self.max_degree as int) * EDGE,
    {
        let count: usize = if n <= self.max_degree {
            n
        } else {
            self.max_degree
        };
        Span { offset: HEADER, len: count * EDGE }
    }

    /// The first `n` components, or the whole vector if `n` is larger.
    pub fn vector(&self, n: usize) -> (span: Span)
        requires
            self.wf(),
        ensures
            span.offset == self.vector_offset(),
            span.len == at_most(n as int, self.dim as int) * COMPONENT,
    {
        let count: usize = if n <= self.dim {
            n
        } else {
            self.dim
        };
        Span { offset: HEADER + self.max_degree * EDGE, len: count * COMPONENT }
    }
}

/// A record is whole pages, holds everything it is laid out for, and wastes
/// less than a page.
pub proof fn law_record_is_whole_pages(dim: nat, max_degree: nat)
    ensures
        record_len(dim, max_degree) % PAGE as nat == 0,
        raw_len(dim, max_degree) <= record_len(dim, max_degree) < raw_len(dim, max_degree) + PAGE,
{
}

/// Every record begins at a page, so it spans no more pages than it needs.
pub proof fn law_records_begin_at_a_page(layout: Layout, slot: int)
    requires
        layout.wf(),
        slot >= 0,
    ensures
        (slot * layout.record) % (PAGE as int) == 0,
{
    let pages = (raw_len(layout.dim as nat, layout.max_degree as nat) + PAGE - 1) / PAGE as int;
    assert(layout.record == pages * PAGE);
    assert(slot * (pages * 4096) == (slot * pages) * 4096) by (nonlinear_arith);
}

/// The regions of a record lie end to end within it: the header, then the
/// edges, then the vector, and none reaches past the record.
pub proof fn law_spans_stay_inside_the_record(
    layout: Layout,
    header: Span,
    n: int,
    edges: Span,
    m: int,
    vector: Span,
)
    requires
        layout.wf(),
        n >= 0,
        m >= 0,
        header == (Span { offset: 0, len: HEADER }),
        edges.offset == HEADER && edges.len == at_most(n, layout.max_degree as int) * EDGE,
        vector.offset == layout.vector_offset() && vector.len == at_most(m, layout.dim as int)
            * COMPONENT,
    ensures
        header.end() == edges.offset,
        edges.end() <= vector.offset,
        vector.end() <= layout.record,
        n >= layout.max_degree ==> edges.end() == vector.offset,
{
}

/// Different slots are disjoint byte ranges of the file.
pub proof fn law_slots_do_not_overlap(layout: Layout, a: int, b: int)
    requires
        layout.wf(),
        0 <= a < b,
    ensures
        a * layout.record + layout.record <= b * layout.record,
{
    lemma_mul_inequality(a + 1, b, layout.record as int);
    lemma_mul_is_distributive_add_other_way(layout.record as int, a, 1);
}

/// A record is laid out for what it was asked for: it is the fewest whole pages
/// of 4096 bytes that hold a header of 24 bytes, eight bytes for each edge and
/// four for each component.
pub proof fn law_a_record_is_the_fewest_pages_that_hold_it(
    dim: usize,
    max_degree: usize,
    layout: Layout,
)
    requires
        call_ensures(Layout::new, (dim, max_degree), layout),
    ensures
        layout.dim == dim,
        layout.max_degree == max_degree,
        layout.record as int % 4096 == 0,
        24 + 8 * max_degree + 4 * dim <= layout.record < 24 + 8 * max_degree + 4 * dim + 4096,
{
}

/// Records fit exactly if one of them does and all of them do, each of the fewest
/// pages that hold its header, its edges and its vector.
pub proof fn law_records_fit_if_their_pages_do(
    dim: usize,
    max_degree: usize,
    records: usize,
    fit: bool,
    record: int,
)
    requires
        call_ensures(Layout::fits, (dim, max_degree, records), fit),
        record % 4096 == 0,
        24 + 8 * max_degree + 4 * dim <= record < 24 + 8 * max_degree + 4 * dim + 4096,
    ensures
        fit <==> record <= isize::MAX && records * record <= isize::MAX,
{
    let len = record_len(dim as nat, max_degree as nat) as int;
    lemma_fewest_pages(24 + 8 * max_degree + 4 * dim, record);
    assert(record == len);
}

/// The fewest pages that hold something.
proof fn lemma_fewest_pages(raw: int, len: int)
    requires
        raw >= 0,
        len % 4096 == 0,
        raw <= len < raw + 4096,
    ensures
        len == (raw + 4095) / 4096 * 4096,
{
}

/// The header is the first 24 bytes of a record. The edges follow, eight bytes
/// each, as many as are asked for but no more than the maximum degree; the vector
/// follows the room for all edges, four bytes for each component that is asked
/// for, but no more than there are. Records follow each other without gaps.
pub proof fn law_a_record_is_its_header_its_edges_and_its_vector(
    layout: &Layout,
    n: usize,
    header: Span,
    edges: Span,
    vector: Span,
    idx: usize,
    offset: usize,
)
    requires
        layout.wf(),
        call_ensures(Layout::header, (layout,), header),
        call_ensures(Layout::edges, (layout, n), edges),
        call_ensures(Layout::vector, (layout, n), vector),
        call_ensures(Layout::offset, (layout, idx), offset),
    ensures
        header.offset == 0 && header.len == 24,
        edges.offset == 24,
        n <= layout.max_degree ==> edges.len == 8 * n,
        n > layout.max_degree ==> edges.len == 8 * layout.max_degree,
        vector.offset == 24 + 8 * layout.max_degree,
        n <= layout.dim ==> vector.len == 4 * n,
        n > layout.dim ==> vector.len == 4 * layout.dim,
        vector.offset + vector.len <= layout.record,
        offset == idx * layout.record,
{
}

} // verus!
