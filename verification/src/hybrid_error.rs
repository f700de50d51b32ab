//! What can go wrong in a graph whose vectors are fetched on demand.

use crate::text::dec;
use crate::text::decimal;
use crate::text::glue;
use crate::text::glue_number;
use vstd::prelude::*;

verus! {

/// What a slot of the graph is in use for.
#[derive(Debug, Clone, Copy, PartialEq, Eq, Structural)]
pub enum ElementStatus {
    /// The slot holds a point.
    Valid,
    /// The slot holds no point any more, or none yet.
    Deleted,
}

impl ElementStatus {
    /// The name of the status.
    pub open spec fn name(self) -> Seq<char> {
        match self {
            ElementStatus::Valid => "Valid"@,
            ElementStatus::Deleted => "Deleted"@,
        }
    }

    fn text(self) -> (text: &'static str)
        ensures
            text@ == self.name(),
    {
        match self {
            ElementStatus::Valid => "Valid",
            ElementStatus::Deleted => "Deleted",
        }
    }
}

/// What can go wrong in a graph whose vectors are fetched on demand.
#[derive(Debug, Clone, Copy, PartialEq, Eq, Structural)]
pub enum HybridError {
    /// An element is not of the layer's dimension.
    Element { got: usize, expected: usize },
    /// The start point is not of the index's dimension.
    StartPoint { got: usize, expected: usize },
    /// A query is not of the index's dimension.
    Query { got: usize, expected: usize },
    /// The start point has no slot id.
    TooManyPoints { max_points: usize },
    /// The start point is not in its slot.
    StartSlot { slot: u32, found: ElementStatus },
    /// The slot below the start point's is in use.
    SlotBelow { slot: u32, found: ElementStatus },
    /// There is not one vector for each id.
    Misaligned { got: usize, expected: usize },
    /// A layer without vectors was asked for a distance.
    NoDistance,
    /// The vector of a deleted element was asked for.
    DeletedVector { id: u32 },
}

impl HybridError {
    /// What the message says.
    pub open spec fn says(self) -> Seq<char> {
        match self {
            HybridError::Element { got, expected } => "wrong dimension: got "@ + dec(got as nat)
                + ", expected "@ + dec(expected as nat),
            HybridError::StartPoint { got, expected } => "start point has dimension "@ + dec(
                got as nat,
            ) + " but the index expects "@ + dec(expected as nat),
            HybridError::Query { got, expected } => "query has dimension "@ + dec(got as nat)
                + " but the index expects "@ + dec(expected as nat),
            HybridError::TooManyPoints { max_points } => "max_points "@ + dec(max_points as nat)
                + " does not fit in a u32 slot id"@,
            HybridError::StartSlot { slot, found } => "expected the start point in slot "@ + dec(
                slot as nat,
            ) + ", found "@ + found.name()
                + "; the diskann-inmem frozen slot layout has probably changed"@,
            HybridError::SlotBelow { slot, found } => "expected slot "@ + dec(slot as nat)
                + " to be an unallocated writable slot, found "@ + found.name()
                + "; the diskann-inmem frozen slot layout has probably changed"@,
            HybridError::Misaligned { got, expected } => "vector source returned "@ + dec(
                got as nat,
            ) + " results for "@ + dec(expected as nat)
                + " ids; implementations must return one entry per id, in order"@,
            HybridError::NoDistance => {
                "the NoVectors layer stores no vector data; distances must go through HybridPruneAccessor"@
            },
            HybridError::DeletedVector {
                id,
            } => "cannot supply the vector for internal id "@ + dec(id as nat)
                + ": this provider retains no vector data, and a deleted row is already gone from the base table by the time the delete reaches us. Use InplaceDeleteMethod::OneHop or TwoHopAndOneHop, neither of which reads the deleted vector."@,
        }
    }

    /// The message of the error.
    pub fn message(&self) -> (text: String)
        ensures
            text@ == self.says(),
    {
        match *self {
            HybridError::Element { got, expected } => {
                let head = glue_number("wrong dimension: got ", got as u64, ", expected ");
                glue(head.as_str(), decimal(expected as u64).as_str())
            },
            HybridError::StartPoint { got, expected } => {
                let head = glue_number(
                    "start point has dimension ",
                    got as u64,
                    " but the index expects ",
                );
                glue(head.as_str(), decimal(expected as u64).as_str())
            },
            HybridError::Query { got, expected } => {
                let head = glue_number(
                    "query has dimension ",
                    got as u64,
                    " but the index expects ",
                );
                glue(head.as_str(), decimal(expected as u64).as_str())
            },
            HybridError::TooManyPoints { max_points } => glue_number(
                "max_points ",
                max_points as u64,
                " does not fit in a u32 slot id",
            ),
            HybridError::StartSlot { slot, found } => {
                let head = glue_number(
                    "expected the start point in slot ",
                    slot as u64,
                    ", found ",
                );
                let head = glue(head.as_str(), found.text());
                glue(
                    head.as_str(),
                    "; the diskann-inmem frozen slot layout has probably changed",
                )
            },
            HybridError::SlotBelow { slot, found } => {
                let head = glue_number(
                    "expected slot ",
                    slot as u64,
                    " to be an unallocated writable slot, found ",
                );
                let head = glue(head.as_str(), found.text());
                glue(
                    head.as_str(),
                    "; the diskann-inmem frozen slot layout has probably changed",
                )
            },
            HybridError::Misaligned { got, expected } => {
                let head = glue_number("vector source returned ", got as u64, " results for ");
                glue_number(
                    head.as_str(),
                    expected as u64,
                    " ids; implementations must return one entry per id, in order",
                )
            },
            HybridError::NoDistance => {
                "the NoVectors layer stores no vector data; distances must go through HybridPruneAccessor".to_string()
            },
            HybridError::DeletedVector { id } => glue_number(
                "cannot supply the vector for internal id ",
                id as u64,
                ": this provider retains no vector data, and a deleted row is already gone from the base table by the time the delete reaches us. Use InplaceDeleteMethod::OneHop or TwoHopAndOneHop, neither of which reads the deleted vector.",
            ),
        }
    }
}

/// A message says what went wrong, with its numbers in decimal and the status that
/// was found by its name.
pub proof fn law_a_message_names_what_was_found_and_what_was_expected(
    err: HybridError,
    a: u64,
    b: u64,
    a_text: String,
    b_text: String,
    text: String,
)
    requires
        call_ensures(HybridError::message, (&err,), text),
        match err {
            HybridError::Element { got, expected } => a == got && b == expected,
            HybridError::StartPoint { got, expected } => a == got && b == expected,
            HybridError::Query { got, expected } => a == got && b == expected,
            HybridError::TooManyPoints { max_points } => a == max_points,
            HybridError::StartSlot { slot, .. } => a == slot,
            HybridError::SlotBelow { slot, .. } => a == slot,
            HybridError::Misaligned { got, expected } => a == got && b == expected,
            HybridError::NoDistance => true,
            HybridError::DeletedVector { id } => a == id,
        },
        call_ensures(decimal, (a,), a_text),
        call_ensures(decimal, (b,), b_text),
    ensures
        match err {
            HybridError::Element { .. } => text@ == "wrong dimension: got "@ + a_text@
                + ", expected "@ + b_text@,
            HybridError::StartPoint { .. } => text@ == "start point has dimension "@ + a_text@
                + " but the index expects "@ + b_text@,
            HybridError::Query { .. } => text@ == "query has dimension "@ + a_text@
                + " but the index expects "@ + b_text@,
            HybridError::TooManyPoints { .. } => text@ == "max_points "@ + a_text@
                + " does not fit in a u32 slot id"@,
            HybridError::StartSlot { found, .. } => text@ == "expected the start point in slot "@
                + a_text@ + ", found "@ + (match found {
                ElementStatus::Valid => "Valid"@,
                ElementStatus::Deleted => "Deleted"@,
            }) + "; the diskann-inmem frozen slot layout has probably changed"@,
            HybridError::SlotBelow { found, .. } => text@ == "expected slot "@ + a_text@
                + " to be an unallocated writable slot, found "@ + (match found {
                ElementStatus::Valid => "Valid"@,
                ElementStatus::Deleted => "Deleted"@,
            }) + "; the diskann-inmem frozen slot layout has probably changed"@,
            HybridError::Misaligned { .. } => text@ == "vector source returned "@ + a_text@
                + " results for "@ + b_text@
                + " ids; implementations must return one entry per id, in order"@,
            HybridError::NoDistance => text@
                == "the NoVectors layer stores no vector data; distances must go through HybridPruneAccessor"@,
            HybridError::DeletedVector { .. } => text@
                == "cannot supply the vector for internal id "@ + a_text@
                + ": this provider retains no vector data, and a deleted row is already gone from the base table by the time the delete reaches us. Use InplaceDeleteMethod::OneHop or TwoHopAndOneHop, neither of which reads the deleted vector."@,
        },
{
}

} // verus!
