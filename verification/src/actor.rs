//! The life of an index: it collects the vectors of the first scan, builds,
//! and then serves, or fails for good.
//!
//! A message and the state give a step. A step that needs the dataset's file,
//! a build or a search names what is to be done; what came of it then gives
//! the next state.

use crate::codec::bytes32;
use crate::codec::chunk4;
use crate::codec::le_bytes;
use crate::codec::lemma_bytes32_at;
use crate::codec::lemma_le_bytes_digit;
use crate::codec::lemma_words32_of_bytes32;
use crate::context::tells_of;
use crate::dataset::dataset_bytes;
use crate::dataset::law_a_point_is_appended;
use crate::dataset::law_finishing_makes_a_whole_dataset;
use crate::dataset::lemma_vector_bytes_len;
use crate::dataset::open_bytes;
use crate::dataset::vector_bytes;
use crate::dataset::DatasetError;
use crate::dataset::FinishedDataset;
use crate::dataset::InitialBuildCollector;
use crate::dataset::MIN_BUILD_POINTS;
use crate::hits::law_a_vertex_stands_for_the_row_of_its_number;
use crate::hits::resolve_hits;
use crate::params::SpaceType;
use crate::record::patched;
use crate::record::Key;
use crate::record::PartitionId;
use crate::record::PrimaryId;
use crate::text::dec;
use crate::text::decimal;
use crate::text::glue;
use crate::text::glue_number;
use vstd::arithmetic::power::pow;
use vstd::prelude::*;

verus! {

/// What an index is told or asked.
#[derive(Debug)]
pub enum VsIndex {
    AddVector { partition_id: PartitionId, primary_id: PrimaryId, embedding: Vec<u32> },
    RemoveVector { partition_id: PartitionId, primary_id: PrimaryId },
    RemovePartition { partition_id: PartitionId },
    InitialScanFinished,
    Ann { embedding: Vec<u32>, limit: usize },
    FilteredAnn,
    Count,
}

/// A message, as a value.
pub enum MessageView {
    AddVector { key: Key, embedding: Seq<u32> },
    RemoveVector { key: Key },
    RemovePartition { partition_id: PartitionId },
    InitialScanFinished,
    Ann { embedding: Seq<u32>, limit: usize },
    FilteredAnn,
    Count,
}

impl View for VsIndex {
    type V = MessageView;

    open spec fn view(&self) -> MessageView {
        match self {
            VsIndex::AddVector { partition_id, primary_id, embedding } => MessageView::AddVector {
                key: (*partition_id, *primary_id),
                embedding: embedding@,
            },
            VsIndex::RemoveVector { partition_id, primary_id } => MessageView::RemoveVector {
                key: (*partition_id, *primary_id),
            },
            VsIndex::RemovePartition { partition_id } => MessageView::RemovePartition {
                partition_id: *partition_id,
            },
            VsIndex::InitialScanFinished => MessageView::InitialScanFinished,
            VsIndex::Ann { embedding, limit } => MessageView::Ann {
                embedding: embedding@,
                limit: *limit,
            },
            VsIndex::FilteredAnn => MessageView::FilteredAnn,
            VsIndex::Count => MessageView::Count,
        }
    }
}

impl MessageView {
    /// The sender waits for an answer.
    pub open spec fn is_request(self) -> bool {
        self is Ann || self is FilteredAnn || self is Count
    }
}

/// An index that was built. Its vertices are numbered in the order of `ids`.
#[derive(Debug)]
pub struct DiskannServingIndex {
    pub ids: Vec<Key>,
    pub space_type: SpaceType,
    pub l_search_default: usize,
}

/// An index that was built, as a value.
#[verifier::ext_equal]
pub struct ServingView {
    pub ids: Seq<Key>,
    pub space_type: SpaceType,
    pub l_search_default: usize,
}

impl View for DiskannServingIndex {
    type V = ServingView;

    open spec fn view(&self) -> ServingView {
        ServingView {
            ids: self.ids@,
            space_type: self.space_type,
            l_search_default: self.l_search_default,
        }
    }
}

/// Where an index is in its life.
#[derive(Debug)]
pub enum DiskannActorState {
    /// The first scan is not over.
    Collecting(InitialBuildCollector),
    /// The index was built.
    Serving(DiskannServingIndex),
    /// The index could not be built, and why.
    Failed(String),
}

/// Where an index is in its life, as a value.
#[verifier::ext_equal]
pub enum StateView {
    Collecting(Seq<Key>),
    Serving(ServingView),
    Failed(Seq<char>),
}

impl View for DiskannActorState {
    type V = StateView;

    open spec fn view(&self) -> StateView {
        match self {
            DiskannActorState::Collecting(collector) => StateView::Collecting(collector.ids@),
            DiskannActorState::Serving(serving) => StateView::Serving(serving@),
            DiskannActorState::Failed(error) => StateView::Failed(error@),
        }
    }
}

/// What the sender of a message is told.
#[derive(Debug)]
pub enum Reply {
    /// Nothing: the sender waits for no answer.
    Silent,
    /// The request failed.
    Error(String),
    /// How many vectors there are.
    Count(usize),
}

/// What the sender of a message is told, as a value.
#[verifier::ext_equal]
pub enum ReplyView {
    Silent,
    Error(Seq<char>),
    Count(usize),
}

impl View for Reply {
    type V = ReplyView;

    open spec fn view(&self) -> ReplyView {
        match self {
            Reply::Silent => ReplyView::Silent,
            Reply::Error(text) => ReplyView::Error(text@),
            Reply::Count(count) => ReplyView::Count(*count),
        }
    }
}

/// What a message leads to.
#[derive(Debug)]
pub enum Step {
    /// Nothing is to be done but to reply.
    Rest { state: DiskannActorState, reply: Reply },
    /// The bytes are to be appended to the dataset. See [`appended`].
    Append { collector: InitialBuildCollector, bytes: Vec<u8> },
    /// The bytes are to be written over the beginning of the dataset. See [`finished`].
    Finish { dataset: FinishedDataset, bytes: Vec<u8> },
    /// The `k` vertices nearest to the query are to be looked for, in a list
    /// of `l` candidates. The index goes on serving.
    Search { serving: DiskannServingIndex, query: Vec<u32>, k: u32, l: u32 },
}

/// What a message leads to, as a value.
#[verifier::ext_equal]
pub enum StepView {
    Rest { state: StateView, reply: ReplyView },
    Append { ids: Seq<Key>, bytes: Seq<u8> },
    Finish { ids: Seq<Key>, bytes: Seq<u8> },
    Search { serving: ServingView, query: Seq<u32>, k: u32, l: u32 },
}

impl View for Step {
    type V = StepView;

    open spec fn view(&self) -> StepView {
        match self {
            Step::Rest { state, reply } => StepView::Rest { state: state@, reply: reply@ },
            Step::Append { collector, bytes } => StepView::Append {
                ids: collector.ids@,
                bytes: bytes@,
            },
            Step::Finish { dataset, bytes } => StepView::Finish { ids: dataset.ids@, bytes: bytes@ },
            Step::Search { serving, query, k, l } => StepView::Search {
                serving: serving@,
                query: query@,
                k: *k,
                l: *l,
            },
        }
    }
}

/// The low 32 bits of a number.
pub open spec fn low_bits(n: usize) -> u32 {
    (n as int % 0x1_0000_0000) as u32
}

/// What a request is told while the first scan is not over.
pub open spec fn still_bootstrapping() -> Seq<char> {
    "DiskANN index is still bootstrapping from full scan"@
}

/// What a request is told once the index has failed.
pub open spec fn failed_to_build(error: Seq<char>) -> Seq<char> {
    "DiskANN index failed to build: "@ + error
}

/// What a query of another dimension is told.
pub open spec fn query_mismatch(expected: usize, got: nat) -> Seq<char> {
    "DiskANN query dimensions mismatch: expected "@ + dec(expected as nat) + ", got "@ + dec(got)
}

/// What a failed index tells the sender of a message.
pub open spec fn failed_reply(error: Seq<char>, msg: MessageView) -> ReplyView {
    if msg.is_request() {
        ReplyView::Error(failed_to_build(error))
    } else {
        ReplyView::Silent
    }
}

/// What a message leads to while the first scan is not over and the number of
/// vectors fits the dataset.
pub open spec fn collecting_step(ids: Seq<Key>, msg: MessageView, dimensions: usize) -> StepView {
    let stay = StateView::Collecting(ids);
    match msg {
        MessageView::AddVector { key, embedding } => if embedding.len() == dimensions {
            StepView::Append { ids: ids.push(key), bytes: bytes32(embedding) }
        } else {
            StepView::Rest {
                state: StateView::Failed(
                    (DatasetError::Dimensions {
                        expected: dimensions,
                        got: embedding.len() as usize,
                    }).says(),
                ),
                reply: ReplyView::Silent,
            }
        },
        MessageView::RemoveVector { .. } => StepView::Rest { state: stay, reply: ReplyView::Silent },
        MessageView::RemovePartition { .. } => StepView::Rest {
            state: stay,
            reply: ReplyView::Silent,
        },
        MessageView::InitialScanFinished => StepView::Finish {
            ids,
            bytes: le_bytes(ids.len(), 4),
        },
        MessageView::Ann { .. } => StepView::Rest {
            state: stay,
            reply: ReplyView::Error(still_bootstrapping()),
        },
        MessageView::FilteredAnn => StepView::Rest {
            state: stay,
            reply: ReplyView::Error(still_bootstrapping()),
        },
        MessageView::Count => StepView::Rest {
            state: stay,
            reply: ReplyView::Count(ids.len() as usize),
        },
    }
}

/// A message leads to this step while the first scan is not over. A scan of more
/// vectors than the dataset can count ends in failure, in the words that DiskANN
/// finds for it.
pub open spec fn is_collecting_step(
    ids: Seq<Key>,
    msg: MessageView,
    dimensions: usize,
    step: StepView,
) -> bool {
    if msg is InitialScanFinished && ids.len() > u32::MAX {
        &&& step matches StepView::Rest { state: StateView::Failed(error), reply }
        &&& reply is Silent
        &&& tells_of(error, "DiskANN dataset point count does not fit in u32"@)
    } else {
        step == collecting_step(ids, msg, dimensions)
    }
}

/// What a message leads to once the index was built.
pub open spec fn serving_step(serving: ServingView, msg: MessageView, dimensions: usize) -> StepView {
    let reply = match msg {
        MessageView::Ann { embedding, .. } => ReplyView::Error(
            query_mismatch(dimensions, embedding.len()),
        ),
        MessageView::FilteredAnn => ReplyView::Error(
            "DiskANN filtered ANN is not implemented yet"@,
        ),
        MessageView::Count => ReplyView::Count(serving.ids.len() as usize),
        _ => ReplyView::Silent,
    };
    match msg {
        MessageView::Ann { embedding, limit } if embedding.len() == dimensions => StepView::Search {
            serving,
            query: embedding,
            k: low_bits(limit),
            l: low_bits(serving.l_search_default),
        },
        _ => StepView::Rest { state: StateView::Serving(serving), reply },
    }
}

/// What a message leads to, while the number of vectors fits the dataset.
pub open spec fn next_step(state: StateView, msg: MessageView, dimensions: usize) -> StepView {
    match state {
        StateView::Collecting(ids) => collecting_step(ids, msg, dimensions),
        StateView::Serving(serving) => serving_step(serving, msg, dimensions),
        StateView::Failed(error) => StepView::Rest {
            state,
            reply: failed_reply(error, msg),
        },
    }
}

/// A message leads to this step.
pub open spec fn is_next_step(
    state: StateView,
    msg: MessageView,
    dimensions: usize,
    step: StepView,
) -> bool {
    match state {
        StateView::Collecting(ids) => is_collecting_step(ids, msg, dimensions, step),
        _ => step == next_step(state, msg, dimensions),
    }
}

/// The low 32 bits of a number.
fn truncate(n: usize) -> (low: u32)
    ensures
        low == low_bits(n),
{
    (n as u64 % 0x1_0000_0000) as u32
}

/// What a failed index tells the sender of a message.
pub fn send_failed_response(error: &str, msg: &VsIndex) -> (reply: Reply)
    ensures
        reply@ == failed_reply(error@, msg@),
{
    match msg {
        VsIndex::Ann { .. } => Reply::Error(glue("DiskANN index failed to build: ", error)),
        VsIndex::FilteredAnn => Reply::Error(glue("DiskANN index failed to build: ", error)),
        VsIndex::Count => Reply::Error(glue("DiskANN index failed to build: ", error)),
        VsIndex::AddVector { .. } => Reply::Silent,
        VsIndex::RemoveVector { .. } => Reply::Silent,
        VsIndex::RemovePartition { .. } => Reply::Silent,
        VsIndex::InitialScanFinished => Reply::Silent,
    }
}

/// What a message leads to while the first scan is not over.
pub fn process_collecting_message(
    collector: InitialBuildCollector,
    msg: VsIndex,
    dimensions: usize,
) -> (step: Step)
    ensures
        is_collecting_step(collector.ids@, msg@, dimensions, step@),
{
    let mut collector = collector;
    let reply: Reply = match msg {
        VsIndex::AddVector { partition_id, primary_id, embedding } => {
            match collector.add((partition_id, primary_id), embedding.as_slice(), dimensions) {
                Ok(bytes) => {
                    return Step::Append { collector, bytes };
                },
                Err(err) => {
                    return Step::Rest {
                        state: DiskannActorState::Failed(err.message()),
                        reply: Reply::Silent,
                    };
                },
            }
        },
        VsIndex::InitialScanFinished => {
            match collector.finish() {
                Ok((dataset, bytes)) => {
                    return Step::Finish { dataset, bytes };
                },
                Err(err) => {
                    return Step::Rest {
                        state: DiskannActorState::Failed(err.message()),
                        reply: Reply::Silent,
                    };
                },
            }
        },
        VsIndex::RemoveVector { .. } => Reply::Silent,
        VsIndex::RemovePartition { .. } => Reply::Silent,
        VsIndex::Ann { .. } => Reply::Error(
            "DiskANN index is still bootstrapping from full scan".to_string(),
        ),
        VsIndex::FilteredAnn => Reply::Error(
            "DiskANN index is still bootstrapping from full scan".to_string(),
        ),
        VsIndex::Count => Reply::Count(collector.ids.len()),
    };
    Step::Rest { state: DiskannActorState::Collecting(collector), reply }
}

/// What a message leads to once the index was built.
pub fn process_serving_message(
    serving: DiskannServingIndex,
    msg: VsIndex,
    dimensions: usize,
) -> (step: Step)
    ensures
        step@ == serving_step(serving@, msg@, dimensions),
{
    let reply: Reply = match msg {
        VsIndex::Ann { embedding, limit } => {
            let got: usize = embedding.len();
            if got == dimensions {
                let k: u32 = truncate(limit);
                let l: u32 = truncate(serving.l_search_default);
                return Step::Search { serving, query: embedding, k, l };
            }
            let head = glue_number(
                "DiskANN query dimensions mismatch: expected ",
                dimensions as u64,
                ", got ",
            );
            Reply::Error(glue(head.as_str(), decimal(got as u64).as_str()))
        },
        VsIndex::FilteredAnn => Reply::Error(
            "DiskANN filtered ANN is not implemented yet".to_string(),
        ),
        VsIndex::Count => Reply::Count(serving.ids.len()),
        VsIndex::AddVector { .. } => Reply::Silent,
        VsIndex::RemoveVector { .. } => Reply::Silent,
        VsIndex::RemovePartition { .. } => Reply::Silent,
        VsIndex::InitialScanFinished => Reply::Silent,
    };
    Step::Rest { state: DiskannActorState::Serving(serving), reply }
}

/// What a message leads to.
pub fn process_diskann_message(
    state: DiskannActorState,
    msg: VsIndex,
    dimensions: usize,
) -> (step: Step)
    ensures
        is_next_step(state@, msg@, dimensions, step@),
{
    match state {
        DiskannActorState::Collecting(collector) => process_collecting_message(
            collector,
            msg,
            dimensions,
        ),
        DiskannActorState::Serving(serving) => process_serving_message(serving, msg, dimensions),
        DiskannActorState::Failed(error) => {
            let reply: Reply = send_failed_response(error.as_str(), &msg);
            Step::Rest { state: DiskannActorState::Failed(error), reply }
        },
    }
}

/// The state after a vector was appended to the dataset, or was not.
pub open spec fn after_append(ids: Seq<Key>, written: Result<(), Seq<char>>) -> StateView {
    match written {
        Ok(_) => StateView::Collecting(ids),
        Err(error) => StateView::Failed(error),
    }
}

/// The state after a vector was appended to the dataset, or was not.
pub fn appended(collector: InitialBuildCollector, written: Result<(), String>) -> (state:
    DiskannActorState)
    ensures
        state@ == after_append(collector.ids@, text_of(written)),
{
    match written {
        Ok(_) => DiskannActorState::Collecting(collector),
        Err(error) => DiskannActorState::Failed(error),
    }
}

/// A result with the text of its error.
pub open spec fn text_of(result: Result<(), String>) -> Result<(), Seq<char>> {
    match result {
        Ok(_) => Ok(()),
        Err(error) => Err(error@),
    }
}

/// The failure that ends the first scan once the dataset was written, or was
/// not: that it was not, or that it holds too few points.
pub open spec fn finish_failure(ids: Seq<Key>, written: Result<(), Seq<char>>) -> Option<Seq<char>> {
    match written {
        Err(error) => Some(error),
        Ok(_) => if ids.len() < MIN_BUILD_POINTS {
            Some((DatasetError::TooFewPoints { got: ids.len() as usize }).says())
        } else {
            None
        },
    }
}

/// Whether an index is to be built of the dataset, once it was written or was
/// not. An error is the reason for which the index has failed.
pub fn finished(dataset: FinishedDataset, written: Result<(), String>) -> (build: Result<
    FinishedDataset,
    String,
>)
    ensures
        match build {
            Ok(build) => {
                &&& finish_failure(dataset.ids@, text_of(written)) is None
                &&& build.ids@ == dataset.ids@
            },
            Err(error) => finish_failure(dataset.ids@, text_of(written)) == Some(error@),
        },
{
    match written {
        Ok(_) => {},
        Err(error) => {
            return Err(error);
        },
    }
    match dataset.check_buildable() {
        Ok(_) => Ok(dataset),
        Err(err) => Err(err.message()),
    }
}

/// The state after the index was built of the dataset, or was not.
pub fn built(
    dataset: FinishedDataset,
    space_type: SpaceType,
    l_search_default: usize,
    outcome: Result<(), String>,
) -> (state: DiskannActorState)
    ensures
        state@ == (match text_of(outcome) {
            Ok(_) => StateView::Serving(
                ServingView { ids: dataset.ids@, space_type, l_search_default },
            ),
            Err(error) => StateView::Failed(error),
        }),
{
    match outcome {
        Ok(_) => DiskannActorState::Serving(
            DiskannServingIndex { ids: dataset.ids, space_type, l_search_default },
        ),
        Err(error) => DiskannActorState::Failed(error),
    }
}

/// An index that has failed stays so, and tells every request why.
pub proof fn law_a_failed_index_stays_failed(
    error: Seq<char>,
    msg: MessageView,
    dimensions: usize,
    step: StepView,
)
    requires
        is_next_step(StateView::Failed(error), msg, dimensions, step),
    ensures
        step matches StepView::Rest { state, reply } && state == StateView::Failed(error) && (msg.is_request() ==> reply
            == ReplyView::Error(failed_to_build(error))),
{
}

/// An index that was built goes on serving the same vectors, whatever it is
/// told.
pub proof fn law_a_serving_index_stays_as_it_was_built(
    serving: ServingView,
    msg: MessageView,
    dimensions: usize,
    step: StepView,
)
    requires
        is_next_step(StateView::Serving(serving), msg, dimensions, step),
    ensures
        match step {
            StepView::Rest { state, .. } => state == StateView::Serving(serving),
            StepView::Search { serving: after, .. } => after == serving,
            _ => false,
        },
{
}

/// Who asks is answered, at once or by a search; who tells is not.
pub proof fn law_requests_are_answered_and_nothing_else_is(
    state: StateView,
    msg: MessageView,
    dimensions: usize,
    step: StepView,
)
    requires
        is_next_step(state, msg, dimensions, step),
    ensures
        match step {
            StepView::Rest { reply, .. } => msg.is_request() <==> !(reply is Silent),
            StepView::Search { .. } => msg is Ann && state is Serving,
            StepView::Append { .. } => msg is AddVector && state is Collecting,
            StepView::Finish { .. } => msg is InitialScanFinished && state is Collecting,
        },
{
}

/// A count is the number of vectors added, while they are being collected and
/// once the index serves them.
pub proof fn law_a_count_is_the_number_of_vectors(
    ids: Seq<Key>,
    serving: ServingView,
    dimensions: usize,
    step: StepView,
)
    ensures
        is_next_step(StateView::Collecting(ids), MessageView::Count, dimensions, step) ==> step == (
        StepView::Rest {
            state: StateView::Collecting(ids),
            reply: ReplyView::Count(ids.len() as usize),
        }),
        is_next_step(StateView::Serving(serving), MessageView::Count, dimensions, step) ==> step
            == (StepView::Rest {
            state: StateView::Serving(serving),
            reply: ReplyView::Count(serving.ids.len() as usize),
        }),
{
}

/// The nodes that are collected and the bytes of the dataset, once these
/// vectors were added one after another and every append was carried out.
/// `None` if the index has failed by then.
pub open spec fn scanned(adds: Seq<(Key, Seq<u32>)>, dimensions: usize) -> Option<
    (Seq<Key>, Seq<u8>),
>
    decreases adds.len(),
{
    if adds.len() == 0 {
        Some((Seq::empty(), open_bytes(dimensions as nat, Seq::empty())))
    } else {
        match scanned(adds.drop_last(), dimensions) {
            Some((ids, file)) => match next_step(
                StateView::Collecting(ids),
                MessageView::AddVector { key: adds.last().0, embedding: adds.last().1 },
                dimensions,
            ) {
                StepView::Append { ids, bytes } => Some((ids, file + bytes)),
                _ => None,
            },
            None => None,
        }
    }
}

/// A scan whose vectors all have the index's dimension collects their nodes in
/// order, and the end of the scan leaves a whole dataset of the vectors in the
/// same order.
pub proof fn law_a_scan_leaves_a_whole_dataset(adds: Seq<(Key, Seq<u32>)>, dimensions: usize)
    requires
        adds.len() <= u32::MAX,
        forall|i: int| 0 <= i < adds.len() ==> (#[trigger] adds[i]).1.len() == dimensions,
    ensures
        ({
            let keys = adds.map_values(|add: (Key, Seq<u32>)| add.0);
            let vectors = adds.map_values(|add: (Key, Seq<u32>)| add.1);
            &&& scanned(adds, dimensions) matches Some((ids, file))
            &&& ids == keys
            &&& next_step(
                StateView::Collecting(ids),
                MessageView::InitialScanFinished,
                dimensions,
            ) matches StepView::Finish { ids: kept, bytes }
            &&& kept == keys
            &&& patched(file, 0, bytes) == dataset_bytes(dimensions as nat, vectors)
        }),
{
    lemma_scanned(adds, dimensions);
    law_finishing_makes_a_whole_dataset(
        dimensions as nat,
        adds.map_values(|add: (Key, Seq<u32>)| add.1),
    );
}

/// What a scan has collected and written so far.
proof fn lemma_scanned(adds: Seq<(Key, Seq<u32>)>, dimensions: usize)
    requires
        forall|i: int| 0 <= i < adds.len() ==> (#[trigger] adds[i]).1.len() == dimensions,
    ensures
        scanned(adds, dimensions) == Some(
            (
                adds.map_values(|add: (Key, Seq<u32>)| add.0),
                open_bytes(
                    dimensions as nat,
                    adds.map_values(|add: (Key, Seq<u32>)| add.1),
                ),
            ),
        ),
    decreases adds.len(),
{
    let keys = adds.map_values(|add: (Key, Seq<u32>)| add.0);
    let vectors = adds.map_values(|add: (Key, Seq<u32>)| add.1);
    if adds.len() == 0 {
        assert(keys =~= Seq::<Key>::empty());
        assert(vectors =~= Seq::<Seq<u32>>::empty());
    } else {
        let rest = adds.drop_last();
        assert forall|i: int| 0 <= i < rest.len() implies (#[trigger] rest[i]).1.len()
            == dimensions by {
            assert(rest[i] == adds[i]);
        }
        lemma_scanned(rest, dimensions);
        let old_keys = rest.map_values(|add: (Key, Seq<u32>)| add.0);
        let old_vectors = rest.map_values(|add: (Key, Seq<u32>)| add.1);
        assert(adds[adds.len() - 1].1.len() == dimensions);
        assert(old_keys.push(adds.last().0) =~= keys);
        assert(old_vectors.push(adds.last().1) =~= vectors);
        law_a_point_is_appended(dimensions as nat, old_vectors, adds.last().1);
    }
}

/// One vector of another dimension fails the index for good, and the failure
/// names both dimensions.
pub proof fn law_a_vector_of_another_dimension_fails_the_index(
    ids: Seq<Key>,
    key: Key,
    embedding: Seq<u32>,
    dimensions: usize,
    step: StepView,
)
    requires
        embedding.len() != dimensions,
        is_next_step(
            StateView::Collecting(ids),
            MessageView::AddVector { key, embedding },
            dimensions,
            step,
        ),
    ensures
        step == (StepView::Rest {
            state: StateView::Failed(
                (DatasetError::Dimensions {
                    expected: dimensions,
                    got: embedding.len() as usize,
                }).says(),
            ),
            reply: ReplyView::Silent,
        }),
{
}

/// A message is handled while vectors are being collected, by the function for
/// that or by the one for any state.
pub open spec fn is_handled_collecting(
    collector: InitialBuildCollector,
    msg: VsIndex,
    dimensions: usize,
    step: Step,
) -> bool {
    ||| call_ensures(process_collecting_message, (collector, msg, dimensions), step)
    ||| call_ensures(
        process_diskann_message,
        (DiskannActorState::Collecting(collector), msg, dimensions),
        step,
    )
}

/// A message is handled once the index was built, by the function for that or by
/// the one for any state.
pub open spec fn is_handled_serving(
    serving: DiskannServingIndex,
    msg: VsIndex,
    dimensions: usize,
    step: Step,
) -> bool {
    ||| call_ensures(process_serving_message, (serving, msg, dimensions), step)
    ||| call_ensures(
        process_diskann_message,
        (DiskannActorState::Serving(serving), msg, dimensions),
        step,
    )
}

/// While vectors are being collected, a message that neither adds one nor ends
/// the scan leaves the collected nodes exactly as they were. A query is told that
/// the index is not there yet, a count is answered with the number of nodes, and
/// nobody else is told anything.
pub proof fn law_only_additions_and_the_end_of_the_scan_touch_what_is_collected(
    collector: InitialBuildCollector,
    msg: VsIndex,
    dimensions: usize,
    step: Step,
)
    requires
        is_handled_collecting(collector, msg, dimensions, step),
        !(msg is AddVector),
        !(msg is InitialScanFinished),
    ensures
        step matches Step::Rest { state, reply } && {
            &&& state matches DiskannActorState::Collecting(after)
            &&& after.ids@ == collector.ids@
            &&& match msg {
                VsIndex::Ann { .. } => reply matches Reply::Error(text) && text@
                    == "DiskANN index is still bootstrapping from full scan"@,
                VsIndex::FilteredAnn => reply matches Reply::Error(text) && text@
                    == "DiskANN index is still bootstrapping from full scan"@,
                VsIndex::Count => reply matches Reply::Count(count) && count
                    == collector.ids@.len() as usize,
                _ => reply is Silent,
            }
        },
{
}

/// A vector of the index's dimension is collected behind those before it, and its
/// components are to be appended to the file, in order, four bytes each, least
/// significant first. Any other vector fails the index, which says so.
pub proof fn law_an_addition_collects_its_vector_behind_the_others(
    collector: InitialBuildCollector,
    msg: VsIndex,
    dimensions: usize,
    step: Step,
    i: int,
    j: nat,
)
    requires
        is_handled_collecting(collector, msg, dimensions, step),
    ensures
        msg matches VsIndex::AddVector { partition_id, primary_id, embedding } ==> if embedding@.len()
            == dimensions {
            &&& step matches Step::Append { collector: after, bytes }
            &&& after.ids@ == collector.ids@.push((partition_id, primary_id))
            &&& bytes@.len() == 4 * dimensions
            &&& 0 <= i < dimensions && j < 4 ==> bytes@[4 * i + j] as int == (embedding@[i] as int
                / pow(256, j)) % 256
        } else {
            &&& step matches Step::Rest { state, reply }
            &&& reply is Silent
            &&& state matches DiskannActorState::Failed(error)
            &&& error@ == "DiskANN vector dimensions mismatch: expected "@ + dec(dimensions as nat)
                + ", got "@ + dec(embedding@.len() as usize as nat)
        },
{
    if let VsIndex::AddVector { embedding, .. } = msg {
        lemma_words32_of_bytes32(embedding@);
        if embedding@.len() == dimensions && 0 <= i < dimensions && j < 4 {
            lemma_bytes32_at(embedding@, i);
            lemma_le_bytes_digit(embedding@[i] as nat, 4, j);
            assert(chunk4(bytes32(embedding@), i)[j as int] == bytes32(embedding@)[4 * i + j]);
        }
    }
}

/// The end of the scan hands on every node that was collected, in their order,
/// and their number for the beginning of the file, least significant byte first.
/// Where the number does not fit four bytes, the index has failed.
pub proof fn law_the_end_of_the_scan_hands_on_what_was_collected(
    collector: InitialBuildCollector,
    dimensions: usize,
    step: Step,
    j: nat,
)
    requires
        is_handled_collecting(collector, VsIndex::InitialScanFinished, dimensions, step),
        j < 4,
    ensures
        if collector.ids@.len() <= u32::MAX {
            &&& step matches Step::Finish { dataset, bytes }
            &&& dataset.ids@ == collector.ids@
            &&& bytes@.len() == 4
            &&& bytes@[j as int] as int == (collector.ids@.len() as int / pow(256, j)) % 256
        } else {
            &&& step matches Step::Rest { state, reply }
            &&& reply is Silent
            &&& state matches DiskannActorState::Failed(error)
            &&& tells_of(error@, "DiskANN dataset point count does not fit in u32"@)
        },
{
    lemma_le_bytes_digit(collector.ids@.len(), 4, j);
}

/// A query of the index's dimension is looked for as it is, among all vectors,
/// with the limit and the default list size in 32 bits. Every other message is
/// answered at once. Whatever it is, the index goes on serving the same vectors.
pub proof fn law_a_serving_index_searches_with_the_query_the_limit_and_the_default_list(
    serving: DiskannServingIndex,
    msg: VsIndex,
    dimensions: usize,
    step: Step,
)
    requires
        is_handled_serving(serving, msg, dimensions, step),
    ensures
        match msg {
            VsIndex::Ann { embedding, limit } => if embedding@.len() == dimensions {
                &&& step matches Step::Search { serving: after, query, k, l }
                &&& after.ids@ == serving.ids@
                &&& after.space_type == serving.space_type
                &&& after.l_search_default == serving.l_search_default
                &&& query@ == embedding@
                &&& k as int == limit as int % 0x1_0000_0000
                &&& l as int == serving.l_search_default as int % 0x1_0000_0000
            } else {
                &&& step matches Step::Rest { state, reply }
                &&& state matches DiskannActorState::Serving(after)
                &&& after.ids@ == serving.ids@
                &&& after.space_type == serving.space_type
                &&& after.l_search_default == serving.l_search_default
                &&& reply matches Reply::Error(text)
                &&& text@ == "DiskANN query dimensions mismatch: expected "@ + dec(
                    dimensions as nat,
                ) + ", got "@ + dec(embedding@.len())
            },
            _ => {
                &&& step matches Step::Rest { state, reply }
                &&& state matches DiskannActorState::Serving(after)
                &&& after.ids@ == serving.ids@
                &&& after.space_type == serving.space_type
                &&& after.l_search_default == serving.l_search_default
                &&& match msg {
                    VsIndex::FilteredAnn => reply matches Reply::Error(text) && text@
                        == "DiskANN filtered ANN is not implemented yet"@,
                    VsIndex::Count => reply matches Reply::Count(count) && count
                        == serving.ids@.len() as usize,
                    _ => reply is Silent,
                }
            },
        },
{
}

/// An index that has failed tells every request why, and no one else anything; it
/// has failed for the same reason afterwards.
pub proof fn law_a_failed_index_tells_every_request_why(
    error: String,
    msg: VsIndex,
    dimensions: usize,
    step: Step,
    text: &str,
    reply: Reply,
)
    requires
        call_ensures(
            process_diskann_message,
            (DiskannActorState::Failed(error), msg, dimensions),
            step,
        ),
        text@ == error@,
        call_ensures(send_failed_response, (text, &msg), reply),
    ensures
        step matches Step::Rest { state, reply: given } && {
            &&& state matches DiskannActorState::Failed(after)
            &&& after@ == error@
            &&& if msg is Ann || msg is FilteredAnn || msg is Count {
                &&& given matches Reply::Error(said)
                &&& said@ == "DiskANN index failed to build: "@ + error@
                &&& reply matches Reply::Error(said)
                &&& said@ == "DiskANN index failed to build: "@ + error@
            } else {
                given is Silent && reply is Silent
            }
        },
{
}

/// What came of a write or a build decides how the index goes on: a vector that
/// was appended stays collected; a dataset that was written is built if it has a
/// thousand points or more; an index that was built serves the nodes of the
/// dataset. Any failure fails the index, for the reason given.
pub proof fn law_what_was_carried_out_decides_how_the_index_goes_on(
    collector: InitialBuildCollector,
    dataset: FinishedDataset,
    done: Result<(), String>,
    space_type: SpaceType,
    l_search_default: usize,
    collecting: DiskannActorState,
    build: Result<FinishedDataset, String>,
    serving: DiskannActorState,
)
    requires
        call_ensures(appended, (collector, done), collecting),
        call_ensures(finished, (dataset, done), build),
        call_ensures(built, (dataset, space_type, l_search_default, done), serving),
    ensures
        match done {
            Ok(_) => {
                &&& collecting matches DiskannActorState::Collecting(after)
                &&& after.ids@ == collector.ids@
                &&& serving matches DiskannActorState::Serving(index)
                &&& index.ids@ == dataset.ids@
                &&& index.space_type == space_type
                &&& index.l_search_default == l_search_default
                &&& build is Ok <==> dataset.ids@.len() >= 1000
                &&& build matches Ok(kept) ==> kept.ids@ == dataset.ids@
                &&& build matches Err(text) ==> text@
                    == "DiskANN requires at least 1000 vectors to build; got "@ + dec(
                    dataset.ids@.len() as usize as nat,
                )
            },
            Err(error) => {
                &&& collecting matches DiskannActorState::Failed(why)
                &&& why@ == error@
                &&& build matches Err(why)
                &&& why@ == error@
                &&& serving matches DiskannActorState::Failed(why)
                &&& why@ == error@
            },
        },
{
}

/// The state that follows a step of a scan whose every append was carried out.
pub open spec fn is_after(step: Step, state: DiskannActorState) -> bool {
    match step {
        Step::Rest { state: next, .. } => state == next,
        Step::Append { collector, .. } => call_ensures(
            appended,
            (collector, Ok::<(), String>(())),
            state,
        ),
        _ => false,
    }
}

/// What is appended to the file in these steps.
pub open spec fn appended_bytes(steps: Seq<Step>) -> Seq<u8>
    decreases steps.len(),
{
    if steps.len() == 0 {
        Seq::empty()
    } else {
        match steps.last() {
            Step::Append { bytes, .. } => appended_bytes(steps.drop_last()) + bytes@,
            _ => appended_bytes(steps.drop_last()),
        }
    }
}

/// The vectors that these messages add, with their nodes.
pub open spec fn additions(msgs: Seq<VsIndex>) -> Seq<(Key, Seq<u32>)>
    decreases msgs.len(),
{
    if msgs.len() == 0 {
        Seq::empty()
    } else {
        match msgs.last() {
            VsIndex::AddVector { partition_id, primary_id, embedding } => additions(
                msgs.drop_last(),
            ).push(((partition_id, primary_id), embedding@)),
            _ => additions(msgs.drop_last()),
        }
    }
}

/// These messages are handled one after another, from an index that has
/// collected nothing yet, and every append is carried out. None of them ends the
/// scan, and every vector is of the index's dimension.
pub open spec fn is_scan(
    states: Seq<DiskannActorState>,
    msgs: Seq<VsIndex>,
    steps: Seq<Step>,
    dimensions: usize,
) -> bool {
    &&& states.len() == msgs.len() + 1
    &&& steps.len() == msgs.len()
    &&& states[0] matches DiskannActorState::Collecting(collector)
    &&& collector.ids@.len() == 0
    &&& forall|i: int|
        0 <= i < msgs.len() ==> {
            &&& call_ensures(
                process_diskann_message,
                (states[i], #[trigger] msgs[i], dimensions),
                steps[i],
            )
            &&& is_after(steps[i], states[i + 1])
            &&& !(msgs[i] is InitialScanFinished)
            &&& msgs[i] matches VsIndex::AddVector { embedding, .. } ==> embedding@.len()
                == dimensions
        }
}

/// Whatever else an index is told or asked during the scan, it collects the nodes
/// of the vectors that are added, all of them, in their order, and nothing else.
pub proof fn law_a_scan_collects_exactly_what_is_added(
    states: Seq<DiskannActorState>,
    msgs: Seq<VsIndex>,
    steps: Seq<Step>,
    dimensions: usize,
)
    requires
        is_scan(states, msgs, steps, dimensions),
    ensures
        states.last() matches DiskannActorState::Collecting(collector) && {
            &&& collector.ids@.len() == additions(msgs).len()
            &&& forall|v: int|
                0 <= v < additions(msgs).len() ==> #[trigger] collector.ids@[v] == additions(
                    msgs,
                )[v].0
        },
{
    lemma_scan(states, msgs, steps, dimensions);
}

/// Whatever else an index is told or asked during the scan, what it appends to
/// the file is the vectors that are added, one after another, in their order:
/// component after component, four bytes each, least significant first.
pub proof fn law_a_scan_writes_exactly_what_is_added(
    states: Seq<DiskannActorState>,
    msgs: Seq<VsIndex>,
    steps: Seq<Step>,
    dimensions: usize,
    v: int,
    i: int,
    j: nat,
)
    requires
        is_scan(states, msgs, steps, dimensions),
        0 <= v < additions(msgs).len(),
        0 <= i < dimensions,
        j < 4,
    ensures
        appended_bytes(steps).len() == 4 * (dimensions * additions(msgs).len()),
        0 <= 4 * (dimensions * v + i) + j < appended_bytes(steps).len(),
        appended_bytes(steps)[4 * (dimensions * v + i) + j] as int == (additions(
            msgs,
        )[v].1[i] as int / pow(256, j)) % 256,
{
    lemma_scan(states, msgs, steps, dimensions);
    let added = additions(msgs);
    let vectors = added.map_values(|add: (Key, Seq<u32>)| add.1);
    let vector = vectors[v];
    lemma_vector_bytes_at(dimensions as nat, vectors, v);
    lemma_bytes32_at(vector, i);
    lemma_le_bytes_digit(vector[i] as nat, 4, j);
    let start = 4 * (dimensions * v);
    let whole = vector_bytes(vectors);
    assert(4 * (dimensions * v + i) + j == start + 4 * i + j);
    assert(whole.subrange(start, start + 4 * dimensions)[4 * i + j] == whole[start + 4 * i + j]);
    assert(chunk4(bytes32(vector), i)[j as int] == bytes32(vector)[4 * i + j]);
}

/// The vector of one point in a dataset.
proof fn lemma_vector_bytes_at(dim: nat, vectors: Seq<Seq<u32>>, v: int)
    requires
        forall|i: int| 0 <= i < vectors.len() ==> (#[trigger] vectors[i]).len() == dim,
        0 <= v < vectors.len(),
    ensures
        vector_bytes(vectors).len() == 4 * (dim * vectors.len()),
        0 <= 4 * (dim * v),
        4 * (dim * v) + 4 * dim <= vector_bytes(vectors).len(),
        vector_bytes(vectors).subrange(4 * (dim * v), 4 * (dim * v) + 4 * dim) == bytes32(
            vectors[v],
        ),
    decreases vectors.len(),
{
    let rest = vectors.drop_last();
    assert forall|i: int| 0 <= i < rest.len() implies (#[trigger] rest[i]).len() == dim by {
        assert(rest[i] == vectors[i]);
    }
    lemma_vector_bytes_len(dim, vectors);
    lemma_vector_bytes_len(dim, rest);
    lemma_words32_of_bytes32(vectors.last());
    assert(vectors[vectors.len() - 1].len() == dim);
    assert(0 <= dim * v && dim * v + dim <= dim * vectors.len()) by (nonlinear_arith)
        requires
            0 <= v,
            v + 1 <= vectors.len(),
            dim >= 0,
    ;
    if v < rest.len() {
        lemma_vector_bytes_at(dim, rest, v);
        assert(rest[v] == vectors[v]);
        assert(vector_bytes(vectors).subrange(4 * (dim * v), 4 * (dim * v) + 4 * dim)
            =~= vector_bytes(rest).subrange(4 * (dim * v), 4 * (dim * v) + 4 * dim));
    } else {
        assert(vector_bytes(vectors).subrange(4 * (dim * v), 4 * (dim * v) + 4 * dim) =~= bytes32(
            vectors[v],
        ));
    }
}

/// What a scan has collected and appended.
proof fn lemma_scan(
    states: Seq<DiskannActorState>,
    msgs: Seq<VsIndex>,
    steps: Seq<Step>,
    dimensions: usize,
)
    requires
        is_scan(states, msgs, steps, dimensions),
    ensures
        states.last() matches DiskannActorState::Collecting(collector) && collector.ids@
            == additions(msgs).map_values(|add: (Key, Seq<u32>)| add.0),
        appended_bytes(steps) == vector_bytes(
            additions(msgs).map_values(|add: (Key, Seq<u32>)| add.1),
        ),
        forall|v: int|
            0 <= v < additions(msgs).len() ==> (#[trigger] additions(msgs)[v]).1.len()
                == dimensions,
    decreases msgs.len(),
{
    let added = additions(msgs);
    let keys = added.map_values(|add: (Key, Seq<u32>)| add.0);
    let vectors = added.map_values(|add: (Key, Seq<u32>)| add.1);
    if msgs.len() == 0 {
        assert(keys =~= Seq::<Key>::empty());
        assert(vectors =~= Seq::<Seq<u32>>::empty());
        assert(states.last() == states[0]);
        let collector = states[0]->Collecting_0;
        assert(collector.ids@ =~= keys);
    } else {
        let last = msgs.len() - 1;
        let (earlier, before, done) = (states.drop_last(), msgs.drop_last(), steps.drop_last());
        assert forall|i: int| 0 <= i < before.len() implies {
            &&& call_ensures(
                process_diskann_message,
                (earlier[i], #[trigger] before[i], dimensions),
                done[i],
            )
            &&& is_after(done[i], earlier[i + 1])
            &&& !(before[i] is InitialScanFinished)
            &&& before[i] matches VsIndex::AddVector { embedding, .. } ==> embedding@.len()
                == dimensions
        } by {
            assert(before[i] == msgs[i]);
        }
        lemma_scan(earlier, before, done, dimensions);
        let old_added = additions(before);
        let old_keys = old_added.map_values(|add: (Key, Seq<u32>)| add.0);
        let old_vectors = old_added.map_values(|add: (Key, Seq<u32>)| add.1);
        let collector = earlier.last()->Collecting_0;
        let msg = msgs[last];
        let step = steps[last];
        assert(call_ensures(process_diskann_message, (states[last], msg, dimensions), step));
        assert(states[last] == DiskannActorState::Collecting(collector));
        assert(is_handled_collecting(collector, msg, dimensions, step));
        match msg {
            VsIndex::AddVector { partition_id, primary_id, embedding } => {
                assert(added == old_added.push(((partition_id, primary_id), embedding@)));
                assert(keys =~= old_keys.push((partition_id, primary_id)));
                assert(vectors =~= old_vectors.push(embedding@));
                assert(vectors.drop_last() =~= old_vectors);
                assert(step is Append);
            },
            _ => {
                law_only_additions_and_the_end_of_the_scan_touch_what_is_collected(
                    collector,
                    msg,
                    dimensions,
                    step,
                );
            },
        }
    }
}

/// The vertex numbered `v` is the vector that was added `v`-th: whatever came
/// between, once the scan is over and the index is built and serves, a search that
/// finds that vertex is answered with the node of that vector.
pub proof fn law_a_vertex_is_the_vector_added_at_its_number(
    states: Seq<DiskannActorState>,
    msgs: Seq<VsIndex>,
    steps: Seq<Step>,
    dimensions: usize,
    dataset: FinishedDataset,
    bytes: Vec<u8>,
    build: FinishedDataset,
    space_type: SpaceType,
    l_search_default: usize,
    serving: DiskannServingIndex,
    ids: &[Key],
    vertices: &[u32],
    nodes: Vec<Option<Key>>,
    i: int,
)
    requires
        is_scan(states, msgs, steps, dimensions),
        call_ensures(
            process_diskann_message,
            (states.last(), VsIndex::InitialScanFinished, dimensions),
            Step::Finish { dataset, bytes },
        ),
        call_ensures(
            finished,
            (dataset, Ok::<(), String>(())),
            Ok::<FinishedDataset, String>(build),
        ),
        call_ensures(
            built,
            (build, space_type, l_search_default, Ok::<(), String>(())),
            DiskannActorState::Serving(serving),
        ),
        ids@ == serving.ids@,
        call_ensures(resolve_hits, (ids, vertices), nodes),
        0 <= i < vertices@.len(),
    ensures
        nodes@.len() == vertices@.len(),
        vertices@[i] < additions(msgs).len() ==> nodes@[i] == Some(
            additions(msgs)[vertices@[i] as int].0,
        ),
        vertices@[i] >= additions(msgs).len() ==> nodes@[i] is None,
{
    lemma_scan(states, msgs, steps, dimensions);
    law_a_vertex_stands_for_the_row_of_its_number(ids, vertices, nodes);
}

} // verus!
