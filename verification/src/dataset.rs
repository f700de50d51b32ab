//! The dataset that an index is first built from: the number of points, their
//! dimension, then the vectors one after another.

use crate::codec::bytes32;
use crate::codec::chunk4;
use crate::codec::encode_u32s;
use crate::codec::le_bytes;
use crate::codec::lemma_bytes32_at;
use crate::codec::lemma_le_bytes_digit;
use crate::codec::lemma_le_bytes_len;
use crate::codec::lemma_words32_of_bytes32;
use crate::codec::u32_to_bytes;
use crate::context::tells_of;
use crate::context::u32_in_context;
use crate::record::patched;
use crate::record::Key;
use crate::text::dec;
use crate::text::decimal;
use crate::text::glue;
use crate::text::glue_number;
use vstd::arithmetic::div_mod::lemma_div_of0;
use vstd::arithmetic::power::lemma_pow_positive;
use vstd::arithmetic::power::pow;
use vstd::prelude::*;

verus! {

/// An index of fewer points is not built.
pub const MIN_BUILD_POINTS: usize = 1_000;

/// Why a dataset cannot be written.
#[derive(Debug, PartialEq, Eq)]
pub enum DatasetError {
    /// The dimension does not fit the file; in which words.
    TooManyDimensions(String),
    /// The number of points does not fit the file; in which words.
    TooManyPoints(String),
    /// A vector is not of the index's dimension.
    Dimensions { expected: usize, got: usize },
    /// There are too few points to build an index.
    TooFewPoints { got: usize },
}

impl DatasetError {
    /// What the message says.
    pub open spec fn says(self) -> Seq<char> {
        match self {
            DatasetError::TooManyDimensions(text) => text@,
            DatasetError::TooManyPoints(text) => text@,
            DatasetError::Dimensions {
                expected,
                got,
            } => "DiskANN vector dimensions mismatch: expected "@ + dec(expected as nat) + ", got "@
                + dec(got as nat),
            DatasetError::TooFewPoints {
                got,
            } => "DiskANN requires at least 1000 vectors to build; got "@ + dec(got as nat),
        }
    }

    /// The message of the error.
    pub fn message(&self) -> (text: String)
        ensures
            text@ == self.says(),
    {
        match self {
            DatasetError::TooManyDimensions(text) => text.clone(),
            DatasetError::TooManyPoints(text) => text.clone(),
            DatasetError::Dimensions { expected, got } => {
                let head = glue_number(
                    "DiskANN vector dimensions mismatch: expected ",
                    *expected as u64,
                    ", got ",
                );
                glue(head.as_str(), decimal(*got as u64).as_str())
            },
            DatasetError::TooFewPoints { got } => glue(
                "DiskANN requires at least 1000 vectors to build; got ",
                decimal(*got as u64).as_str(),
            ),
        }
    }
}

/// The first bytes of a dataset: how many points of how many dimensions.
pub open spec fn header_bytes(count: nat, dim: nat) -> Seq<u8> {
    le_bytes(count, 4) + le_bytes(dim, 4)
}

/// The bytes of vectors, one after another.
pub open spec fn vector_bytes(vectors: Seq<Seq<u32>>) -> Seq<u8>
    decreases vectors.len(),
{
    if vectors.len() == 0 {
        Seq::empty()
    } else {
        vector_bytes(vectors.drop_last()) + bytes32(vectors.last())
    }
}

/// A whole dataset.
pub open spec fn dataset_bytes(dim: nat, vectors: Seq<Seq<u32>>) -> Seq<u8> {
    header_bytes(vectors.len(), dim) + vector_bytes(vectors)
}

/// The dataset on disk while it is being written, the number of points still
/// standing at zero.
pub open spec fn open_bytes(dim: nat, vectors: Seq<Seq<u32>>) -> Seq<u8> {
    header_bytes(0, dim) + vector_bytes(vectors)
}

/// The nodes of the vectors in a dataset that is being written, in its order.
#[derive(Debug)]
pub struct InitialBuildCollector {
    pub ids: Vec<Key>,
}

/// The nodes of the vectors in a dataset, in its order.
#[derive(Debug)]
pub struct FinishedDataset {
    pub ids: Vec<Key>,
}

impl InitialBuildCollector {
    /// A dataset without points, and the bytes that its file begins with.
    pub fn new(dimensions: usize) -> (collector: Result<(Self, Vec<u8>), DatasetError>)
        ensures
            match collector {
                Ok((collector, bytes)) => {
                    &&& dimensions <= u32::MAX
                    &&& collector.ids@ == Seq::<Key>::empty()
                    &&& bytes@ == open_bytes(dimensions as nat, Seq::empty())
                },
                Err(err) => {
                    &&& dimensions > u32::MAX
                    &&& err matches DatasetError::TooManyDimensions(text)
                    &&& tells_of(text@, "DiskANN dataset dimensions do not fit in u32"@)
                },
            },
    {
        let fitting: u32 = match u32_in_context(
            dimensions,
            "DiskANN dataset dimensions do not fit in u32",
        ) {
            Ok(fitting) => fitting,
            Err(text) => {
                return Err(DatasetError::TooManyDimensions(text));
            },
        };
        let mut bytes: Vec<u8> = u32_to_bytes(0);
        let mut dim: Vec<u8> = u32_to_bytes(fitting);
        bytes.append(&mut dim);
        assert(bytes@ =~= open_bytes(dimensions as nat, Seq::empty()));
        Ok((InitialBuildCollector { ids: Vec::new() }, bytes))
    }

    /// Add a point. What it returns is to be appended to the file.
    pub fn add(&mut self, key: Key, embedding: &[u32], dimensions: usize) -> (added: Result<
        Vec<u8>,
        DatasetError,
    >)
        ensures
            match added {
                Ok(bytes) => {
                    &&& embedding@.len() == dimensions
                    &&& final(self).ids@ == old(self).ids@.push(key)
                    &&& bytes@ == bytes32(embedding@)
                },
                Err(err) => {
                    &&& embedding@.len() != dimensions
                    &&& err == (DatasetError::Dimensions {
                        expected: dimensions,
                        got: embedding@.len() as usize,
                    })
                    &&& final(self).ids@ == old(self).ids@
                },
            },
    {
        let got: usize = embedding.len();
        if got != dimensions {
            return Err(DatasetError::Dimensions { expected: dimensions, got });
        }
        self.ids.push(key);
        Ok(encode_u32s(embedding))
    }

    /// No more points. What it returns is to be written over the beginning of
    /// the file.
    pub fn finish(self) -> (finished: Result<(FinishedDataset, Vec<u8>), DatasetError>)
        ensures
            match finished {
                Ok((dataset, bytes)) => {
                    &&& self.ids@.len() <= u32::MAX
                    &&& dataset.ids@ == self.ids@
                    &&& bytes@ == le_bytes(self.ids@.len(), 4)
                },
                Err(err) => {
                    &&& self.ids@.len() > u32::MAX
                    &&& err matches DatasetError::TooManyPoints(text)
                    &&& tells_of(text@, "DiskANN dataset point count does not fit in u32"@)
                },
            },
    {
        let count: u32 = match u32_in_context(
            self.ids.len(),
            "DiskANN dataset point count does not fit in u32",
        ) {
            Ok(count) => count,
            Err(text) => {
                return Err(DatasetError::TooManyPoints(text));
            },
        };
        let bytes: Vec<u8> = u32_to_bytes(count);
        Ok((FinishedDataset { ids: self.ids }, bytes))
    }
}

impl FinishedDataset {
    /// Whether there are points enough to build an index.
    pub fn check_buildable(&self) -> (buildable: Result<(), DatasetError>)
        ensures
            buildable == (if self.ids@.len() >= MIN_BUILD_POINTS {
                Ok(())
            } else {
                Err(DatasetError::TooFewPoints { got: self.ids@.len() as usize })
            }),
    {
        let got: usize = self.ids.len();
        if got >= MIN_BUILD_POINTS {
            Ok(())
        } else {
            Err(DatasetError::TooFewPoints { got })
        }
    }
}

/// Adding a point appends its vector to the file and to nothing else.
pub proof fn law_a_point_is_appended(dim: nat, vectors: Seq<Seq<u32>>, vector: Seq<u32>)
    ensures
        open_bytes(dim, vectors) + bytes32(vector) == open_bytes(dim, vectors.push(vector)),
{
    assert(vectors.push(vector).drop_last() =~= vectors);
    assert(open_bytes(dim, vectors) + bytes32(vector) =~= open_bytes(dim, vectors.push(vector)));
}

/// Writing the number of points over the beginning of the file makes it a
/// whole dataset: the number of points, the dimension, then the vectors in the
/// order in which they were added.
pub proof fn law_finishing_makes_a_whole_dataset(dim: nat, vectors: Seq<Seq<u32>>)
    ensures
        patched(open_bytes(dim, vectors), 0, le_bytes(vectors.len(), 4)) == dataset_bytes(
            dim,
            vectors,
        ),
{
    lemma_le_bytes_len(0, 4);
    lemma_le_bytes_len(vectors.len(), 4);
    assert(patched(open_bytes(dim, vectors), 0, le_bytes(vectors.len(), 4)) =~= dataset_bytes(
        dim,
        vectors,
    ));
}

/// A dataset is eight bytes and four for each component of each vector.
pub proof fn law_a_dataset_has_no_padding(dim: nat, vectors: Seq<Seq<u32>>)
    requires
        forall|i: int| 0 <= i < vectors.len() ==> (#[trigger] vectors[i]).len() == dim,
    ensures
        dataset_bytes(dim, vectors).len() == 8 + 4 * (dim * vectors.len()),
{
    lemma_le_bytes_len(vectors.len(), 4);
    lemma_le_bytes_len(dim, 4);
    lemma_vector_bytes_len(dim, vectors);
}

/// The length of the vectors of a dataset.
pub proof fn lemma_vector_bytes_len(dim: nat, vectors: Seq<Seq<u32>>)
    requires
        forall|i: int| 0 <= i < vectors.len() ==> (#[trigger] vectors[i]).len() == dim,
    ensures
        vector_bytes(vectors).len() == 4 * (dim * vectors.len()),
    decreases vectors.len(),
{
    if vectors.len() > 0 {
        let rest = vectors.drop_last();
        assert forall|i: int| 0 <= i < rest.len() implies (#[trigger] rest[i]).len() == dim by {
            assert(rest[i] == vectors[i]);
        }
        lemma_vector_bytes_len(dim, rest);
        lemma_words32_of_bytes32(vectors.last());
        assert(vectors[vectors.len() - 1].len() == dim);
        assert(dim * vectors.len() == dim * rest.len() + dim) by (nonlinear_arith)
            requires
                vectors.len() == rest.len() + 1,
        ;
    } else {
        assert(dim * vectors.len() == 0) by (nonlinear_arith)
            requires
                vectors.len() == 0,
        ;
    }
}

/// A new dataset has no points. Its file begins with eight bytes: zero for the
/// number of points, then the dimension, each least significant byte first. It is
/// refused exactly if the dimension does not fit four bytes.
pub proof fn law_a_new_dataset_counts_no_points(
    dimensions: usize,
    outcome: Result<(InitialBuildCollector, Vec<u8>), DatasetError>,
    j: nat,
)
    requires
        call_ensures(InitialBuildCollector::new, (dimensions,), outcome),
        j < 4,
    ensures
        outcome is Ok <==> dimensions <= u32::MAX,
        match outcome {
            Ok((collector, bytes)) => {
                &&& collector.ids@.len() == 0
                &&& bytes@.len() == 8
                &&& bytes@[j as int] == 0
                &&& bytes@[4 + j as int] as int == (dimensions as int / pow(256, j)) % 256
            },
            Err(err) => {
                &&& err matches DatasetError::TooManyDimensions(words)
                &&& tells_of(words@, "DiskANN dataset dimensions do not fit in u32"@)
            },
        },
{
    if let Ok((_, bytes)) = outcome {
        lemma_le_bytes_digit(0, 4, j);
        lemma_le_bytes_digit(dimensions as nat, 4, j);
        lemma_pow_positive(256, j);
        assert(0int / pow(256, j) == 0) by {
            lemma_div_of0(pow(256, j));
        }
        assert(bytes@[j as int] == le_bytes(0, 4)[j as int]);
        assert(bytes@[4 + j as int] == le_bytes(dimensions as nat, 4)[j as int]);
    }
}

/// A point is added exactly if it is of the dimension asked for. Its node then
/// follows those collected before, and what is to be appended to the file is its
/// components in order, four bytes each, least significant first. A point that is
/// refused leaves the nodes as they were, and the refusal names both dimensions.
pub proof fn law_a_point_is_collected_behind_the_others(
    collector: &mut InitialBuildCollector,
    key: Key,
    embedding: &[u32],
    dimensions: usize,
    added: Result<Vec<u8>, DatasetError>,
    i: int,
    j: nat,
)
    requires
        call_ensures(InitialBuildCollector::add, (collector, key, embedding, dimensions), added),
    ensures
        added is Ok <==> embedding@.len() == dimensions,
        match added {
            Ok(bytes) => {
                &&& final(collector).ids@ == old(collector).ids@.push(key)
                &&& bytes@.len() == 4 * dimensions
                &&& 0 <= i < dimensions && j < 4 ==> bytes@[4 * i + j] as int == (
                embedding@[i] as int / pow(256, j)) % 256
            },
            Err(err) => {
                &&& final(collector).ids@ == old(collector).ids@
                &&& err == (DatasetError::Dimensions {
                    expected: dimensions,
                    got: embedding@.len() as usize,
                })
            },
        },
{
    lemma_words32_of_bytes32(embedding@);
    if 0 <= i < embedding@.len() && j < 4 {
        lemma_bytes32_at(embedding@, i);
        lemma_le_bytes_digit(embedding@[i] as nat, 4, j);
        assert(chunk4(bytes32(embedding@), i)[j as int] == bytes32(embedding@)[4 * i + j]);
    }
}

/// A finished dataset names the nodes that were collected, in their order, and
/// its first four bytes are to become their number, least significant first. It is
/// refused exactly if that number does not fit.
pub proof fn law_a_finished_dataset_counts_what_was_collected(
    collector: InitialBuildCollector,
    outcome: Result<(FinishedDataset, Vec<u8>), DatasetError>,
    j: nat,
)
    requires
        call_ensures(InitialBuildCollector::finish, (collector,), outcome),
        j < 4,
    ensures
        outcome is Ok <==> collector.ids@.len() <= u32::MAX,
        match outcome {
            Ok((dataset, bytes)) => {
                &&& dataset.ids@ == collector.ids@
                &&& bytes@.len() == 4
                &&& bytes@[j as int] as int == (collector.ids@.len() as int / pow(256, j)) % 256
            },
            Err(err) => {
                &&& err matches DatasetError::TooManyPoints(words)
                &&& tells_of(words@, "DiskANN dataset point count does not fit in u32"@)
            },
        },
{
    lemma_le_bytes_digit(collector.ids@.len(), 4, j);
}

/// An index is built of a thousand points or more, and of no fewer; a refusal says
/// how many there are.
pub proof fn law_an_index_is_built_of_a_thousand_points_or_more(
    dataset: &FinishedDataset,
    buildable: Result<(), DatasetError>,
)
    requires
        call_ensures(FinishedDataset::check_buildable, (dataset,), buildable),
    ensures
        buildable is Ok <==> dataset.ids@.len() >= 1000,
        buildable matches Err(err) ==> err == (DatasetError::TooFewPoints {
            got: dataset.ids@.len() as usize,
        }),
{
}

/// A message says what is wrong with a dataset, with its numbers in decimal.
pub proof fn law_a_message_names_the_numbers_of_a_dataset(
    err: DatasetError,
    got: u64,
    expected: u64,
    got_text: String,
    expected_text: String,
    text: String,
)
    requires
        call_ensures(DatasetError::message, (&err,), text),
        err matches DatasetError::Dimensions { expected: e, got: g } ==> e == expected && g == got,
        err matches DatasetError::TooFewPoints { got: g } ==> g == got,
        call_ensures(decimal, (got,), got_text),
        call_ensures(decimal, (expected,), expected_text),
    ensures
        match err {
            DatasetError::TooManyDimensions(words) => text@ == words@,
            DatasetError::TooManyPoints(words) => text@ == words@,
            DatasetError::Dimensions { .. } => text@
                == "DiskANN vector dimensions mismatch: expected "@ + expected_text@ + ", got "@
                + got_text@,
            DatasetError::TooFewPoints { .. } => text@
                == "DiskANN requires at least 1000 vectors to build; got "@ + got_text@,
        },
{
}

} // verus!
