//! What an index is built into.

use diskann_disk::disk_index_build_parameter::NumPQChunks;
use diskann_disk::disk_index_build_parameter::PQChunksError;
use diskann_providers::storage::get_compressed_pq_file;
use diskann_providers::storage::get_disk_index_file;
use diskann_providers::storage::get_pq_pivot_file;
use vstd::prelude::*;

verus! {

/// How many chunks vectors are quantized in for a search.
pub const BUILD_PQ_CHUNKS: usize = 1;

/// `diskann_providers::storage::get_disk_index_file`: the prefix with the ending
/// of the graph's file.
pub assume_specification [get_disk_index_file](index_path_prefix: &str) -> (file: String)
    ensures
        file@ == index_path_prefix@ + "_disk.index"@,
;

/// `diskann_providers::storage::get_pq_pivot_file`: the prefix with the ending of
/// the file of quantization pivots.
pub assume_specification [get_pq_pivot_file](index_path_prefix: &str) -> (file: String)
    ensures
        file@ == index_path_prefix@ + "_pq_pivots.bin"@,
;

/// `diskann_providers::storage::get_compressed_pq_file`: the prefix with the
/// ending of the file of quantized vectors.
pub assume_specification [get_compressed_pq_file](index_path_prefix: &str) -> (file: String)
    ensures
        file@ == index_path_prefix@ + "_pq_compressed.bin"@,
;

/// `diskann_disk::disk_index_build_parameter::PQChunksError`: why vectors cannot
/// be quantized in so many chunks.
#[verifier::external_type_specification]
#[verifier::external_body]
pub struct ExPQChunksError(PQChunksError);

/// Calls `diskann_disk::disk_index_build_parameter::NumPQChunks::new_with`: there
/// has to be a chunk, and no more chunks than components.
#[verifier::external_body]
pub(crate) fn num_pq_chunks(num_chunks: usize, dim: usize) -> (chunks: Result<usize, PQChunksError>)
    ensures
        match chunks {
            Ok(chunks) => chunks == num_chunks && 0 < num_chunks <= dim,
            Err(_) => !(0 < num_chunks <= dim),
        },
{
    Ok(NumPQChunks::new_with(num_chunks, dim)?.get())
}

/// What an index is built into: how finely its vectors are quantized, and the
/// names of its files.
#[derive(Debug)]
pub struct BuildPlan {
    pub pq_chunks: usize,
    pub disk_index_file: String,
    pub pq_pivot_file: String,
    pub compressed_pq_file: String,
}

/// What an index of vectors of `dimensions` components is built into, below a
/// prefix for its files.
pub fn plan_build(dimensions: usize, index_prefix: &str) -> (plan: Result<BuildPlan, PQChunksError>)
    ensures
        match plan {
            Ok(plan) => {
                &&& dimensions > 0
                &&& plan.pq_chunks == BUILD_PQ_CHUNKS
                &&& plan.disk_index_file@ == index_prefix@ + "_disk.index"@
                &&& plan.pq_pivot_file@ == index_prefix@ + "_pq_pivots.bin"@
                &&& plan.compressed_pq_file@ == index_prefix@ + "_pq_compressed.bin"@
            },
            Err(_) => dimensions == 0,
        },
{
    let pq_chunks: usize = match num_pq_chunks(BUILD_PQ_CHUNKS, dimensions) {
        Ok(chunks) => chunks,
        Err(err) => {
            return Err(err);
        },
    };
    Ok(
        BuildPlan {
            pq_chunks,
            disk_index_file: get_disk_index_file(index_prefix),
            pq_pivot_file: get_pq_pivot_file(index_prefix),
            compressed_pq_file: get_compressed_pq_file(index_prefix),
        },
    )
}

/// An index of vectors that have a component is built into three files, whose
/// names are the prefix and an ending each, with vectors quantized in one chunk.
/// For vectors without components there is no plan.
pub proof fn law_the_files_of_an_index_are_named_by_its_prefix(
    dimensions: usize,
    index_prefix: &str,
    plan: Result<BuildPlan, PQChunksError>,
)
    requires
        call_ensures(plan_build, (dimensions, index_prefix), plan),
    ensures
        plan is Ok <==> dimensions > 0,
        plan matches Ok(plan) ==> {
            &&& plan.pq_chunks == 1
            &&& plan.disk_index_file@ == index_prefix@ + "_disk.index"@
            &&& plan.pq_pivot_file@ == index_prefix@ + "_pq_pivots.bin"@
            &&& plan.compressed_pq_file@ == index_prefix@ + "_pq_compressed.bin"@
        },
{
}

} // verus!
