//! What an index is built with.

use crate::context::refusal_in_context;
use crate::context::tells_of;
use crate::text::glue;
use diskann::graph::config::defaults::ALPHA;
use diskann::graph::config::Builder;
use diskann::graph::config::ConfigError;
use diskann::graph::config::MaxDegree;
use std::path::PathBuf;
use vstd::prelude::*;

verus! {

/// How many points an index may hold.
pub const MAX_POINTS: usize = 1_000_000;

/// How many threads build and search an index.
pub const NUM_THREADS: usize = 1;

/// How the distance of two vectors is asked for.
#[derive(Debug, Clone, Copy, PartialEq, Eq, Structural)]
pub enum SpaceType {
    Euclidean,
    Cosine,
    DotProduct,
    Hamming,
}

/// How the distance of two vectors is computed.
#[derive(Debug, Clone, Copy, PartialEq, Eq, Structural)]
pub enum Metric {
    L2,
    Cosine,
    InnerProduct,
}

/// The space type has no metric.
#[derive(Debug, Clone, Copy, PartialEq, Eq, Structural)]
pub struct UnsupportedSpace;

impl UnsupportedSpace {
    /// The message of the error.
    pub fn message(&self) -> (text: &'static str)
        ensures
            text@ == "DiskANN does not support Hamming space type"@,
    {
        "DiskANN does not support Hamming space type"
    }
}

impl Metric {
    /// The metric of a space type, if it has one.
    pub open spec fn of(space_type: SpaceType) -> Option<Metric> {
        match space_type {
            SpaceType::Euclidean => Some(Metric::L2),
            SpaceType::Cosine => Some(Metric::Cosine),
            SpaceType::DotProduct => Some(Metric::InnerProduct),
            SpaceType::Hamming => None,
        }
    }

    /// The metric of a space type.
    pub fn try_from(space_type: SpaceType) -> (metric: Result<Metric, UnsupportedSpace>)
        ensures
            match metric {
                Ok(metric) => Metric::of(space_type) == Some(metric),
                Err(_) => Metric::of(space_type) is None,
            },
    {
        match space_type {
            SpaceType::Euclidean => Ok(Metric::L2),
            SpaceType::Cosine => Ok(Metric::Cosine),
            SpaceType::DotProduct => Ok(Metric::InnerProduct),
            SpaceType::Hamming => Err(UnsupportedSpace),
        }
    }
}

/// How the components of a vector are kept.
#[derive(Debug)]
pub enum Quantization {
    /// In full, as 32-bit floating point numbers.
    F32,
    /// In any other way, by its name.
    Other(String),
}

/// What is asked of an index.
#[derive(Debug)]
pub struct VsIndexConfiguration {
    pub dimensions: usize,
    pub connectivity: usize,
    pub expansion_add: usize,
    pub expansion_search: usize,
    pub space_type: SpaceType,
    pub quantization: Quantization,
}

/// `diskann::graph::config::ConfigError`: why a graph cannot be configured.
#[verifier::external_type_specification]
#[verifier::external_body]
pub struct ExConfigError(ConfigError);

/// How a graph is built. `alpha` is the bits of a 32-bit floating point number.
#[derive(Debug, Clone, Copy, PartialEq, Eq, Structural)]
pub struct GraphConfig {
    pub pruned_degree: usize,
    pub max_degree: usize,
    pub l_build: usize,
    pub alpha: u32,
}

/// What `diskann::graph::config::Builder::build` makes of its settings, with
/// the default slack for the maximum degree.
pub uninterp spec fn built_config(
    pruned_degree: usize,
    l_build: usize,
    metric: Metric,
    alpha: u32,
) -> Option<GraphConfig>;

/// Calls `diskann::graph::config::Builder::build` for a graph with the default
/// slack, and reads the configuration back. The degree and the list size are
/// kept as they were given; both have to be positive and to fit 32 bits, and
/// every such degree below 2^31 is accepted. `alpha` is not checked, and is
/// handed on. The slack only ever raises the maximum degree: it is computed in
/// floating point, and no clause says by how much.
#[verifier::external_body]
pub(crate) fn build_graph_config(
    pruned_degree: usize,
    l_build: usize,
    metric: Metric,
    alpha: u32,
) -> (built: Result<GraphConfig, ConfigError>)
    ensures
        match built {
            Ok(config) => {
                &&& built_config(pruned_degree, l_build, metric, alpha) == Some(config)
                &&& config.pruned_degree == pruned_degree
                &&& config.l_build == l_build
                &&& config.alpha == alpha
                &&& pruned_degree <= config.max_degree <= u32::MAX
                &&& 0 < pruned_degree <= u32::MAX
                &&& 0 < l_build <= u32::MAX
            },
            Err(_) => {
                &&& built_config(pruned_degree, l_build, metric, alpha) is None
                &&& !(0 < pruned_degree <= 0x7fff_ffff && 0 < l_build <= u32::MAX)
            },
        },
{
    let outside = match metric {
        Metric::L2 => diskann_vector::distance::Metric::L2,
        Metric::Cosine => diskann_vector::distance::Metric::Cosine,
        Metric::InnerProduct => diskann_vector::distance::Metric::InnerProduct,
    };
    let mut builder = Builder::new(pruned_degree, MaxDegree::default_slack(), l_build, outside.into());
    builder.alpha(bytemuck::cast(alpha));
    let config = builder.build()?;
    Ok(GraphConfig {
        pruned_degree: config.pruned_degree().get(),
        max_degree: config.max_degree().get(),
        l_build: config.l_build().get(),
        alpha,
    })
}

/// Calls no function: the constant `diskann::graph::config::defaults::ALPHA`,
/// the occlusion factor 1.2, as the bits of a 32-bit floating point number.
#[verifier::external_body]
pub(crate) fn default_alpha() -> (alpha: u32)
    ensures
        alpha == 0x3f99_999a,
{
    bytemuck::cast(ALPHA)
}

/// Why an index cannot be built as asked.
#[derive(Debug)]
pub enum ParamsError {
    /// Vectors are not kept in full; by which name.
    Quantization(String),
    /// The space type has no metric.
    Space(UnsupportedSpace),
    /// The graph cannot be configured; in which words.
    Graph(String),
    /// A search needs room for a candidate.
    NoSearchList,
}

impl ParamsError {
    /// What the message says.
    pub open spec fn says(self) -> Seq<char> {
        match self {
            ParamsError::Quantization(
                name,
            ) => "DiskANN engine (v1) only supports F32 quantization; got "@ + name@,
            ParamsError::Space(_) => "DiskANN does not support Hamming space type"@,
            ParamsError::Graph(text) => text@,
            ParamsError::NoSearchList => "expansion_search must be > 0"@,
        }
    }

    /// The message of the error.
    pub fn message(&self) -> (text: String)
        ensures
            text@ == self.says(),
    {
        match self {
            ParamsError::Quantization(name) => glue(
                "DiskANN engine (v1) only supports F32 quantization; got ",
                name.as_str(),
            ),
            ParamsError::Space(space) => space.message().to_string(),
            ParamsError::Graph(text) => text.clone(),
            ParamsError::NoSearchList => "expansion_search must be > 0".to_string(),
        }
    }
}

/// What an index is built with, once the graph's configuration has been built
/// or refused.
pub fn params_from_built(
    cfg: &VsIndexConfiguration,
    metric: Metric,
    max_points: usize,
    built: Result<GraphConfig, ConfigError>,
) -> (params: Result<DiskannParams, ParamsError>)
    ensures
        match built {
            Ok(config) => params == (if cfg.expansion_search == 0 {
                Err(ParamsError::NoSearchList)
            } else {
                Ok(
                    DiskannParams {
                        config,
                        metric,
                        space_type: cfg.space_type,
                        dim: cfg.dimensions,
                        max_points,
                        l_search_default: cfg.expansion_search,
                    },
                )
            }),
            Err(_) => {
                &&& params matches Err(ParamsError::Graph(text))
                &&& tells_of(text@, "failed to build DiskANN configuration"@)
            },
        },
{
    let config: GraphConfig = match built {
        Ok(config) => config,
        Err(err) => {
            return Err(
                ParamsError::Graph(
                    refusal_in_context(err, "failed to build DiskANN configuration"),
                ),
            );
        },
    };
    if cfg.expansion_search == 0 {
        return Err(ParamsError::NoSearchList);
    }
    Ok(
        DiskannParams {
            config,
            metric,
            space_type: cfg.space_type,
            dim: cfg.dimensions,
            max_points,
            l_search_default: cfg.expansion_search,
        },
    )
}

/// What an index is built with.
#[derive(Debug, Clone, Copy, PartialEq, Eq, Structural)]
pub struct DiskannParams {
    pub config: GraphConfig,
    pub metric: Metric,
    pub space_type: SpaceType,
    pub dim: usize,
    pub max_points: usize,
    pub l_search_default: usize,
}

/// What comes of asking for an index. The reasons to refuse are looked for in
/// this order: the quantization, the space type, the graph, the search list.
pub open spec fn is_outcome(
    cfg: VsIndexConfiguration,
    alpha: u32,
    max_points: usize,
    params: Result<DiskannParams, ParamsError>,
) -> bool {
    match params {
        Ok(params) => {
            &&& cfg.quantization is F32
            &&& Metric::of(cfg.space_type) == Some(params.metric)
            &&& built_config(cfg.connectivity, cfg.expansion_add, params.metric, alpha)
                == Some(params.config)
            &&& cfg.expansion_search > 0
            &&& params.config.pruned_degree == cfg.connectivity
            &&& params.config.l_build == cfg.expansion_add
            &&& params.config.alpha == alpha
            &&& params.config.max_degree >= cfg.connectivity > 0
            &&& params.space_type == cfg.space_type
            &&& params.dim == cfg.dimensions
            &&& params.max_points == max_points
            &&& params.l_search_default == cfg.expansion_search
        },
        Err(ParamsError::Quantization(name)) => cfg.quantization matches Quantization::Other(
            other,
        ) && name@ == other@,
        Err(ParamsError::Space(_)) => {
            &&& cfg.quantization is F32
            &&& Metric::of(cfg.space_type) is None
        },
        Err(ParamsError::Graph(text)) => {
            &&& tells_of(text@, "failed to build DiskANN configuration"@)
            &&& cfg.quantization is F32
            &&& Metric::of(cfg.space_type) matches Some(metric)
            &&& built_config(cfg.connectivity, cfg.expansion_add, metric, alpha) is None
            &&& !(0 < cfg.connectivity <= 0x7fff_ffff && 0 < cfg.expansion_add <= u32::MAX)
        },
        Err(ParamsError::NoSearchList) => {
            &&& cfg.quantization is F32
            &&& Metric::of(cfg.space_type) matches Some(metric)
            &&& built_config(cfg.connectivity, cfg.expansion_add, metric, alpha) is Some
            &&& cfg.expansion_search == 0
        },
    }
}

impl DiskannParams {
    /// What an index is built with, from what is asked of it. The reasons to
    /// refuse are looked for in this order: the quantization, the space type,
    /// the graph, the search list.
    pub fn try_from(cfg: &VsIndexConfiguration, alpha: u32, max_points: usize) -> (params: Result<
        Self,
        ParamsError,
    >)
        ensures
            is_outcome(*cfg, alpha, max_points, params),
    {
        if let Quantization::Other(name) = &cfg.quantization {
            return Err(ParamsError::Quantization(name.clone()));
        }
        let metric: Metric = match Metric::try_from(cfg.space_type) {
            Ok(metric) => metric,
            Err(space) => {
                return Err(ParamsError::Space(space));
            },
        };
        let built = build_graph_config(cfg.connectivity, cfg.expansion_add, metric, alpha);
        params_from_built(cfg, metric, max_points, built)
    }

    /// The configuration that an index is built by.
    pub fn index_configuration(self) -> (configuration: IndexConfiguration)
        ensures
            configuration == (IndexConfiguration {
                metric: self.metric,
                dim: self.dim,
                max_points: self.max_points,
                num_frozen_pts: 1,
                num_threads: NUM_THREADS,
                config: self.config,
            }),
    {
        IndexConfiguration {
            metric: self.metric,
            dim: self.dim,
            max_points: self.max_points,
            num_frozen_pts: 1,
            num_threads: NUM_THREADS,
            config: self.config,
        }
    }
}

/// The configuration that an index is built by.
#[derive(Debug, Clone, Copy, PartialEq, Eq, Structural)]
pub struct IndexConfiguration {
    pub metric: Metric,
    pub dim: usize,
    pub max_points: usize,
    pub num_frozen_pts: usize,
    pub num_threads: usize,
    pub config: GraphConfig,
}

/// No directory was configured for the indexes.
#[derive(Debug, Clone, Copy, PartialEq, Eq, Structural)]
pub struct MissingPath;

impl MissingPath {
    /// The message of the error.
    pub fn message(&self) -> (text: &'static str)
        ensures
            text@ == "DiskANN index path should be set"@,
    {
        "DiskANN index path should be set"
    }
}

/// A factory of indexes below `path`, with `alpha` or else the default
/// occlusion factor.
pub fn new_diskann(path: Option<PathBuf>, alpha: Option<u32>) -> (factory: Result<
    DiskannIndexFactory,
    MissingPath,
>)
    ensures
        match factory {
            Ok(factory) => {
                &&& path == Some(factory.diskann_index_path)
                &&& factory.alpha == (match alpha {
                    Some(alpha) => alpha,
                    None => 0x3f99_999a,
                })
            },
            Err(_) => path is None,
        },
{
    let diskann_index_path = match path {
        Some(path) => path,
        None => {
            return Err(MissingPath);
        },
    };
    let alpha: u32 = match alpha {
        Some(alpha) => alpha,
        None => default_alpha(),
    };
    Ok(DiskannIndexFactory { diskann_index_path, alpha })
}

/// Makes indexes below one directory.
pub struct DiskannIndexFactory {
    pub diskann_index_path: PathBuf,
    pub alpha: u32,
}

impl DiskannIndexFactory {
    /// The name of the engine, by its version.
    pub fn index_engine_version(&self) -> (version: String)
        ensures
            version@ == "diskann-0.54.0"@,
    {
        "diskann-0.54.0".to_string()
    }

    /// What an index of this factory is built with.
    pub fn params(&self, index: &VsIndexConfiguration) -> (params: Result<
        DiskannParams,
        ParamsError,
    >)
        ensures
            is_outcome(*index, self.alpha, MAX_POINTS, params),
    {
        DiskannParams::try_from(index, self.alpha, MAX_POINTS)
    }
}

/// Euclidean distance is computed as L2, and cosine and dot product as what they
/// are; Hamming distance is not computed.
pub proof fn law_every_space_but_hamming_has_a_metric(
    space_type: SpaceType,
    metric: Result<Metric, UnsupportedSpace>,
)
    requires
        call_ensures(Metric::try_from, (space_type,), metric),
    ensures
        match space_type {
            SpaceType::Euclidean => metric == Ok::<Metric, UnsupportedSpace>(Metric::L2),
            SpaceType::Cosine => metric == Ok::<Metric, UnsupportedSpace>(Metric::Cosine),
            SpaceType::DotProduct => metric == Ok::<Metric, UnsupportedSpace>(
                Metric::InnerProduct,
            ),
            SpaceType::Hamming => metric is Err,
        },
{
}

/// Parameters come of asking for an index, with this factor and this many points.
pub open spec fn is_asked(
    cfg: &VsIndexConfiguration,
    alpha: u32,
    max_points: usize,
    params: Result<DiskannParams, ParamsError>,
) -> bool {
    ||| call_ensures(DiskannParams::try_from, (cfg, alpha, max_points), params)
    ||| exists|factory: &DiskannIndexFactory|
        {
            &&& #[trigger] call_ensures(DiskannIndexFactory::params, (factory, cfg), params)
            &&& factory.alpha == alpha
            &&& max_points == 1_000_000
        }
}

/// An index is built with exactly what is asked for: its degree, both its list
/// sizes, its space type and the metric of it, its dimension, the factor and the
/// number of points that are given.
pub proof fn law_an_index_is_built_with_what_is_asked_for(
    cfg: &VsIndexConfiguration,
    alpha: u32,
    max_points: usize,
    params: Result<DiskannParams, ParamsError>,
)
    requires
        is_asked(cfg, alpha, max_points, params),
    ensures
        params matches Ok(params) ==> {
            &&& params.config.pruned_degree == cfg.connectivity
            &&& params.config.max_degree >= cfg.connectivity
            &&& params.config.l_build == cfg.expansion_add
            &&& params.config.alpha == alpha
            &&& params.metric == (match cfg.space_type {
                SpaceType::Euclidean => Metric::L2,
                SpaceType::Cosine => Metric::Cosine,
                _ => Metric::InnerProduct,
            })
            &&& params.space_type == cfg.space_type
            &&& params.dim == cfg.dimensions
            &&& params.max_points == max_points
            &&& params.l_search_default == cfg.expansion_search
        },
{
}

/// An index is refused for the first of these reasons that there is: its vectors
/// are not kept in full, its space has no metric, its degree or its list size is
/// zero or too large, or a search of it would have no room for a candidate.
/// Without any of them it is not refused.
pub proof fn law_an_index_is_refused_for_a_reason_only(
    cfg: &VsIndexConfiguration,
    alpha: u32,
    max_points: usize,
    params: Result<DiskannParams, ParamsError>,
)
    requires
        is_asked(cfg, alpha, max_points, params),
    ensures
        match params {
            Ok(_) => {
                &&& cfg.quantization is F32
                &&& cfg.space_type != SpaceType::Hamming
                &&& cfg.connectivity > 0
                &&& cfg.expansion_search > 0
            },
            Err(ParamsError::Quantization(name)) => cfg.quantization matches Quantization::Other(
                other,
            ) && name@ == other@,
            Err(ParamsError::Space(_)) => cfg.quantization is F32 && cfg.space_type
                == SpaceType::Hamming,
            Err(ParamsError::Graph(words)) => {
                &&& tells_of(words@, "failed to build DiskANN configuration"@)
                &&& cfg.quantization is F32
                &&& cfg.space_type != SpaceType::Hamming
                &&& cfg.connectivity == 0 || cfg.connectivity > 0x7fff_ffff || cfg.expansion_add == 0
                    || cfg.expansion_add > u32::MAX
            },
            Err(ParamsError::NoSearchList) => {
                &&& cfg.quantization is F32
                &&& cfg.space_type != SpaceType::Hamming
                &&& cfg.expansion_search == 0
            },
        },
        cfg.quantization is F32 && cfg.space_type != SpaceType::Hamming && 0 < cfg.connectivity
            <= 0x7fff_ffff && 0 < cfg.expansion_add <= u32::MAX && cfg.expansion_search > 0
            ==> params is Ok,
{
}

/// Parameters take over the configuration that was built for the graph and
/// everything else from what is asked for; without room for a candidate, or
/// without a configuration, there are none.
pub proof fn law_parameters_take_over_what_was_built(
    cfg: &VsIndexConfiguration,
    metric: Metric,
    max_points: usize,
    built: Result<GraphConfig, ConfigError>,
    params: Result<DiskannParams, ParamsError>,
)
    requires
        call_ensures(params_from_built, (cfg, metric, max_points, built), params),
    ensures
        params is Ok <==> built is Ok && cfg.expansion_search > 0,
        match params {
            Ok(params) => {
                &&& built == Ok::<GraphConfig, ConfigError>(params.config)
                &&& params.metric == metric
                &&& params.space_type == cfg.space_type
                &&& params.dim == cfg.dimensions
                &&& params.max_points == max_points
                &&& params.l_search_default == cfg.expansion_search
            },
            Err(ParamsError::Graph(words)) => built is Err && tells_of(
                words@,
                "failed to build DiskANN configuration"@,
            ),
            Err(err) => err is NoSearchList && cfg.expansion_search == 0,
        },
{
}

/// The configuration of an index is its parameters, with one frozen point and one
/// thread.
pub proof fn law_an_index_is_configured_by_its_parameters(
    params: DiskannParams,
    configuration: IndexConfiguration,
)
    requires
        call_ensures(DiskannParams::index_configuration, (params,), configuration),
    ensures
        configuration.metric == params.metric,
        configuration.dim == params.dim,
        configuration.max_points == params.max_points,
        configuration.num_frozen_pts == 1,
        configuration.num_threads == 1,
        configuration.config == params.config,
{
}

/// A factory needs a directory, which it keeps, and takes the factor that it is
/// given, or else 1.2.
pub proof fn law_a_factory_keeps_its_directory_and_its_factor(
    path: Option<PathBuf>,
    alpha: Option<u32>,
    factory: Result<DiskannIndexFactory, MissingPath>,
)
    requires
        call_ensures(new_diskann, (path, alpha), factory),
    ensures
        factory is Ok <==> path is Some,
        factory matches Ok(factory) ==> {
            &&& path == Some(factory.diskann_index_path)
            &&& alpha matches Some(alpha) ==> factory.alpha == alpha
            &&& alpha is None ==> factory.alpha == 0x3f99_999a
        },
{
}

/// The engine is named by its version, and what is missing by its name.
pub proof fn law_an_engine_is_named_by_its_version(
    factory: &DiskannIndexFactory,
    version: String,
    missing: MissingPath,
    path_text: &'static str,
    space: UnsupportedSpace,
    space_text: &'static str,
)
    requires
        call_ensures(DiskannIndexFactory::index_engine_version, (factory,), version),
        call_ensures(MissingPath::message, (&missing,), path_text),
        call_ensures(UnsupportedSpace::message, (&space,), space_text),
    ensures
        version@ == "diskann-0.54.0"@,
        path_text@ == "DiskANN index path should be set"@,
        space_text@ == "DiskANN does not support Hamming space type"@,
{
}

/// A refusal says why: by the name of the quantization, by the space type, in the
/// words for the graph, or by the list size.
pub proof fn law_a_refusal_says_why(err: ParamsError, text: String)
    requires
        call_ensures(ParamsError::message, (&err,), text),
    ensures
        match err {
            ParamsError::Quantization(name) => text@
                == "DiskANN engine (v1) only supports F32 quantization; got "@ + name@,
            ParamsError::Space(_) => text@ == "DiskANN does not support Hamming space type"@,
            ParamsError::Graph(words) => text@ == words@,
            ParamsError::NoSearchList => text@ == "expansion_search must be > 0"@,
        },
{
}

} // verus!
