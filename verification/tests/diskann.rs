use diskann_store::actor::appended;
use diskann_store::actor::built;
use diskann_store::actor::finished;
use diskann_store::actor::process_diskann_message;
use diskann_store::actor::send_failed_response;
use diskann_store::actor::DiskannActorState;
use diskann_store::actor::DiskannServingIndex;
use diskann_store::actor::Reply;
use diskann_store::actor::Step;
use diskann_store::actor::VsIndex;
use diskann_store::build_plan::plan_build;
use diskann_store::codec::decode_u32s;
use diskann_store::codec::decode_u64s;
use diskann_store::codec::encode_u32s;
use diskann_store::codec::encode_u64s;
use diskann_store::dataset::DatasetError;
use diskann_store::dataset::FinishedDataset;
use diskann_store::dataset::InitialBuildCollector;
use diskann_store::dataset::MIN_BUILD_POINTS;
use diskann_store::hits::gather;
use diskann_store::hits::resolve_hits;
use diskann_store::params::new_diskann;
use diskann_store::params::params_from_built;
use diskann_store::params::DiskannParams;
use diskann_store::params::GraphConfig;
use diskann_store::params::Metric;
use diskann_store::params::ParamsError;
use diskann_store::params::Quantization;
use diskann_store::params::SpaceType;
use diskann_store::params::VsIndexConfiguration;
use diskann_store::scope::check_never_leaves;
use diskann_store::scope::check_stays_within;
use diskann_store::scope::tame;
use diskann_store::ssd::dataset_path;
use diskann_store::ssd::index_dir;
use diskann_store::ssd::index_prefix;
use diskann_store::ssd::NodeLocalSsdProvider;
use diskann_store::text::decimal;
use diskann_store::text::glue;
use diskann_store::text::glue_number;
use std::path::PathBuf;

const ALPHA: f32 = 1.2;
const MAX_POINTS: usize = 1_000_000;

fn test_index() -> VsIndexConfiguration {
    VsIndexConfiguration {
        dimensions: 3,
        connectivity: 16,
        expansion_add: 64,
        expansion_search: 32,
        space_type: SpaceType::Euclidean,
        quantization: Quantization::F32,
    }
}

fn bits(vector: &[f32]) -> Vec<u32> {
    vector.iter().map(|value| value.to_bits()).collect()
}

fn add(primary_id: u64, vector: &[f32]) -> VsIndex {
    VsIndex::AddVector {
        partition_id: 1,
        primary_id,
        embedding: bits(vector),
    }
}

#[test]
fn diskann_metric_try_from_space_type() {
    assert_eq!(Metric::try_from(SpaceType::Euclidean).unwrap(), Metric::L2);
    assert_eq!(Metric::try_from(SpaceType::Cosine).unwrap(), Metric::Cosine);
    assert_eq!(
        Metric::try_from(SpaceType::DotProduct).unwrap(),
        Metric::InnerProduct
    );
    let err = Metric::try_from(SpaceType::Hamming).unwrap_err();
    assert_eq!(
        err.message(),
        "DiskANN does not support Hamming space type"
    );
}

#[test]
fn diskann_params_try_from_index_configuration() {
    let params = DiskannParams::try_from(&test_index(), ALPHA.to_bits(), MAX_POINTS).unwrap();

    assert_eq!(params.config.pruned_degree, 16);
    assert_eq!(params.dim, 3);
    assert_eq!(params.l_search_default, 32);
    assert_eq!(params.config.l_build, 64);
    assert_eq!(params.metric, Metric::L2);
}

#[test]
fn a_graph_has_slack_over_its_degree() {
    let params = DiskannParams::try_from(&test_index(), ALPHA.to_bits(), 7).unwrap();
    // The default slack is 1.3.
    assert_eq!(params.config.max_degree, 20);
    assert_eq!(f32::from_bits(params.config.alpha), 1.2);
    assert_eq!(params.max_points, 7);
    assert_eq!(params.space_type, SpaceType::Euclidean);
}

#[test]
fn an_index_is_refused_for_the_first_reason_there_is() {
    let mut cfg = test_index();
    cfg.expansion_search = 0;
    let err = DiskannParams::try_from(&cfg, ALPHA.to_bits(), MAX_POINTS).unwrap_err();
    assert!(matches!(err, ParamsError::NoSearchList));
    assert_eq!(err.message(), "expansion_search must be > 0");

    cfg.connectivity = 0;
    let err = DiskannParams::try_from(&cfg, ALPHA.to_bits(), MAX_POINTS).unwrap_err();
    assert!(matches!(err, ParamsError::Graph(_)));
    let text = err.message();
    assert!(text.starts_with("ANNError\n\nfailed to build DiskANN configuration -- ("));
    assert!(text.contains(")\n\nCaused by:\n"));
    assert!(text.contains("pruned_degree"));

    cfg.space_type = SpaceType::Hamming;
    let err = DiskannParams::try_from(&cfg, ALPHA.to_bits(), MAX_POINTS).unwrap_err();
    assert!(matches!(err, ParamsError::Space(_)));
    assert_eq!(err.message(), "DiskANN does not support Hamming space type");

    cfg.quantization = Quantization::Other("B1".to_string());
    let err = DiskannParams::try_from(&cfg, ALPHA.to_bits(), MAX_POINTS).unwrap_err();
    assert!(matches!(err, ParamsError::Quantization(_)));
    assert_eq!(
        err.message(),
        "DiskANN engine (v1) only supports F32 quantization; got B1"
    );
}

#[test]
fn a_graph_that_does_not_fit_is_refused() {
    let refused = |connectivity: usize, expansion_add: usize| {
        let mut cfg = test_index();
        cfg.connectivity = connectivity;
        cfg.expansion_add = expansion_add;
        DiskannParams::try_from(&cfg, ALPHA.to_bits(), MAX_POINTS).is_err()
    };
    assert!(refused(16, 0));
    assert!(refused(16, u32::MAX as usize + 1));
    assert!(refused(u32::MAX as usize + 1, 64));
    assert!(refused(u32::MAX as usize, 64));
    assert!(!refused(0x7fff_ffff, u32::MAX as usize));
    assert!(!refused(1, 1));
}

#[test]
fn an_index_is_configured_by_its_params() {
    let params = DiskannParams::try_from(&test_index(), ALPHA.to_bits(), MAX_POINTS).unwrap();
    let configuration = params.index_configuration();
    assert_eq!(configuration.metric, Metric::L2);
    assert_eq!(configuration.dim, 3);
    assert_eq!(configuration.max_points, MAX_POINTS);
    assert_eq!(configuration.num_frozen_pts, 1);
    assert_eq!(configuration.num_threads, 1);
    assert_eq!(configuration.config, params.config);
}

#[test]
fn params_take_over_a_built_graph() {
    let config = GraphConfig {
        pruned_degree: 4,
        max_degree: 5,
        l_build: 6,
        alpha: 7,
    };
    let params = params_from_built(&test_index(), Metric::Cosine, 9, Ok(config)).unwrap();
    assert_eq!(params.config, config);
    assert_eq!(params.metric, Metric::Cosine);
    assert_eq!(params.max_points, 9);
}

#[test]
fn a_factory_needs_a_path_and_defaults_its_alpha() {
    let err = new_diskann(None, Some(1)).err().unwrap();
    assert_eq!(err.message(), "DiskANN index path should be set");

    let factory = new_diskann(Some(PathBuf::from("/ssd")), None).ok().unwrap();
    assert_eq!(factory.diskann_index_path, PathBuf::from("/ssd"));
    assert_eq!(f32::from_bits(factory.alpha), 1.2);

    let factory = new_diskann(Some(PathBuf::from("/ssd")), Some(1.5f32.to_bits()))
        .ok()
        .unwrap();
    let params = factory.params(&test_index()).unwrap();
    assert_eq!(f32::from_bits(params.config.alpha), 1.5);
    assert_eq!(params.max_points, MAX_POINTS);
    assert_eq!(factory.index_engine_version(), "diskann-0.54.0");
}

#[test]
fn files_of_an_index_stay_in_its_directory() {
    let provider = NodeLocalSsdProvider::new(PathBuf::from("/ssd/ks.idx"));
    assert_eq!(
        provider.get_path("index.graph"),
        PathBuf::from("/ssd/ks.idx/index.graph")
    );
    assert_eq!(
        provider.get_path("sub/index.graph"),
        PathBuf::from("/ssd/ks.idx/sub/index.graph")
    );

    // A file of the directory, by its whole path.
    for path in [
        "/ssd/ks.idx/index_disk.index",
        "/ssd/ks.idx",
        "/ssd/ks.idx//a",
        "/ssd//ks.idx/x",
        "/ssd/./ks.idx/x",
        "/ssd/ks.idx/a/../b",
    ] {
        assert_eq!(provider.get_path(path).as_os_str(), path);
    }

    // A parent directory that is still in the directory.
    let provider = NodeLocalSsdProvider::new(PathBuf::from("/d"));
    for (item, path) in [
        ("a/../b", "/d/a/../b"),
        ("a/b/../../c", "/d/a/b/../../c"),
        ("a/..", "/d/a/.."),
        ("./a//b", "/d/./a//b"),
    ] {
        assert_eq!(provider.get_path(item).as_os_str(), path);
    }

    let dir = index_dir(&PathBuf::from("/ssd"), "ks.idx");
    assert_eq!(dir, PathBuf::from("/ssd/ks.idx"));
    assert_eq!(dataset_path(&dir), PathBuf::from("/ssd/ks.idx/dataset.bin"));
    assert_eq!(index_prefix(&dir), PathBuf::from("/ssd/ks.idx/index"));
}

#[test]
fn nothing_leads_out_of_the_directory() {
    let provider = NodeLocalSsdProvider::new(PathBuf::from("/ssd/ks.idx"));
    for (item, path) in [
        ("/elsewhere", "/ssd/ks.idx/elsewhere"),
        ("../x", "/ssd/ks.idx/x"),
        ("a/../../b", "/ssd/ks.idx/a/b"),
        ("/ssd/ks.idx2/x", "/ssd/ks.idx/ssd/ks.idx2/x"),
        ("/ssd/ks.idx/../x", "/ssd/ks.idx/ssd/ks.idx/x"),
        ("a/./../../b", "/ssd/ks.idx/a/./b"),
        ("/ssd/ks.idx/a/../../ks.idx/x", "/ssd/ks.idx/ssd/ks.idx/a/ks.idx/x"),
        ("//étage/..//ü", "/ssd/ks.idx/étage/ü"),
        ("..a/b../...", "/ssd/ks.idx/..a/b../..."),
    ] {
        assert_eq!(provider.get_path(item).as_os_str(), path, "{item}");
    }
    for item in ["", "..", "/", "/.."] {
        assert_eq!(provider.get_path(item), PathBuf::from("/ssd/ks.idx"), "{item}");
    }

    // A directory that ends in a separator, and one without a name.
    let provider = NodeLocalSsdProvider::new(PathBuf::from("/ssd/"));
    assert_eq!(provider.get_path("x"), PathBuf::from("/ssd/x"));
    assert_eq!(provider.get_path("/ssd/x"), PathBuf::from("/ssd/x"));
    assert_eq!(provider.get_path("/x"), PathBuf::from("/ssd/x"));
    let provider = NodeLocalSsdProvider::new(PathBuf::new());
    assert_eq!(provider.get_path("x"), PathBuf::from("x"));
    assert_eq!(provider.get_path("/x"), PathBuf::from("x"));
    assert_eq!(provider.get_path("../x"), PathBuf::from("x"));
}

#[test]
fn paths_are_within_a_directory_at_whole_components() {
    assert!(check_stays_within(b"/a", b"/a"));
    assert!(check_stays_within(b"/a", b"/a/b"));
    assert!(check_stays_within(b"/a/", b"/a/b"));
    assert!(!check_stays_within(b"/a", b"/ab"));
    assert!(!check_stays_within(b"/a", b"/a/../b"));
    assert!(!check_stays_within(b"/a", b"/b"));
    assert!(!check_stays_within(b"", b"/b"));
    assert!(check_stays_within(b"", b"b"));
    assert!(check_stays_within(b"/a/b", b"//a/./b/"));
    assert!(check_stays_within(b"/a/./b//", b"/a/b/c"));
    assert!(check_stays_within(b"/a", b"/a/b/../c"));
    assert!(check_stays_within(b"/a", b"/a/b/.."));
    assert!(!check_stays_within(b"/a", b"/a/b/../../a/c"));
    assert!(!check_stays_within(b"/a", b"a/b"));
    assert!(!check_stays_within(b"a", b"/a/b"));
    assert!(!check_stays_within(b"/a/b", b"/a"));
    assert!(!check_never_leaves(b".."));
    assert!(!check_never_leaves(b"./.."));
    assert!(!check_never_leaves(b"a/../.."));
    assert!(!check_never_leaves(b"a//../../b/c"));
    assert!(check_never_leaves(b"a/.."));
    assert!(check_never_leaves(b"a/b/../../c"));
    assert!(check_never_leaves(b"a..b/...c"));
    assert!(check_never_leaves(b"."));
    assert!(check_never_leaves(b""));
    assert_eq!(tame("/a//../b/"), "a/b");
}

#[test]
fn an_index_is_built_into_three_files() {
    let plan = plan_build(3, "/ssd/ks.idx/index").unwrap();
    assert_eq!(plan.pq_chunks, 1);
    assert_eq!(plan.disk_index_file, "/ssd/ks.idx/index_disk.index");
    assert_eq!(plan.pq_pivot_file, "/ssd/ks.idx/index_pq_pivots.bin");
    assert_eq!(plan.compressed_pq_file, "/ssd/ks.idx/index_pq_compressed.bin");
    assert!(plan_build(0, "index").is_err());
}

#[test]
fn a_dataset_is_count_dimension_vectors() {
    let (mut collector, mut file) = InitialBuildCollector::new(2).unwrap();
    file.extend(collector.add((1, 7), &bits(&[1.0, 2.0]), 2).unwrap());
    file.extend(collector.add((1, 8), &bits(&[3.0, 4.0]), 2).unwrap());
    file.extend(collector.add((2, 7), &bits(&[-5.0, 0.5]), 2).unwrap());
    assert_eq!(&file[..8], &[0, 0, 0, 0, 2, 0, 0, 0]);

    let (dataset, count) = collector.finish().unwrap();
    file[..count.len()].copy_from_slice(&count);
    assert_eq!(dataset.ids, vec![(1, 7), (1, 8), (2, 7)]);

    let mut expected = Vec::new();
    expected.extend(3u32.to_le_bytes());
    expected.extend(2u32.to_le_bytes());
    for value in [1.0f32, 2.0, 3.0, 4.0, -5.0, 0.5] {
        expected.extend(value.to_le_bytes());
    }
    assert_eq!(file, expected);
    assert_eq!(file.len(), 8 + 4 * 2 * 3);
}

#[test]
fn a_dataset_that_cannot_be_written_says_why() {
    let err = InitialBuildCollector::new(u32::MAX as usize + 1).unwrap_err();
    let text = err.message();
    assert_eq!(err, DatasetError::TooManyDimensions(text.clone()));
    assert!(text.starts_with("ANNError\n\nDiskANN dataset dimensions do not fit in u32 -- ("));
    let cause = u32::try_from(usize::MAX).unwrap_err().to_string();
    assert!(text.contains(&format!(")\n\nCaused by:\n    {cause}")));
    assert_eq!(
        DatasetError::TooManyPoints("too many".to_string()).message(),
        "too many"
    );
    assert!(InitialBuildCollector::new(u32::MAX as usize).is_ok());

    let (mut collector, _) = InitialBuildCollector::new(2).unwrap();
    let err = collector.add((1, 7), &bits(&[1.0]), 2).unwrap_err();
    assert_eq!(err, DatasetError::Dimensions { expected: 2, got: 1 });
    assert_eq!(
        err.message(),
        "DiskANN vector dimensions mismatch: expected 2, got 1"
    );
    assert_eq!(collector.ids, vec![]);
}

#[test]
fn an_index_needs_points_enough() {
    let dataset = |n: usize| FinishedDataset {
        ids: vec![(1, 2); n],
    };
    assert_eq!(MIN_BUILD_POINTS, 1000);
    assert_eq!(dataset(1000).check_buildable(), Ok(()));
    let err = dataset(999).check_buildable().unwrap_err();
    assert_eq!(err, DatasetError::TooFewPoints { got: 999 });
    assert_eq!(
        err.message(),
        "DiskANN requires at least 1000 vectors to build; got 999"
    );
}

fn collecting(dimensions: usize) -> DiskannActorState {
    DiskannActorState::Collecting(InitialBuildCollector::new(dimensions).unwrap().0)
}

fn serving() -> DiskannActorState {
    DiskannActorState::Serving(DiskannServingIndex {
        ids: vec![(1, 10), (1, 11), (2, 12)],
        space_type: SpaceType::Cosine,
        l_search_default: 32,
    })
}

fn failed() -> DiskannActorState {
    DiskannActorState::Failed("no space".to_string())
}

/// The state and the reply of a step that needs nothing from outside.
fn rest(step: Step) -> (DiskannActorState, Reply) {
    match step {
        Step::Rest { state, reply } => (state, reply),
        other => panic!("{other:?}"),
    }
}

fn error(reply: Reply) -> String {
    match reply {
        Reply::Error(text) => text,
        other => panic!("{other:?}"),
    }
}

#[test]
fn vectors_are_collected_until_the_scan_ends() {
    let step = process_diskann_message(collecting(2), add(7, &[1.0, 2.0]), 2);
    let Step::Append { collector, bytes } = step else {
        panic!("{step:?}");
    };
    assert_eq!(bytes, encode_u32s(&bits(&[1.0, 2.0])));
    let state = appended(collector, Ok(()));

    let (state, reply) = rest(process_diskann_message(state, VsIndex::Count, 2));
    assert!(matches!(reply, Reply::Count(1)));

    let removal = VsIndex::RemoveVector {
        partition_id: 1,
        primary_id: 7,
    };
    let (state, reply) = rest(process_diskann_message(state, removal, 2));
    assert!(matches!(reply, Reply::Silent));
    let removal = VsIndex::RemovePartition { partition_id: 1 };
    let (state, reply) = rest(process_diskann_message(state, removal, 2));
    assert!(matches!(reply, Reply::Silent));

    let step = process_diskann_message(state, VsIndex::InitialScanFinished, 2);
    let Step::Finish { dataset, bytes } = step else {
        panic!("{step:?}");
    };
    assert_eq!(dataset.ids, vec![(1, 7)]);
    assert_eq!(bytes, vec![1, 0, 0, 0]);
}

#[test]
fn nothing_is_served_before_the_scan_ends() {
    let query = VsIndex::Ann {
        embedding: bits(&[1.0, 2.0]),
        limit: 5,
    };
    let (state, reply) = rest(process_diskann_message(collecting(2), query, 2));
    assert_eq!(
        error(reply),
        "DiskANN index is still bootstrapping from full scan"
    );
    let (state, reply) = rest(process_diskann_message(state, VsIndex::FilteredAnn, 2));
    assert_eq!(
        error(reply),
        "DiskANN index is still bootstrapping from full scan"
    );
    assert!(matches!(state, DiskannActorState::Collecting(_)));
}

#[test]
fn a_vector_of_another_dimension_fails_the_index() {
    let (state, reply) = rest(process_diskann_message(collecting(2), add(7, &[1.0]), 2));
    assert!(matches!(reply, Reply::Silent));
    let (_, reply) = rest(process_diskann_message(state, VsIndex::Count, 2));
    assert_eq!(
        error(reply),
        "DiskANN index failed to build: DiskANN vector dimensions mismatch: expected 2, got 1"
    );
}

#[test]
fn what_could_not_be_written_fails_the_index() {
    let collector = InitialBuildCollector { ids: vec![(1, 7)] };
    let state = appended(collector, Err("disk full".to_string()));
    assert!(matches!(state, DiskannActorState::Failed(text) if text == "disk full"));

    let dataset = FinishedDataset { ids: vec![(1, 7); 2000] };
    assert_eq!(
        finished(dataset, Err("disk full".to_string())).unwrap_err(),
        "disk full"
    );
    let dataset = FinishedDataset { ids: vec![(1, 7); 10] };
    assert_eq!(
        finished(dataset, Ok(())).unwrap_err(),
        "DiskANN requires at least 1000 vectors to build; got 10"
    );
}

#[test]
fn a_scan_with_points_enough_is_built_and_served() {
    let dataset = FinishedDataset { ids: vec![(1, 7); 1000] };
    let dataset = finished(dataset, Ok(())).unwrap();
    let state = built(dataset, SpaceType::Cosine, 32, Ok(()));
    let (state, reply) = rest(process_diskann_message(state, VsIndex::Count, 2));
    assert!(matches!(reply, Reply::Count(1000)));
    let DiskannActorState::Serving(index) = state else {
        panic!("{state:?}");
    };
    assert_eq!(index.space_type, SpaceType::Cosine);
    assert_eq!(index.l_search_default, 32);

    let dataset = FinishedDataset { ids: vec![(1, 7); 1000] };
    let state = built(dataset, SpaceType::Cosine, 32, Err("out of memory".to_string()));
    assert!(matches!(state, DiskannActorState::Failed(text) if text == "out of memory"));
}

#[test]
fn a_serving_index_searches() {
    let query = VsIndex::Ann {
        embedding: bits(&[1.0, 2.0]),
        limit: 0x1_0000_0003,
    };
    let step = process_diskann_message(serving(), query, 2);
    let Step::Search { serving, query, k, l } = step else {
        panic!("{step:?}");
    };
    assert_eq!(serving.ids.len(), 3);
    assert_eq!(query, bits(&[1.0, 2.0]));
    assert_eq!(k, 3);
    assert_eq!(l, 32);
}

#[test]
fn a_serving_index_answers_what_it_cannot_search() {
    let query = VsIndex::Ann {
        embedding: bits(&[1.0]),
        limit: 5,
    };
    let (state, reply) = rest(process_diskann_message(serving(), query, 2));
    assert_eq!(
        error(reply),
        "DiskANN query dimensions mismatch: expected 2, got 1"
    );
    let (state, reply) = rest(process_diskann_message(state, VsIndex::FilteredAnn, 2));
    assert_eq!(error(reply), "DiskANN filtered ANN is not implemented yet");
    let (state, reply) = rest(process_diskann_message(state, VsIndex::Count, 2));
    assert!(matches!(reply, Reply::Count(3)));

    // Updates and a second end of the scan change nothing.
    let (state, reply) = rest(process_diskann_message(state, add(9, &[1.0, 2.0]), 2));
    assert!(matches!(reply, Reply::Silent));
    let (state, reply) = rest(process_diskann_message(state, VsIndex::InitialScanFinished, 2));
    assert!(matches!(reply, Reply::Silent));
    let DiskannActorState::Serving(index) = state else {
        panic!("{state:?}");
    };
    assert_eq!(index.ids, vec![(1, 10), (1, 11), (2, 12)]);
}

#[test]
fn a_failed_index_stays_failed_and_says_why() {
    let said = "DiskANN index failed to build: no space";
    let query = VsIndex::Ann {
        embedding: bits(&[1.0, 2.0]),
        limit: 5,
    };
    let (state, reply) = rest(process_diskann_message(failed(), query, 2));
    assert_eq!(error(reply), said);
    let (state, reply) = rest(process_diskann_message(state, VsIndex::FilteredAnn, 2));
    assert_eq!(error(reply), said);
    let (state, reply) = rest(process_diskann_message(state, VsIndex::Count, 2));
    assert_eq!(error(reply), said);
    let (state, reply) = rest(process_diskann_message(state, add(9, &[1.0, 2.0]), 2));
    assert!(matches!(reply, Reply::Silent));
    let (state, reply) = rest(process_diskann_message(state, VsIndex::InitialScanFinished, 2));
    assert!(matches!(reply, Reply::Silent));
    assert!(matches!(state, DiskannActorState::Failed(text) if text == "no space"));
    assert_eq!(
        error(send_failed_response("x", &VsIndex::Count)),
        "DiskANN index failed to build: x"
    );
}

#[test]
fn hits_without_a_row_are_left_out() {
    let nodes = resolve_hits(&[(1, 10), (1, 11)], &[1, 2, 0, u32::MAX]);
    assert_eq!(nodes, vec![Some((1, 11)), None, Some((1, 10)), None]);

    let found: Vec<Option<(&str, Result<u32, &str>)>> =
        vec![Some(("a", Ok(1))), None, Some(("b", Ok(2)))];
    assert_eq!(gather(found), Ok((vec!["a", "b"], vec![1, 2])));
}

#[test]
fn the_first_bad_distance_fails_a_search() {
    let found: Vec<Option<(&str, Result<u32, &str>)>> = vec![
        Some(("a", Ok(1))),
        Some(("b", Err("first"))),
        None,
        Some(("c", Err("second"))),
    ];
    assert_eq!(gather(found), Err("first"));
}

#[test]
fn words_are_little_endian() {
    assert_eq!(encode_u64s(&[1, 0x0102030405060708]), {
        let mut bytes = 1u64.to_le_bytes().to_vec();
        bytes.extend(0x0102030405060708u64.to_le_bytes());
        bytes
    });
    assert_eq!(encode_u32s(&[0x01020304]), vec![4, 3, 2, 1]);
    assert_eq!(decode_u32s(&[4, 3, 2, 1, 9]), vec![0x01020304]);
    assert_eq!(decode_u64s(&[1, 0, 0, 0, 0, 0, 0, 2]), vec![0x0200000000000001]);
}

#[test]
fn numbers_are_written_in_decimal() {
    assert_eq!(decimal(0), "0");
    assert_eq!(decimal(10), "10");
    assert_eq!(decimal(u64::MAX), "18446744073709551615");
    assert_eq!(glue("a", "b"), "ab");
    assert_eq!(glue_number("<", 42, ">"), "<42>");
}
