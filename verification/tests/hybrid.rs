use diskann_store::hybrid::check_below_status;
use diskann_store::hybrid::check_query;
use diskann_store::hybrid::check_start_point;
use diskann_store::hybrid::check_start_status;
use diskann_store::hybrid::choose_flagged;
use diskann_store::hybrid::index_loaded;
use diskann_store::hybrid::pair_loaded;
use diskann_store::hybrid::start_slot;
use diskann_store::hybrid::HybridProvider;
use diskann_store::hybrid::NoVectors;
use diskann_store::hybrid::SetError;
use diskann_store::hybrid::TranslateIds;
use diskann_store::hybrid_error::ElementStatus;
use diskann_store::hybrid_error::HybridError;

#[test]
fn a_layer_without_vectors_checks_the_dimension_only() {
    let layer = NoVectors::new(3);
    assert_eq!(layer.bytes(), 1);
    assert_eq!(layer.set(&[1.0f32, 2.0, 3.0]), Ok(()));
    let err = layer.set(&[1.0f32]).unwrap_err();
    assert_eq!(err, HybridError::Element { got: 1, expected: 3 });
    assert_eq!(err.message(), "wrong dimension: got 1, expected 3");
    assert_eq!(
        HybridError::NoDistance.message(),
        "the NoVectors layer stores no vector data; distances must go through HybridPruneAccessor"
    );
}

#[test]
fn start_point_and_query_have_the_dimension_of_the_index() {
    assert_eq!(check_start_point(&[1.0f32, 2.0], 2), Ok(()));
    let err = check_start_point(&[1.0f32], 2).unwrap_err();
    assert_eq!(
        err.message(),
        "start point has dimension 1 but the index expects 2"
    );
    assert_eq!(check_query(&[1.0f32, 2.0], 2), Ok(()));
    let err = check_query(&[1.0f32, 2.0, 3.0], 2).unwrap_err();
    assert_eq!(err.message(), "query has dimension 3 but the index expects 2");
}

#[test]
fn the_start_point_is_behind_the_writable_slots() {
    assert_eq!(start_slot(64), Ok(64));
    assert_eq!(start_slot(u32::MAX as usize), Ok(u32::MAX));
    let err = start_slot(u32::MAX as usize + 1).unwrap_err();
    assert_eq!(
        err.message(),
        "max_points 4294967296 does not fit in a u32 slot id"
    );

    assert_eq!(check_start_status(64, ElementStatus::Valid), Ok(Some(63)));
    assert_eq!(check_start_status(0, ElementStatus::Valid), Ok(None));
    let err = check_start_status(64, ElementStatus::Deleted).unwrap_err();
    assert_eq!(
        err.message(),
        "expected the start point in slot 64, found Deleted; \
         the diskann-inmem frozen slot layout has probably changed"
    );
    assert_eq!(check_below_status(63, ElementStatus::Deleted), Ok(()));
    let err = check_below_status(63, ElementStatus::Valid).unwrap_err();
    assert_eq!(
        err.message(),
        "expected slot 63 to be an unallocated writable slot, found Valid; \
         the diskann-inmem frozen slot layout has probably changed"
    );
}

#[test]
fn a_provider_checks_the_start_point_first() {
    let too_many = u32::MAX as usize + 1;
    assert_eq!(
        HybridProvider::new(vec![1, 2], 3, too_many).unwrap_err(),
        HybridError::StartPoint { got: 2, expected: 3 }
    );
    assert_eq!(
        HybridProvider::new(vec![1, 2], 2, too_many).unwrap_err(),
        HybridError::TooManyPoints { max_points: too_many }
    );
    let provider = HybridProvider::new(vec![1, 2], 2, 5).unwrap();
    assert_eq!(provider.start_id, 5);
    assert_eq!(provider.dim, 2);
}

#[test]
fn loaded_vectors_are_aligned_with_the_ids() {
    let mut provider = HybridProvider::new(vec![90], 1, 9).unwrap();
    provider.hold(4, vec![40]);
    assert_eq!(provider.starting_points(), vec![9]);

    // The start point, an element with a row, one without, an insert that is
    // not over, and another element with a row.
    let ids = [9, 1, 2, 4, 3];
    let externals = [None, Some(101), None, Some(104), Some(103)];
    let plan = provider.plan_load(&ids, &externals);
    assert_eq!(plan.wanted, vec![101, 103]);
    assert_eq!(plan.slots, vec![1, 4]);

    let loaded = plan.finish(vec![Some(vec![10]), None]).unwrap();
    assert_eq!(
        loaded,
        vec![Some(vec![90]), Some(vec![10]), None, Some(vec![40]), None]
    );
}

#[test]
fn the_source_returns_one_entry_per_id() {
    let provider = HybridProvider::new(vec![90], 1, 9).unwrap();
    let plan = provider.plan_load(&[1, 2], &[Some(101), Some(102)]);
    let err = plan.finish(vec![Some(vec![10])]).unwrap_err();
    assert_eq!(err, HybridError::Misaligned { got: 1, expected: 2 });
    assert_eq!(
        err.message(),
        "vector source returned 1 results for 2 ids; \
         implementations must return one entry per id, in order"
    );

    // Nothing to fetch, nothing to return.
    let plan = provider.plan_load(&[9], &[None]);
    assert!(plan.wanted.is_empty());
    assert_eq!(plan.finish(vec![]).unwrap(), vec![Some(vec![90])]);
}

#[test]
fn an_insert_is_served_from_memory_until_it_is_over() {
    let mut provider = HybridProvider::new(vec![90, 91], 2, 9).unwrap();
    let begun: Result<u32, SetError<&str>> = provider.set_element(vec![40, 41], Ok(4));
    assert_eq!(begun.ok(), Some(4));

    // Another insert comes and goes.
    provider.hold(5, vec![50, 51]);
    provider.release(5);
    let plan = provider.plan_load(&[4], &[Some(104)]);
    assert!(plan.wanted.is_empty());
    assert_eq!(plan.finish(vec![]).unwrap(), vec![Some(vec![40, 41])]);

    provider.release(4);
    assert_eq!(provider.plan_load(&[4], &[Some(104)]).wanted, vec![104]);
}

#[test]
fn an_insert_that_is_refused_keeps_nothing() {
    let mut provider = HybridProvider::new(vec![90, 91], 2, 9).unwrap();
    let refused = provider.set_element(vec![40, 41], Err("no slot"));
    assert!(matches!(refused, Err(SetError::Graph("no slot"))));
    let refused: Result<u32, SetError<&str>> = provider.set_element(vec![40], Ok(4));
    assert!(matches!(
        refused,
        Err(SetError::Element(HybridError::Element { got: 1, expected: 2 }))
    ));
    assert!(provider.inflight.is_empty());
}

#[test]
fn an_insert_leaves_nothing_behind() {
    let mut provider = HybridProvider::new(vec![90], 1, 9).unwrap();
    assert!(!provider.is_resident(4));
    assert!(provider.is_resident(9));
    provider.hold(4, vec![40]);
    provider.hold(5, vec![50]);
    assert!(provider.is_resident(4));
    provider.release(4);
    assert!(!provider.is_resident(4));
    assert!(provider.is_resident(5));
    provider.release(5);
    assert!(provider.inflight.is_empty());
}

#[test]
fn candidates_are_collected_in_order() {
    let mut candidates = vec![1];
    choose_flagged(&mut candidates, &[5, 6, 7], &[true, false, true]);
    assert_eq!(candidates, vec![1, 5, 7]);
    choose_flagged(&mut candidates, &[], &[]);
    assert_eq!(candidates, vec![1, 5, 7]);
}

#[test]
fn rows_that_vanished_are_skipped() {
    let pairs = pair_loaded(&[5, 6, 7], vec![Some("a"), None, Some("c")]);
    assert_eq!(pairs, vec![(5, "a"), (7, "c")]);

    let index = index_loaded(&[5, 6, 7, 5], vec![Some("a"), None, Some("c"), Some("d")]);
    assert_eq!(index.len(), 2);
    assert_eq!(index[&5], "d");
    assert_eq!(index[&7], "c");
}

#[test]
fn results_are_handed_over_until_the_output_is_full() {
    let mut translation = TranslateIds::new();
    assert_eq!(translation.offer(None), None);
    assert_eq!(translation.offer(Some(101)), Some(101));
    translation.pushed(true);
    translation.pushed(true);
    translation.pushed(false);
    assert_eq!(translation.count, 2);
    assert!(translation.full);
    assert_eq!(translation.offer(Some(102)), None);
}

#[test]
fn a_deleted_vector_cannot_be_supplied() {
    assert_eq!(
        HybridError::DeletedVector { id: 17 }.message(),
        "cannot supply the vector for internal id 17: this provider retains no \
         vector data, and a deleted row is already gone from the base table by the \
         time the delete reaches us. Use InplaceDeleteMethod::OneHop or \
         TwoHopAndOneHop, neither of which reads the deleted vector."
    );
}
