use beacon_core::api::{route, ApiError, DBPath, HttpMethod, Route};
use beacon_core::harness::AttestationStrategy;
use beacon_core::models::{AttestationData, BeaconBlockHeader, CrossLink, IndexedAttestation};

#[test]
fn api_errors_map_to_status_codes() {
    assert_eq!(ApiError::MethodNotAllowed("x".to_string()).status_code(), 405);
    assert_eq!(ApiError::ServerError("x".to_string()).status_code(), 500);
    assert_eq!(ApiError::NotImplemented("x".to_string()).status_code(), 501);
    assert_eq!(ApiError::InvalidQueryParams("x".to_string()).status_code(), 400);
    assert_eq!(ApiError::NotFound("x".to_string()).status_code(), 404);
    assert_eq!(ApiError::ImATeapot("x".to_string()).status_code(), 418);
    assert_eq!(ApiError::NotFound("gone".to_string()).description(), "gone");
}

#[test]
fn requests_are_routed() {
    assert_eq!(route(HttpMethod::Get, &"/beacon/state".to_string()), Ok(Route::BeaconState));
    assert_eq!(route(HttpMethod::Get, &"/beacon/state_root".to_string()), Ok(Route::BeaconStateRoot));
    assert_eq!(route(HttpMethod::Get, &"/metrics".to_string()), Ok(Route::Metrics));
    assert_eq!(route(HttpMethod::Get, &"/node/version".to_string()), Ok(Route::NodeVersion));
    assert_eq!(route(HttpMethod::Get, &"/node/genesis_time".to_string()), Ok(Route::NodeGenesisTime));
    assert_eq!(route(HttpMethod::Get, &"/node/syncing".to_string()), Ok(Route::NodeSyncing));
    assert_eq!(route(HttpMethod::Get, &"/validator/duties".to_string()), Ok(Route::ValidatorDuties));
    assert_eq!(route(HttpMethod::Get, &"/validator/block".to_string()), Ok(Route::ValidatorBlockGet));
    assert_eq!(route(HttpMethod::Post, &"/validator/block".to_string()), Ok(Route::ValidatorBlockPost));
    assert_eq!(
        route(HttpMethod::Get, &"/validator/attestation".to_string()),
        Ok(Route::ValidatorAttestationGet)
    );
    assert_eq!(
        route(HttpMethod::Post, &"/validator/attestation".to_string()),
        Ok(Route::ValidatorAttestationPost)
    );
    assert_eq!(
        route(HttpMethod::Other, &"/validator/block".to_string()),
        Err(ApiError::MethodNotAllowed("/validator/block".to_string()))
    );
    assert_eq!(
        route(HttpMethod::Post, &"/beacon/state".to_string()),
        Err(ApiError::MethodNotAllowed("/beacon/state".to_string()))
    );
    assert_eq!(
        route(HttpMethod::Get, &"/nowhere".to_string()),
        Err(ApiError::MethodNotAllowed("/nowhere".to_string()))
    );
}

#[test]
fn models_start_empty() {
    let d = AttestationData::new();
    assert!(d.beacon_block_root.is_none() && d.source_epoch.is_none() && d.crosslink.is_none());
    let h = BeaconBlockHeader::new();
    assert!(h.slot.is_none() && h.body_root.is_none());
    let i = IndexedAttestation::new();
    assert!(i.custody_bit_0_indices.is_none() && i.data.is_none());
    assert!(CrossLink::new().shard.is_none());
}

#[test]
fn db_path_derefs_to_its_path() {
    let p = DBPath("/tmp/chain".to_string());
    assert_eq!(p.len(), 10);
    assert_eq!(p.as_str(), "/tmp/chain");
    match AttestationStrategy::SomeValidators(vec![1, 2]) {
        AttestationStrategy::SomeValidators(v) => assert_eq!(v, vec![1, 2]),
        AttestationStrategy::AllValidators => panic!("wrong strategy"),
    }
}
