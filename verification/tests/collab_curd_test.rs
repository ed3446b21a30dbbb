use appflowy_cloud::codec::EncodedEnvelope;
use appflowy_cloud::entity::{BatchCreateCollabParams, CollabParams, CollabType, QueryCollab,
    QueryCollabResult, StoreError};
use appflowy_cloud::store::CollabStore;
use appflowy_cloud::validator::validate_batch_create;
use appflowy_cloud::wire::{from_wire_shape, WireDoc, WireLeaf, WireValue};

fn create_random_bytes(size: usize, seed: u64) -> Vec<u8> {
    let mut out = Vec::with_capacity(size);
    let mut state = seed.wrapping_mul(6364136223846793005).wrapping_add(1442695040888963407);
    for _ in 0..size {
        state = state.wrapping_mul(6364136223846793005).wrapping_add(1442695040888963407);
        out.push((state >> 33) as u8);
    }
    out
}

#[test]
fn batch_insert_collab_with_empty_payload_test() {
    let mut store = CollabStore::new();
    let workspace_id = "workspace-1".to_string();
    let empty: Vec<CollabParams> = vec![];

    let error = store.batch_create(&workspace_id, &empty).unwrap_err();

    assert_eq!(error, StoreError::InvalidRequest);
}

#[test]
fn batch_insert_collab_success_test() {
    let mut store = CollabStore::new();
    let workspace_id = "workspace-1".to_string();

    let mock_encoded_collab_v1 = vec![
        create_random_bytes(100 * 1024, 1),
        create_random_bytes(300 * 1024, 2),
        create_random_bytes(600 * 1024, 3),
        create_random_bytes(800 * 1024, 4),
        create_random_bytes(1024 * 1024, 5),
    ];

    let params_list = (0..5)
        .map(|i| CollabParams {
            object_id: format!("object-{}", i),
            encoded_collab_v1: mock_encoded_collab_v1[i].clone(),
            collab_type: CollabType::Document,
            override_if_exist: false,
        })
        .collect::<Vec<_>>();

    store.batch_create(&workspace_id, &params_list).unwrap();

    let params = params_list
        .iter()
        .map(|params| QueryCollab {
            object_id: params.object_id.clone(),
            collab_type: params.collab_type,
        })
        .collect::<Vec<_>>();

    let result = store.batch_get(&workspace_id, &params);

    for params in &params_list {
        let encoded_collab = result.get(&params.object_id).unwrap();
        match encoded_collab {
            QueryCollabResult::Success { encode_collab_v1 } => {
                assert_eq!(encode_collab_v1, &params.encoded_collab_v1)
            },
            QueryCollabResult::Failed { .. } => {
                panic!("Failed to get collab");
            },
        }
    }

    assert_eq!(result.len(), 5);
}

#[test]
fn create_collab_params_compatibility_serde_test() {
    // The legacy flattened wire shape must parse into the canonical create
    // params with the same fields and a defaulted override flag.
    let old_version_value = WireDoc {
        fields: vec![
            (
                "object_id".to_string(),
                WireValue::Leaf(WireLeaf::Str("object_id".to_string())),
            ),
            (
                "encoded_collab_v1".to_string(),
                WireValue::Leaf(WireLeaf::IntArr(vec![0, 200])),
            ),
            (
                "workspace_id".to_string(),
                WireValue::Leaf(WireLeaf::Str("workspace_id".to_string())),
            ),
            ("collab_type".to_string(), WireValue::Leaf(WireLeaf::Int(0))),
        ],
    };

    let new_version_create_params = from_wire_shape(&old_version_value).unwrap();

    assert_eq!(new_version_create_params.inner.object_id, "object_id".to_string());
    assert_eq!(new_version_create_params.inner.encoded_collab_v1, vec![0u8, 200]);
    assert_eq!(new_version_create_params.workspace_id, "workspace_id".to_string());
    assert_eq!(new_version_create_params.inner.collab_type, CollabType::Document);
    assert!(!new_version_create_params.inner.override_if_exist);
}

#[test]
fn create_collab_compatibility_with_json_params_test() {
    let mut store = CollabStore::new();
    let workspace_id = "workspace-json".to_string();
    let object_id = "object-json".to_string();

    let encoded_collab = EncodedEnvelope::new_v1(vec![0, 1, 2, 3, 4, 5, 6], vec![7, 8, 9, 10]);
    let payload = encoded_collab.encode();
    let doc = WireDoc {
        fields: vec![
            (
                "inner".to_string(),
                WireValue::Obj(vec![
                    ("object_id".to_string(), WireLeaf::Str(object_id.clone())),
                    (
                        "encoded_collab_v1".to_string(),
                        WireLeaf::IntArr(payload.iter().map(|b| *b as i64).collect()),
                    ),
                    ("workspace_id".to_string(), WireLeaf::Str(workspace_id.clone())),
                    ("collab_type".to_string(), WireLeaf::Int(0)),
                    ("override_if_exist".to_string(), WireLeaf::Bool(false)),
                ]),
            ),
        ],
    };
    let params = from_wire_shape(&doc).unwrap();
    assert_eq!(params.workspace_id, workspace_id);

    store.batch_create(&workspace_id, &vec![params.inner]).unwrap();

    let result = store.batch_get(
        &workspace_id,
        &vec![QueryCollab { object_id: object_id.clone(), collab_type: CollabType::Document }],
    );
    match result.get(&object_id).unwrap() {
        QueryCollabResult::Success { encode_collab_v1 } => {
            let encoded_collab_from_server = EncodedEnvelope::decode(encode_collab_v1).unwrap();
            assert_eq!(encoded_collab, encoded_collab_from_server);
        },
        QueryCollabResult::Failed { .. } => panic!("Failed to get collab"),
    }
}

#[test]
fn batch_create_collab_compatibility_with_uncompress_params_test() {
    let mut store = CollabStore::new();
    let workspace_id = "workspace-batch".to_string();
    let object_id = "object-batch".to_string();

    let encoded_collab = EncodedEnvelope::new_v1(vec![0, 1, 2, 3, 4, 5, 6], vec![7, 8, 9, 10]);
    let params = BatchCreateCollabParams {
        workspace_id: workspace_id.clone(),
        params_list: vec![CollabParams {
            object_id: object_id.clone(),
            encoded_collab_v1: encoded_collab.encode(),
            collab_type: CollabType::Document,
            override_if_exist: false,
        }],
    };
    validate_batch_create(&params).unwrap();

    store.batch_create(&params.workspace_id, &params.params_list).unwrap();

    let result = store.batch_get(
        &workspace_id,
        &vec![QueryCollab { object_id: object_id.clone(), collab_type: CollabType::Document }],
    );
    match result.get(&object_id).unwrap() {
        QueryCollabResult::Success { encode_collab_v1 } => {
            let encoded_collab_from_server = EncodedEnvelope::decode(encode_collab_v1).unwrap();
            assert_eq!(encoded_collab, encoded_collab_from_server);
        },
        QueryCollabResult::Failed { .. } => panic!("Failed to get collab"),
    }
}
