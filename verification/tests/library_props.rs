use appflowy_cloud::codec::{EncodedEnvelope, FORMAT_VERSION};
use appflowy_cloud::entity::{CollabParams, CollabType, DecodeError, FailedReason, QueryCollab,
    QueryCollabParams, QueryCollabResult, StoreError};
use appflowy_cloud::metrics::{AppFlowyCloudMetrics, PathLabel, ResultLabel, TraceLabel};
use appflowy_cloud::store::CollabStore;
use appflowy_cloud::validator::validate_batch_query;
use appflowy_cloud::wire::{from_wire_shape, WireDoc, WireError, WireField, WireLeaf, WireValue};

fn item(object_id: &str, bytes: Vec<u8>, override_if_exist: bool) -> CollabParams {
    CollabParams {
        object_id: object_id.to_string(),
        encoded_collab_v1: bytes,
        collab_type: CollabType::Document,
        override_if_exist,
    }
}

fn query(object_id: &str) -> QueryCollab {
    QueryCollab { object_id: object_id.to_string(), collab_type: CollabType::Document }
}

#[test]
fn envelope_round_trip() {
    let envelope = EncodedEnvelope::new_v1(vec![10, 20, 30], vec![40, 50]);
    let bytes = envelope.encode();
    let decoded = EncodedEnvelope::decode(&bytes).unwrap();
    assert_eq!(decoded, envelope);
}

#[test]
fn envelope_exact_layout() {
    let envelope = EncodedEnvelope::new_v1(vec![0xAA], vec![]);
    let bytes = envelope.encode();
    assert_eq!(
        bytes,
        vec![1u8, 1, 0, 0, 0, 0, 0, 0, 0, 0xAA, 0, 0, 0, 0, 0, 0, 0, 0]
    );
    assert_eq!(FORMAT_VERSION, 1);
}

#[test]
fn envelope_empty_round_trip() {
    let envelope = EncodedEnvelope::new_v1(vec![], vec![]);
    let bytes = envelope.encode();
    assert_eq!(bytes.len(), 17);
    let decoded = EncodedEnvelope::decode(&bytes).unwrap();
    assert_eq!(decoded, envelope);
}

#[test]
fn envelope_decode_truncated() {
    assert_eq!(EncodedEnvelope::decode(&[]).unwrap_err(), DecodeError::Truncated);
    assert_eq!(EncodedEnvelope::decode(&[1, 2, 3]).unwrap_err(), DecodeError::Truncated);
    // announces one state byte but carries none
    let short = vec![1u8, 1, 0, 0, 0, 0, 0, 0, 0];
    assert_eq!(EncodedEnvelope::decode(&short).unwrap_err(), DecodeError::Truncated);
}

#[test]
fn envelope_decode_unsupported_version() {
    let envelope = EncodedEnvelope::new_v1(vec![1, 2], vec![3]);
    let mut bytes = envelope.encode();
    bytes[0] = 9;
    assert_eq!(EncodedEnvelope::decode(&bytes).unwrap_err(), DecodeError::UnsupportedVersion);
}

#[test]
fn envelope_decode_malformed_trailing_bytes() {
    let envelope = EncodedEnvelope::new_v1(vec![1, 2], vec![3]);
    let mut bytes = envelope.encode();
    bytes.push(0);
    assert_eq!(EncodedEnvelope::decode(&bytes).unwrap_err(), DecodeError::Malformed);
}

#[test]
fn collab_type_codes_round_trip() {
    let kinds = [
        CollabType::Document,
        CollabType::Database,
        CollabType::WorkspaceDatabase,
        CollabType::Folder,
        CollabType::DatabaseRow,
        CollabType::UserAwareness,
        CollabType::Unknown,
    ];
    for (i, kind) in kinds.iter().enumerate() {
        assert_eq!(kind.code(), i as i64);
        assert_eq!(CollabType::from_code(i as i64), Some(*kind));
    }
    assert_eq!(CollabType::from_code(42), None);
    assert_eq!(CollabType::from_code(-1), None);
}

#[test]
fn empty_query_batch_is_allowed() {
    let params = QueryCollabParams { workspace_id: "ws".to_string(), queries: vec![] };
    validate_batch_query(&params).unwrap();
    let store = CollabStore::new();
    let result = store.batch_get(&params.workspace_id, &params.queries);
    assert_eq!(result.len(), 0);
}

#[test]
fn conflict_without_override_keeps_stored_bytes() {
    let mut store = CollabStore::new();
    let ws = "ws".to_string();
    store.batch_create(&ws, &vec![item("a", vec![1, 2, 3], false)]).unwrap();

    let error = store.batch_create(&ws, &vec![item("a", vec![9, 9], false)]).unwrap_err();
    assert_eq!(error, StoreError::Conflict("a".to_string()));

    let result = store.batch_get(&ws, &vec![query("a")]);
    assert_eq!(
        result.get(&"a".to_string()).unwrap(),
        &QueryCollabResult::Success { encode_collab_v1: vec![1, 2, 3] }
    );
}

#[test]
fn override_replaces_stored_bytes() {
    let mut store = CollabStore::new();
    let ws = "ws".to_string();
    store.batch_create(&ws, &vec![item("a", vec![1, 2, 3], false)]).unwrap();
    store.batch_create(&ws, &vec![item("a", vec![7, 7, 7], true)]).unwrap();

    let result = store.batch_get(&ws, &vec![query("a")]);
    assert_eq!(
        result.get(&"a".to_string()).unwrap(),
        &QueryCollabResult::Success { encode_collab_v1: vec![7, 7, 7] }
    );
}

#[test]
fn partial_failure_read_has_one_entry_per_object() {
    let mut store = CollabStore::new();
    let ws = "ws".to_string();
    store.batch_create(&ws, &vec![item("a", vec![5], false)]).unwrap();

    let result = store.batch_get(&ws, &vec![query("a"), query("b")]);
    assert_eq!(result.len(), 2);
    assert_eq!(
        result.get(&"a".to_string()).unwrap(),
        &QueryCollabResult::Success { encode_collab_v1: vec![5] }
    );
    assert_eq!(
        result.get(&"b".to_string()).unwrap(),
        &QueryCollabResult::Failed { reason: FailedReason::NotFound }
    );
    assert!(result.get(&"c".to_string()).is_none());
}

#[test]
fn duplicate_queries_collapse_to_one_entry() {
    let mut store = CollabStore::new();
    let ws = "ws".to_string();
    store.batch_create(&ws, &vec![item("a", vec![5], false)]).unwrap();
    let result = store.batch_get(&ws, &vec![query("a"), query("a")]);
    assert_eq!(result.len(), 1);
}

#[test]
fn duplicate_create_items_last_write_wins() {
    // Within one batch, conflicts are judged against the state before the
    // call, and items apply in list order: the later duplicate wins.
    let mut store = CollabStore::new();
    let ws = "ws".to_string();
    store
        .batch_create(&ws, &vec![item("a", vec![1], false), item("a", vec![2], false)])
        .unwrap();
    let result = store.batch_get(&ws, &vec![query("a")]);
    assert_eq!(
        result.get(&"a".to_string()).unwrap(),
        &QueryCollabResult::Success { encode_collab_v1: vec![2] }
    );
}

#[test]
fn failed_batch_leaves_no_item_visible() {
    let mut store = CollabStore::new();
    let ws = "ws".to_string();
    store.batch_create(&ws, &vec![item("existing", vec![1], false)]).unwrap();

    let batch = vec![
        item("fresh-1", vec![10], false),
        item("existing", vec![11], false),
        item("fresh-2", vec![12], false),
    ];
    let error = store.batch_create(&ws, &batch).unwrap_err();
    assert_eq!(error, StoreError::Conflict("existing".to_string()));

    let result = store.batch_get(&ws, &vec![query("fresh-1"), query("fresh-2"), query("existing")]);
    assert_eq!(
        result.get(&"fresh-1".to_string()).unwrap(),
        &QueryCollabResult::Failed { reason: FailedReason::NotFound }
    );
    assert_eq!(
        result.get(&"fresh-2".to_string()).unwrap(),
        &QueryCollabResult::Failed { reason: FailedReason::NotFound }
    );
    assert_eq!(
        result.get(&"existing".to_string()).unwrap(),
        &QueryCollabResult::Success { encode_collab_v1: vec![1] }
    );
}

#[test]
fn workspaces_do_not_share_objects() {
    let mut store = CollabStore::new();
    let ws1 = "ws-1".to_string();
    let ws2 = "ws-2".to_string();
    store.batch_create(&ws1, &vec![item("a", vec![1], false)]).unwrap();
    let result = store.batch_get(&ws2, &vec![query("a")]);
    assert_eq!(
        result.get(&"a".to_string()).unwrap(),
        &QueryCollabResult::Failed { reason: FailedReason::NotFound }
    );
}

fn legacy_doc(object_id: &str, bytes: &[u8], workspace_id: &str) -> WireDoc {
    WireDoc {
        fields: vec![
            (
                "object_id".to_string(),
                WireValue::Leaf(WireLeaf::Str(object_id.to_string())),
            ),
            (
                "encoded_collab_v1".to_string(),
                WireValue::Leaf(WireLeaf::IntArr(bytes.iter().map(|b| *b as i64).collect())),
            ),
            (
                "workspace_id".to_string(),
                WireValue::Leaf(WireLeaf::Str(workspace_id.to_string())),
            ),
            ("collab_type".to_string(), WireValue::Leaf(WireLeaf::Int(0))),
        ],
    }
}

#[test]
fn legacy_and_canonical_shapes_agree() {
    let legacy = legacy_doc("oid", &[3, 1, 4], "wid");
    let canonical = WireDoc {
        fields: vec![
            (
                "inner".to_string(),
                WireValue::Obj(vec![
                    ("object_id".to_string(), WireLeaf::Str("oid".to_string())),
                    ("encoded_collab_v1".to_string(), WireLeaf::IntArr(vec![3, 1, 4])),
                    ("workspace_id".to_string(), WireLeaf::Str("wid".to_string())),
                    ("collab_type".to_string(), WireLeaf::Int(0)),
                    ("override_if_exist".to_string(), WireLeaf::Bool(false)),
                ]),
            ),
        ],
    };
    let a = from_wire_shape(&legacy).unwrap();
    let b = from_wire_shape(&canonical).unwrap();
    assert_eq!(a.workspace_id, b.workspace_id);
    assert_eq!(a.inner.object_id, b.inner.object_id);
    assert_eq!(a.inner.encoded_collab_v1, b.inner.encoded_collab_v1);
    assert_eq!(a.inner.collab_type, b.inner.collab_type);
    assert_eq!(a.inner.override_if_exist, b.inner.override_if_exist);
    assert!(!a.inner.override_if_exist);
}

#[test]
fn wire_unknown_fields_are_ignored() {
    let mut doc = legacy_doc("oid", &[1], "wid");
    doc.fields.push(("something_else".to_string(), WireValue::Leaf(WireLeaf::Null)));
    let parsed = from_wire_shape(&doc).unwrap();
    assert_eq!(parsed.inner.object_id, "oid".to_string());
}

#[test]
fn wire_missing_required_fields_are_rejected() {
    let mut doc = legacy_doc("oid", &[1], "wid");
    doc.fields.remove(0);
    assert_eq!(
        from_wire_shape(&doc).unwrap_err(),
        WireError::MissingField(WireField::ObjectId)
    );

    let mut doc = legacy_doc("oid", &[1], "wid");
    doc.fields.remove(1);
    assert_eq!(
        from_wire_shape(&doc).unwrap_err(),
        WireError::MissingField(WireField::EncodedCollabV1)
    );

    let mut doc = legacy_doc("oid", &[1], "wid");
    doc.fields.remove(3);
    assert_eq!(
        from_wire_shape(&doc).unwrap_err(),
        WireError::MissingField(WireField::CollabType)
    );
}

#[test]
fn wire_invalid_fields_are_rejected() {
    let mut doc = legacy_doc("oid", &[1], "wid");
    doc.fields[1].1 = WireValue::Leaf(WireLeaf::IntArr(vec![0, 256]));
    assert_eq!(
        from_wire_shape(&doc).unwrap_err(),
        WireError::InvalidField(WireField::EncodedCollabV1)
    );

    let mut doc = legacy_doc("oid", &[1], "wid");
    doc.fields[3].1 = WireValue::Leaf(WireLeaf::Int(42));
    assert_eq!(
        from_wire_shape(&doc).unwrap_err(),
        WireError::InvalidField(WireField::CollabType)
    );

    let doc = WireDoc {
        fields: vec![("inner".to_string(), WireValue::Leaf(WireLeaf::Int(1)))],
    };
    assert_eq!(
        from_wire_shape(&doc).unwrap_err(),
        WireError::InvalidField(WireField::Inner)
    );
}

#[test]
fn metrics_counters_match_request_counts() {
    let mut metrics = AppFlowyCloudMetrics::init();
    let path_a = "/api/workspace".to_string();
    let path_b = "/metrics".to_string();
    for _ in 0..3 {
        metrics.record_request(Some("trace-1".to_string()), path_a.clone(), 10, 200);
    }
    metrics.record_request(None, path_a.clone(), 5, 500);
    for _ in 0..2 {
        metrics.record_request(None, path_b.clone(), 1, 200);
    }

    assert_eq!(metrics.requests_count_for(&path_a), 4);
    assert_eq!(metrics.requests_count_for(&path_b), 2);
    assert_eq!(metrics.requests_result_count(&path_a, 200), 3);
    assert_eq!(metrics.requests_result_count(&path_a, 500), 1);
    assert_eq!(metrics.requests_result_count(&path_b, 200), 2);
    assert_eq!(metrics.requests_result_count(&path_b, 500), 0);
    assert_eq!(metrics.requests_latency_total(&path_a), 35);
    assert_eq!(metrics.requests_latency_total(&path_b), 2);
    assert_eq!(metrics.requests_count_for(&"/missing".to_string()), 0);
}

#[test]
fn metrics_label_types_compare_by_fields() {
    let a = PathLabel { path: "/a".to_string() };
    let b = PathLabel { path: "/a".to_string() };
    assert_eq!(a, b);
    let r1 = ResultLabel { path: "/a".to_string(), status_code: 200 };
    let r2 = ResultLabel { path: "/a".to_string(), status_code: 500 };
    assert_ne!(r1, r2);
    let t1 = TraceLabel { trace_id: "t".to_string() };
    assert_eq!(t1.clone(), t1);
}
