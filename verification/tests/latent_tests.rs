use icore::latent::{
    parse_collection_response, parse_query_response, plan_bootstrap, BootstrapPlan, LatentMemory,
    VectorIndex,
};
use icore::protocol::MemoryError;

#[test]
fn embed_then_query_ranks_the_document_first() {
    let mut index = VectorIndex::new(3);
    let v = vec![3, -4, 12];
    index.embed("doc1".to_string(), v.clone()).unwrap();
    index.embed("doc2".to_string(), vec![-3, 4, -12]).unwrap();
    index.embed("doc3".to_string(), vec![12, 3, -4]).unwrap();
    let ids = index.query(&v, 3).unwrap();
    assert!(ids.contains(&"doc1".to_string()));
    assert_eq!(ids[0], "doc1");
}

#[test]
fn query_returns_at_most_k_ids_in_descending_order() {
    let mut index = VectorIndex::new(2);
    index.embed("a".to_string(), vec![10, 0]).unwrap();
    index.embed("b".to_string(), vec![0, 10]).unwrap();
    index.embed("c".to_string(), vec![7, 7]).unwrap();
    index.embed("d".to_string(), vec![-10, 0]).unwrap();
    let ids = index.query(&vec![10, 1], 2).unwrap();
    assert_eq!(ids, vec!["a".to_string(), "c".to_string()]);
}

#[test]
fn embed_rejects_wrong_dimension() {
    let mut index = VectorIndex::new(3);
    let r = index.embed("doc".to_string(), vec![1, 2]);
    assert!(matches!(
        r,
        Err(MemoryError::DimensionMismatch { expected: 3, actual: 2 })
    ));
}

#[test]
fn query_rejects_wrong_dimension() {
    let index = VectorIndex::new(3);
    let r = index.query(&vec![1, 2, 3, 4], 3);
    assert!(matches!(
        r,
        Err(MemoryError::DimensionMismatch { expected: 3, actual: 4 })
    ));
}

#[test]
fn check_dimension_accepts_matching_length() {
    let mem = LatentMemory::new("http://localhost:8000".to_string(), "col".to_string(), 3);
    assert!(mem.check_dimension(&vec![1, 2, 3]).is_ok());
    assert!(matches!(
        mem.check_dimension(&vec![1]),
        Err(MemoryError::DimensionMismatch { expected: 3, actual: 1 })
    ));
}

#[test]
fn bootstrap_prefers_configured_override() {
    let plan = plan_bootstrap(Some("env-id".to_string()), Some("cached".to_string()));
    assert!(matches!(plan, BootstrapPlan::UseConfigured(id) if id == "env-id"));
}

#[test]
fn bootstrap_trims_cached_identifier() {
    let plan = plan_bootstrap(None, Some("  col-42\n".to_string()));
    assert!(matches!(plan, BootstrapPlan::UseCached(id) if id == "col-42"));
}

#[test]
fn bootstrap_creates_remotely_when_nothing_is_resolved() {
    let plan = plan_bootstrap(None, None);
    assert!(matches!(plan, BootstrapPlan::CreateRemote));
}

#[test]
fn collection_response_id_is_extracted() {
    let body = "{\"name\":\"mem\",\"id\":\"f3a1\",\"dimension\":1536}";
    assert_eq!(parse_collection_response(body).unwrap(), "f3a1");
}

#[test]
fn collection_response_without_id_is_a_bootstrap_failure() {
    assert!(matches!(
        parse_collection_response("{\"name\":\"mem\"}"),
        Err(MemoryError::BootstrapFailure)
    ));
    assert!(matches!(
        parse_collection_response("not json"),
        Err(MemoryError::BootstrapFailure)
    ));
}

#[test]
fn query_response_ids_are_flattened_in_order() {
    let body = "{\"ids\":[[\"a\",\"b\"],[\"c\"]]}";
    assert_eq!(
        parse_query_response(body).unwrap(),
        vec!["a".to_string(), "b".to_string(), "c".to_string()]
    );
}

#[test]
fn malformed_query_response_is_a_backend_failure() {
    assert!(matches!(
        parse_query_response("{\"ids\": 7}"),
        Err(MemoryError::ConnectionFailure)
    ));
    assert!(matches!(
        parse_query_response("garbage"),
        Err(MemoryError::ConnectionFailure)
    ));
}
