use icore::chat::{chat_keys, chat_output, u64_decimal};
use icore::context::Context;
use icore::latent::VectorIndex;
use icore::latent_graph::LatentGraph;
use icore::long_term::LongTermMemory;
use icore::protocol::MemoryError;
use icore::settings::Settings;
use icore::short_term::ShortTermMemory;

fn fresh_context() -> Context {
    Context::new(
        ShortTermMemory::new(),
        LongTermMemory::new(),
        VectorIndex::new(3),
        LatentGraph::new(),
    )
}

#[test]
fn context_round_trips_each_tier() {
    let mut ctx = fresh_context();
    ctx.set_short("s", "1");
    ctx.set_long("l", "2", 11);
    assert_eq!(ctx.get_short("s"), Some("1".to_string()));
    assert_eq!(ctx.get_long("l"), Some("2".to_string()));
    assert_eq!(ctx.all_short(), vec![("s".to_string(), "1".to_string())]);
}

#[test]
fn context_embed_and_query_latent() {
    let mut ctx = fresh_context();
    ctx.embed_latent("doc1".to_string(), vec![1, 2, 3]).unwrap();
    let ids = ctx.query_latent(&vec![1, 2, 3], 3).unwrap();
    assert_eq!(ids, vec!["doc1".to_string()]);
    assert!(matches!(
        ctx.query_latent(&vec![1, 2], 3),
        Err(MemoryError::DimensionMismatch { expected: 3, actual: 2 })
    ));
}

#[test]
fn chat_keys_derive_from_timestamp() {
    let keys = chat_keys(17025);
    assert_eq!(keys.chat_id, "chat_17025");
    assert_eq!(keys.input_key, "input_17025");
    assert_eq!(keys.output_key, "output_17025");
}

#[test]
fn u64_decimal_writes_digits() {
    assert_eq!(u64_decimal(0), "0");
    assert_eq!(u64_decimal(9), "9");
    assert_eq!(u64_decimal(1536), "1536");
    assert_eq!(u64_decimal(u64::MAX), u64::MAX.to_string());
}

#[test]
fn chat_output_defaults_when_handler_was_silent() {
    assert_eq!(chat_output(Some("hi".to_string())), "hi");
    assert_eq!(chat_output(None), "No response.");
}

#[test]
fn settings_default_environment() {
    let s = Settings::new(None, "http://c".to_string(), "mem.db".to_string());
    assert_eq!(s.env, "development");
    let s2 = Settings::new(Some("production".to_string()), "http://c".to_string(), "mem.db".to_string());
    assert_eq!(s2.env, "production");
    assert_eq!(s2.chromadb_url, "http://c");
    assert_eq!(s2.database_url, "mem.db");
}

#[test]
fn error_messages_name_each_failure_mode() {
    assert_eq!(MemoryError::ConnectionFailure.message(), "backend unreachable");
    assert_eq!(MemoryError::NotFound.message(), "key not found");
    assert_eq!(
        MemoryError::DimensionMismatch { expected: 3, actual: 2 }.message(),
        "embedding dimension mismatch"
    );
    assert_eq!(
        MemoryError::BootstrapFailure.message(),
        "vector collection bootstrap failed"
    );
    assert_eq!(MemoryError::LockDegraded.message(), "lock unavailable");
}
