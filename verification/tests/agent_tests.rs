use icore::agent::BaseAgent;
use icore::long_term::LongTermMemory;
use icore::sentience::{SentienceAgent, SentienceWrapper};
use icore::short_term::ShortTermMemory;

#[test]
fn agent_seeds_local_copies_from_global_stores() {
    let mut global_short = ShortTermMemory::new();
    global_short.set("mood".to_string(), "calm".to_string());
    let mut global_long = LongTermMemory::new();
    global_long.set("fact", "water is wet", 7);

    let mut agent = BaseAgent::new("base".to_string(), "assist".to_string());
    agent.seed(&global_short, &global_long);
    assert_eq!(agent.get_short("mood"), Some("calm".to_string()));
    assert_eq!(agent.get_long("fact"), Some("water is wet".to_string()));
}

#[test]
fn flush_writes_local_deltas_back() {
    let mut global_short = ShortTermMemory::new();
    let mut global_long = LongTermMemory::new();
    let mut agent = BaseAgent::new("base".to_string(), "assist".to_string());
    agent.set_short("a".to_string(), "1".to_string());
    agent.set_long("b".to_string(), "2".to_string());
    agent.flush_to_global_short(&mut global_short);
    agent.flush_to_global_long(&mut global_long, 99);
    assert_eq!(global_short.get("a"), Some("1".to_string()));
    assert_eq!(global_long.get("b"), Some("2".to_string()));
    assert_eq!(global_long.created_at("b"), Some(99));
}

#[test]
fn flushing_an_unmodified_snapshot_is_idempotent() {
    let mut global_short = ShortTermMemory::new();
    global_short.set("x".to_string(), "1".to_string());
    global_short.set("y".to_string(), "2".to_string());
    let mut global_long = LongTermMemory::new();
    global_long.set("p", "10", 5);
    global_long.set("q", "20", 6);

    let mut agent = BaseAgent::new("base".to_string(), "assist".to_string());
    agent.seed(&global_short, &global_long);

    let short_before = global_short.all();
    let long_before = global_long.all();
    agent.flush_to_global_short(&mut global_short);
    agent.flush_to_global_long(&mut global_long, 999);
    assert_eq!(global_short.all(), short_before);
    assert_eq!(global_long.all(), long_before);
    assert_eq!(global_long.created_at("p"), Some(5));
    assert_eq!(global_long.created_at("q"), Some(6));
}

#[test]
fn flush_preserves_created_at_of_existing_rows() {
    let mut global_long = LongTermMemory::new();
    global_long.set("k", "old", 1);
    let mut agent = BaseAgent::new("base".to_string(), "assist".to_string());
    agent.set_long("k".to_string(), "new".to_string());
    agent.flush_to_global_long(&mut global_long, 50);
    assert_eq!(global_long.get("k"), Some("new".to_string()));
    assert_eq!(global_long.created_at("k"), Some(1));
}

#[test]
fn note_input_records_the_message() {
    let mut agent = BaseAgent::new("base".to_string(), "assist".to_string());
    agent.note_input("hello");
    assert_eq!(agent.get_short("msg"), Some("hello".to_string()));
}

#[test]
fn all_short_and_all_long_list_local_pairs() {
    let mut agent = BaseAgent::new("base".to_string(), "assist".to_string());
    agent.set_short("s".to_string(), "1".to_string());
    agent.set_long("l".to_string(), "2".to_string());
    assert_eq!(agent.all_short(), vec![("s".to_string(), "1".to_string())]);
    assert_eq!(agent.all_long(), vec![("l".to_string(), "2".to_string())]);
}

#[test]
fn sentience_agent_offers_the_six_accessors() {
    let mut agent = SentienceAgent::new();
    agent.set_short("a", "1");
    agent.set_long("b", "2");
    assert_eq!(agent.get_short("a"), Some("1".to_string()));
    assert_eq!(agent.get_long("b"), Some("2".to_string()));
    assert_eq!(agent.all_short(), vec![("a".to_string(), "1".to_string())]);
    assert_eq!(agent.all_long(), vec![("b".to_string(), "2".to_string())]);
}

#[test]
fn wrapper_seeds_from_global_and_flushes_back() {
    let mut global = ShortTermMemory::new();
    global.set("seeded".to_string(), "yes".to_string());
    let mut wrapper = SentienceWrapper::new(&global);
    assert_eq!(wrapper.inner.get_short("seeded"), Some("yes".to_string()));
    wrapper.inner.set_short("fresh", "value");
    wrapper.flush_back(&mut global);
    assert_eq!(global.get("fresh"), Some("value".to_string()));
    assert_eq!(global.get("seeded"), Some("yes".to_string()));
}

#[test]
fn wrapper_seed_long_copies_durable_values() {
    let mut long = LongTermMemory::new();
    long.set("k", "v", 3);
    let global = ShortTermMemory::new();
    let mut wrapper = SentienceWrapper::new(&global);
    wrapper.seed_long(&long);
    assert_eq!(wrapper.inner.get_long("k"), Some("v".to_string()));
}

#[test]
fn handle_code_hands_out_nonblank_output_only() {
    let global_template = ShortTermMemory::new();
    let wrapper = SentienceWrapper::new(&global_template);

    let mut g1 = ShortTermMemory::new();
    assert_eq!(
        wrapper.handle_code(Ok("result".to_string()), &mut g1),
        Some("result".to_string())
    );
    let mut g2 = ShortTermMemory::new();
    assert_eq!(wrapper.handle_code(Ok("  \t\n".to_string()), &mut g2), None);
    let mut g3 = ShortTermMemory::new();
    assert_eq!(wrapper.handle_code(Err("parse error".to_string()), &mut g3), None);
}
