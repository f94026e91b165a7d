use rudis::memory::MemoryStore;
use rudis::options::{apply_args, load_basic_options, Options, OptionsError};
use rudis::replica::{ReplicaInfo, Replicas};
use rudis::replication::Replication;
use rudis::ReplicaCommand;

fn strings(v: &[&str]) -> Vec<String> {
    v.iter().map(|s| s.to_string()).collect()
}

#[test]
fn store_get_unset_is_none() {
    let store = MemoryStore::new();
    assert_eq!(store.get("missing"), None);
}

#[test]
fn store_set_then_get() {
    let mut store = MemoryStore::new();
    store.set("foo".to_string(), "bar".to_string());
    assert_eq!(store.get("foo"), Some(&"bar".to_string()));
    store.set("foo".to_string(), "baz".to_string());
    assert_eq!(store.get("foo"), Some(&"baz".to_string()));
}

#[test]
fn sweep_removes_strictly_past_deadlines() {
    let mut store = MemoryStore::new();
    store.set("a".to_string(), "1".to_string());
    store.set("b".to_string(), "2".to_string());
    store.set("c".to_string(), "3".to_string());
    store.expire("a".to_string(), 100);
    store.expire("b".to_string(), 200);
    store.remove_expired(100);
    assert_eq!(store.get("a"), Some(&"1".to_string()));
    store.remove_expired(101);
    assert_eq!(store.get("a"), None);
    assert_eq!(store.get("b"), Some(&"2".to_string()));
    assert_eq!(store.get("c"), Some(&"3".to_string()));
    store.remove_expired(u128::MAX);
    assert_eq!(store.get("b"), None);
    assert_eq!(store.get("c"), Some(&"3".to_string()));
}

#[test]
fn sweep_twice_removes_nothing_more() {
    let mut store = MemoryStore::new();
    store.set("a".to_string(), "1".to_string());
    store.set("b".to_string(), "2".to_string());
    store.expire("a".to_string(), 10);
    store.expire("b".to_string(), 50);
    store.remove_expired(20);
    assert_eq!(store.get("a"), None);
    store.remove_expired(20);
    assert_eq!(store.get("b"), Some(&"2".to_string()));
}

#[test]
fn set_keeps_an_armed_deadline() {
    let mut store = MemoryStore::new();
    store.set("k".to_string(), "old".to_string());
    store.expire("k".to_string(), 5);
    store.set("k".to_string(), "new".to_string());
    store.remove_expired(6);
    assert_eq!(store.get("k"), None);
}

#[test]
fn options_defaults() {
    let mut o = Options::new();
    assert_eq!(o.get("role"), None);
    load_basic_options(&mut o);
    assert_eq!(o.get("role"), Some(&"master".to_string()));
    assert_eq!(o.get("port"), Some(&"6379".to_string()));
    assert_eq!(o.get("master_repl_offset"), Some(&"0".to_string()));
    assert_eq!(
        o.get("master_replid"),
        Some(&"8371b4fb1155b71f4a04d3e1bc3e18c4a990aeeb".to_string())
    );
    o.set("port", "7000");
    assert_eq!(o.get("port"), Some(&"7000".to_string()));
}

#[test]
fn options_port_flag() {
    let mut o = Options::new();
    load_basic_options(&mut o);
    assert_eq!(apply_args(&mut o, &strings(&["rudis", "--port", "6380"])), Ok(()));
    assert_eq!(o.get("port"), Some(&"6380".to_string()));
    assert_eq!(o.get("role"), Some(&"master".to_string()));
}

#[test]
fn options_replicaof_flag() {
    let mut o = Options::new();
    load_basic_options(&mut o);
    let args = strings(&["rudis", "--port", "6380", "--replicaof", "localhost", "6379"]);
    assert_eq!(apply_args(&mut o, &args), Ok(()));
    assert_eq!(o.get("role"), Some(&"slave".to_string()));
    assert_eq!(o.get("master-host"), Some(&"localhost".to_string()));
    assert_eq!(o.get("master-port"), Some(&"6379".to_string()));
    assert_eq!(o.get("port"), Some(&"6380".to_string()));
}

#[test]
fn options_missing_values() {
    let mut o = Options::new();
    assert_eq!(apply_args(&mut o, &strings(&["rudis", "--port"])), Err(OptionsError::MissingPort));
    let mut o = Options::new();
    assert_eq!(
        apply_args(&mut o, &strings(&["rudis", "--replicaof", "localhost"])),
        Err(OptionsError::MissingReplicaOf)
    );
}

#[test]
fn rdb_snapshot_bulk() {
    let r = Replication::new();
    let rdb = r.get_latest_rdb();
    assert!(rdb.starts_with(b"$88\r\n"));
    assert_eq!(rdb.len(), 5 + 88);
    assert_eq!(&rdb[5..14], b"REDIS0011");
    assert!(rdb.ends_with(b"\xff\x5a\xa2"));
}

#[test]
fn replication_queue() {
    let mut r = Replication::new();
    assert_eq!(r.get().len(), 0);
    r.add_to_queue("127.0.0.1:6380", b"abc".to_vec());
    r.add_to_queue("127.0.0.1:6380", b"def".to_vec());
    assert_eq!(r.get().len(), 1);
    assert_eq!(r.get().get(&"127.0.0.1:6380".to_string()), Some(&b"def".to_vec()));
    r.fullresync("127.0.0.1:6381");
    assert_eq!(r.get().len(), 2);
    assert_eq!(r.get().get(&"127.0.0.1:6381".to_string()), Some(&r.get_latest_rdb()));
    r.remove("127.0.0.1:6380");
    assert_eq!(r.get().len(), 1);
    assert_eq!(r.get().get(&"127.0.0.1:6380".to_string()), None);
}

#[test]
fn replica_registry() {
    let mut reps = Replicas::new();
    assert!(!reps.status());
    assert_eq!(reps.available(), 0);
    assert_eq!(reps.latest(), None);
    reps.add_replica("6380");
    reps.add_replica("6381");
    assert_eq!(reps.available(), 2);
    assert_eq!(reps.latest(), Some(&"6381".to_string()));
    reps.set_status(true);
    assert!(reps.status());
}

#[test]
fn replica_info_port() {
    let mut info = ReplicaInfo::new();
    assert_eq!(info.port, None);
    info.set_port("6380");
    assert_eq!(info.port, Some("6380".to_string()));
}

#[test]
fn replica_command_holds_message() {
    let c = ReplicaCommand::new(b"*1\r\n$4\r\nPING\r\n".to_vec());
    assert_eq!(c.message, b"*1\r\n$4\r\nPING\r\n".to_vec());
}
