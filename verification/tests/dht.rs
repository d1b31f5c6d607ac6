//! The shard state machine: tables, bindings, upserts, clones, and the
//! linearized read a lagging replica serves after catching up on the log.

use stract::dht::{shard_for_key, BasicNode, Db, Request, Response, UpsertFunc};

fn b(s: &str) -> Vec<u8> {
    s.as_bytes().to_vec()
}

#[test]
fn set_then_get() {
    let mut db = Db::new();
    db.set("test", b("hello"), b("world"));
    assert_eq!(db.get("test", &b("hello")), Some(b("world")));
    assert_eq!(db.get("test", &b("missing")), None);
    assert_eq!(db.get("other", &b("hello")), None);
}

#[test]
fn set_overwrites() {
    let mut db = Db::new();
    db.set("test", b("hello"), b("world"));
    db.set("test", b("hello"), b("world2"));
    assert_eq!(db.get("test", &b("hello")), Some(b("world2")));
}

#[test]
fn tables_are_created_and_dropped() {
    let mut db = Db::new();
    db.create_table("test");
    db.create_table("test");
    assert_eq!(db.all_tables(), vec!["test".to_string()]);

    db.set("second", b("k"), b("v"));
    let tables = db.all_tables();
    assert_eq!(tables.len(), 2);

    db.drop_table("test");
    assert_eq!(db.all_tables(), vec!["second".to_string()]);
    db.drop_table("second");
    assert_eq!(db.all_tables().len(), 0);
    assert_eq!(db.get("second", &b("k")), None);
}

#[test]
fn batch_set_binds_every_pair() {
    let mut db = Db::new();
    db.batch_set("test", vec![(b("a"), b("1")), (b("b"), b("2")), (b("a"), b("3"))]);
    // The later pair for the same key wins.
    assert_eq!(db.get("test", &b("a")), Some(b("3")));
    assert_eq!(db.get("test", &b("b")), Some(b("2")));
}

#[test]
fn batch_get_aligns_with_keys() {
    let mut db = Db::new();
    db.set("test", b("a"), b("1"));
    let got = db.batch_get("test", &vec![b("a"), b("missing")]);
    assert_eq!(got, vec![Some(b("1")), None]);
}

#[test]
fn upsert_applies_registered_function() {
    let mut db = Db::new();
    let first = db.upsert("test", b("k"), b("ab"), UpsertFunc::AppendBytes);
    assert_eq!(first, b("ab"));
    let second = db.upsert("test", b("k"), b("cd"), UpsertFunc::AppendBytes);
    assert_eq!(second, b("abcd"));
    assert_eq!(db.get("test", &b("k")), Some(b("abcd")));

    let replaced = db.upsert("test", b("k"), b("x"), UpsertFunc::Overwrite);
    assert_eq!(replaced, b("x"));
    assert_eq!(db.get("test", &b("k")), Some(b("x")));
}

#[test]
fn clone_table_copies_a_snapshot() {
    let mut db = Db::new();
    db.set("src", b("a"), b("1"));
    db.set("src", b("b"), b("2"));
    db.set("dst", b("stale"), b("gone"));
    db.clone_table("src", "dst");
    assert_eq!(db.get("dst", &b("a")), Some(b("1")));
    assert_eq!(db.get("dst", &b("b")), Some(b("2")));
    assert_eq!(db.get("dst", &b("stale")), None);
    // The source is untouched.
    assert_eq!(db.get("src", &b("a")), Some(b("1")));
}

#[test]
fn stream_returns_the_table() {
    let mut db = Db::new();
    db.set("test", b("hello"), b("world"));
    db.set("test", b("hello2"), b("world2"));
    db.set("other", b("x"), b("y"));
    let mut rows = db.stream_table("test");
    rows.sort();
    assert_eq!(rows, vec![(b("hello"), b("world")), (b("hello2"), b("world2"))]);
}

/// Two replicas of one shard apply the same log; after the lagging one has
/// applied up to the linearization write, its read observes the earlier
/// write.
#[test]
fn linearized_read_across_nodes() {
    let log = vec![
        Request::SetKey { table: "test".to_string(), key: b("hello"), value: b("world") },
        Request::SetKey {
            table: "test".to_string(),
            key: b("ensure-linearized-read"),
            value: Vec::new(),
        },
    ];

    let mut node_a = Db::new();
    let mut node_b = Db::new();

    // Node A is the leader and applies everything as it commits.
    for req in &log {
        node_a.apply(req);
    }
    assert_eq!(node_a.get("test", &b("hello")), Some(b("world")));

    // Node B lags: before catching up it may serve a stale read.
    assert_eq!(node_b.get("test", &b("hello")), None);

    // Once node B has applied the log up to the linearization write, the
    // read is linearized and observes the earlier write.
    for req in &log {
        node_b.apply(req);
    }
    assert_eq!(node_b.get("test", &b("hello")), Some(b("world")));
}

#[test]
fn apply_answers_reads_and_upserts() {
    let mut db = Db::new();
    db.apply(&Request::CreateTable { table: "test".to_string() });
    let r = db.apply(&Request::AllTables);
    match r {
        Response::Tables(t) => assert_eq!(t, vec!["test".to_string()]),
        _ => panic!("expected the table listing"),
    }
    let r = db.apply(&Request::Upsert {
        table: "test".to_string(),
        key: b("k"),
        value: b("v"),
        func: UpsertFunc::Overwrite,
    });
    match r {
        Response::NewValue(v) => assert_eq!(v, b("v")),
        _ => panic!("expected the merged value"),
    }
}

#[test]
fn shard_routing_is_stable_and_in_range() {
    let shards = 8u64;
    let a1 = shard_for_key(&b("hello"), shards);
    let a2 = shard_for_key(&b("hello"), shards);
    assert_eq!(a1, a2);
    assert!(a1 < shards);
    assert!(shard_for_key(&b(""), 1) == 0);
}

#[test]
fn basic_node_keeps_address() {
    let node = BasicNode::new("127.0.0.1:4000");
    assert_eq!(node.addr, "127.0.0.1:4000");
}
