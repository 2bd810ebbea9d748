use kv_crdt::aw_set::AWSet;
use kv_crdt::codec::decode_u64_be;
use kv_crdt::config::Config;
use kv_crdt::gossip::{choose_peers, ConnectionPool, FANOUT};
use kv_crdt::pn_counter::PNCounter;
use kv_crdt::server::{parse_command, Command, PropagateReply, ReplicationServer, ServiceError};
use kv_crdt::store::ReplicatedStore;
use kv_crdt::value::{CRDTValue, MergeOutcome};

fn s(x: &str) -> String {
    String::from(x)
}

fn node(name: &str) -> ReplicationServer {
    ReplicationServer::new(s(name), vec![])
}

fn cget(n: &mut ReplicationServer, key: &str) -> Result<PropagateReply, ServiceError> {
    n.propagate_data(&s("CGET"), s(key), &vec![])
}

fn push_all(from: &mut ReplicationServer, to: &mut ReplicationServer) {
    let round = from.gossip_round();
    for (key, value) in round.updates {
        let reply = to.gossip_changes(key, value);
        assert!(reply.success);
    }
}

#[test]
fn cset_then_cget_returns_value() {
    let mut n1 = node("n1");
    let r = n1.propagate_data(&s("CSET"), s("x"), &10u64.to_be_bytes().to_vec());
    assert_eq!(r, Ok(PropagateReply { success: true, value: None }));
    assert_eq!(cget(&mut n1, "x"), Ok(PropagateReply { success: true, value: Some(10) }));
}

#[test]
fn two_nodes_converge_by_per_origin_max() {
    let mut n1 = node("n1");
    let mut n2 = node("n2");
    n1.propagate_data(&s("CSET"), s("x"), &10u64.to_be_bytes().to_vec()).unwrap();
    n2.propagate_data(&s("CSET"), s("x"), &5u64.to_be_bytes().to_vec()).unwrap();
    push_all(&mut n1, &mut n2);
    push_all(&mut n2, &mut n1);
    assert_eq!(cget(&mut n1, "x").unwrap().value, Some(15));
    assert_eq!(cget(&mut n2, "x").unwrap().value, Some(15));
    push_all(&mut n1, &mut n2);
    push_all(&mut n2, &mut n1);
    assert_eq!(cget(&mut n1, "x").unwrap().value, Some(15));
    assert_eq!(cget(&mut n2, "x").unwrap().value, Some(15));
}

#[test]
fn malformed_cset_is_invalid_and_stores_nothing() {
    let mut n1 = node("n1");
    let r = n1.propagate_data(&s("CSET"), s("x"), &b"-1".to_vec());
    assert_eq!(r, Err(ServiceError::InvalidArgument));
    assert_eq!(cget(&mut n1, "x"), Err(ServiceError::NotFound));
    assert!(n1.store.keys().is_empty());
}

#[test]
fn unknown_value_type_is_not_supported() {
    let mut n1 = node("n1");
    let r = n1.propagate_data(&s("LSET"), s("x"), &1u64.to_be_bytes().to_vec());
    assert_eq!(r, Err(ServiceError::NotSupported));
    assert!(n1.store.keys().is_empty());
}

#[test]
fn cinc_and_cdec_adjust_counter() {
    let mut n1 = node("n1");
    n1.propagate_data(&s("CSET"), s("x"), &10u64.to_be_bytes().to_vec()).unwrap();
    n1.propagate_data(&s("CINC"), s("x"), &7u64.to_be_bytes().to_vec()).unwrap();
    n1.propagate_data(&s("CDEC"), s("x"), &20u64.to_be_bytes().to_vec()).unwrap();
    assert_eq!(cget(&mut n1, "x").unwrap().value, Some(-3));
    assert_eq!(
        n1.propagate_data(&s("CINC"), s("y"), &1u64.to_be_bytes().to_vec()),
        Err(ServiceError::NotFound)
    );
    assert_eq!(
        n1.propagate_data(&s("CINC"), s("x"), &vec![1, 2, 3]),
        Err(ServiceError::InvalidArgument)
    );
    assert_eq!(
        n1.propagate_data(&s("CINC"), s("x"), &u64::MAX.to_be_bytes().to_vec()),
        Err(ServiceError::Overflow)
    );
    assert_eq!(cget(&mut n1, "x").unwrap().value, Some(-3));
}

#[test]
fn cget_errors() {
    let mut n1 = node("n1");
    n1.gossip_changes(s("tags"), CRDTValue::ASet(AWSet::new()));
    assert_eq!(cget(&mut n1, "tags"), Err(ServiceError::TypeMismatch));
    assert_eq!(
        n1.propagate_data(&s("CGET"), s("tags"), &vec![0]),
        Err(ServiceError::InvalidArgument)
    );
}

#[test]
fn set_payload_into_counter_is_a_mismatch() {
    let mut n1 = node("n1");
    n1.propagate_data(&s("CSET"), s("x"), &10u64.to_be_bytes().to_vec()).unwrap();
    let mut set = AWSet::new();
    set.add_tag(s("hiking"));
    let reply = n1.gossip_changes(s("x"), CRDTValue::ASet(set));
    assert!(reply.success);
    assert_eq!(reply.outcome, MergeOutcome::Mismatch);
    assert_eq!(cget(&mut n1, "x").unwrap().value, Some(10));
}

#[test]
fn gossip_reports_inserted_then_merged() {
    let mut n1 = node("n1");
    let c = PNCounter::new(&s("n9"), 4, 1);
    assert_eq!(n1.gossip_changes(s("k"), CRDTValue::Counter(c.clone())).outcome, MergeOutcome::Inserted);
    assert_eq!(n1.gossip_changes(s("k"), CRDTValue::Counter(c)).outcome, MergeOutcome::Merged);
    assert_eq!(cget(&mut n1, "k").unwrap().value, Some(3));
}

#[test]
fn store_write_read_and_merge() {
    let mut st = ReplicatedStore::new();
    assert!(st.read(&s("a")).is_none());
    st.write(s("a"), CRDTValue::Counter(PNCounter::new(&s("n"), 2, 0)));
    match st.read(&s("a")) {
        Some(CRDTValue::Counter(c)) => assert_eq!(c.value(), 2),
        _ => panic!("counter expected"),
    }
    st.write(s("a"), CRDTValue::Counter(PNCounter::new(&s("n"), 9, 0)));
    match st.read(&s("a")) {
        Some(CRDTValue::Counter(c)) => assert_eq!(c.value(), 9),
        _ => panic!("counter expected"),
    }
    let outcome = st.merge_in(s("a"), CRDTValue::Counter(PNCounter::new(&s("m"), u64::MAX, 0)));
    assert_eq!(outcome, MergeOutcome::Overflow);
    let mut keys = st.keys();
    keys.sort();
    assert_eq!(keys, vec![s("a")]);
}

#[test]
fn decode_reads_big_endian() {
    assert_eq!(decode_u64_be(&vec![0, 0, 0, 0, 0, 0, 1, 2]), Some(258));
    assert_eq!(decode_u64_be(&u64::MAX.to_be_bytes().to_vec()), Some(u64::MAX));
    assert_eq!(decode_u64_be(&vec![1; 7]), None);
    assert_eq!(decode_u64_be(&vec![]), None);
}

#[test]
fn commands_parse() {
    assert_eq!(parse_command(&s("CSET")), Some(Command::CounterSet));
    assert_eq!(parse_command(&s("CGET")), Some(Command::CounterGet));
    assert_eq!(parse_command(&s("CINC")), Some(Command::CounterIncrement));
    assert_eq!(parse_command(&s("CDEC")), Some(Command::CounterDecrement));
    assert_eq!(parse_command(&s("cset")), None);
}

#[test]
fn choose_peers_picks_distinct_members() {
    let peers: Vec<String> = (0..10).map(|i| format!("http://p{}", i)).collect();
    for _ in 0..20 {
        let mut chosen = choose_peers(&peers, FANOUT);
        assert_eq!(chosen.len(), 3);
        assert!(chosen.iter().all(|p| peers.contains(p)));
        chosen.sort();
        chosen.dedup();
        assert_eq!(chosen.len(), 3);
    }
    let few = vec![s("a"), s("b")];
    let mut all = choose_peers(&few, FANOUT);
    all.sort();
    assert_eq!(all, few);
    assert!(choose_peers(&vec![], FANOUT).is_empty());
}

#[test]
fn gossip_round_covers_every_key() {
    let mut n1 = ReplicationServer::new(s("n1"), vec![s("p1"), s("p2"), s("p3"), s("p4")]);
    n1.propagate_data(&s("CSET"), s("a"), &1u64.to_be_bytes().to_vec()).unwrap();
    n1.propagate_data(&s("CSET"), s("b"), &2u64.to_be_bytes().to_vec()).unwrap();
    let round = n1.gossip_round();
    assert_eq!(round.targets.len(), 3);
    let mut keys: Vec<String> = round.updates.iter().map(|u| u.0.clone()).collect();
    keys.sort();
    assert_eq!(keys, vec![s("a"), s("b")]);
}

#[test]
fn connection_pool_reuses_and_forgets() {
    let mut pool: ConnectionPool<u32> = ConnectionPool::new();
    assert_eq!(pool.get(&s("a")), None);
    pool.insert(s("a"), 1);
    pool.insert(s("b"), 2);
    pool.insert(s("a"), 3);
    assert_eq!(pool.get(&s("a")), Some(&3));
    assert_eq!(pool.get(&s("b")), Some(&2));
    pool.forget(&s("a"));
    assert_eq!(pool.get(&s("a")), None);
    assert_eq!(pool.get(&s("b")), Some(&2));
}

#[test]
fn config_builds_server() {
    let cfg = Config { node_id: s("n1"), listen_address: s("127.0.0.1:8080"), peers: vec![s("p")] };
    let mut server = cfg.into_server();
    assert_eq!(server.node_id, s("n1"));
    assert_eq!(server.peers, vec![s("p")]);
    assert!(server.store.keys().is_empty());
}
