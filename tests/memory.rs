use std::sync::Arc;
use tikv_client::client::Client;
use tikv_client::kv::{Bound, BoundRange, ColumnFamily, Key, KvPair};
use tikv_client::memory::MemStore;
use tikv_client::request::{Call, Response};
use tikv_client::shape::{finish_batch_scan, finish_scan, finish_scan_keys};

fn key(s: &str) -> Key {
    Key::new(s.as_bytes().to_vec())
}

fn client() -> Client<Vec<String>> {
    Client::new(Arc::new(vec!["node1".to_string()]))
}

fn value_of(r: Response) -> Option<Vec<u8>> {
    match r {
        Response::Value(v) => v,
        _ => panic!("expected a value answer"),
    }
}

fn pairs_of(r: Response) -> Vec<KvPair> {
    match r {
        Response::Pairs(p) => p,
        _ => panic!("expected pairs"),
    }
}

fn done(r: Response) {
    assert!(matches!(r, Response::Done));
}

fn run(store: &mut MemStore, call: Call) -> Response {
    store.execute(call)
}

fn keys(pairs: &[KvPair]) -> Vec<Vec<u8>> {
    pairs.iter().map(|p| p.key.bytes.clone()).collect()
}

fn abc_store(c: &Client<Vec<String>>) -> MemStore {
    let mut s = MemStore::new();
    // Written out of order on purpose.
    done(run(&mut s, c.put(key("c"), b"3".to_vec())));
    done(run(&mut s, c.put(key("a"), b"1".to_vec())));
    done(run(&mut s, c.put(key("b"), b"2".to_vec())));
    s
}

#[test]
fn put_then_get_yields_value() {
    let c = client();
    let mut s = MemStore::new();
    done(run(&mut s, c.put(key("k"), b"v".to_vec())));
    assert_eq!(value_of(run(&mut s, c.get(key("k")))), Some(b"v".to_vec()));
    done(run(&mut s, c.put(key("k"), b"w".to_vec())));
    assert_eq!(value_of(run(&mut s, c.get(key("k")))), Some(b"w".to_vec()));
}

#[test]
fn delete_then_get_yields_nothing() {
    let c = client();
    let mut s = MemStore::new();
    done(run(&mut s, c.put(key("k"), b"v".to_vec())));
    done(run(&mut s, c.delete(key("k"))));
    assert_eq!(value_of(run(&mut s, c.get(key("k")))), None);
}

#[test]
fn get_of_missing_key_is_no_error() {
    let c = client();
    let mut s = MemStore::new();
    assert_eq!(value_of(run(&mut s, c.get(key("nothing")))), None);
}

#[test]
fn delete_of_missing_key_twice_is_harmless() {
    let c = client();
    let mut s = MemStore::new();
    done(run(&mut s, c.put(key("other"), b"x".to_vec())));
    done(run(&mut s, c.delete(key("k"))));
    done(run(&mut s, c.delete(key("k"))));
    assert_eq!(value_of(run(&mut s, c.get(key("k")))), None);
    assert_eq!(value_of(run(&mut s, c.get(key("other")))), Some(b"x".to_vec()));
}

#[test]
fn update_overwrites_like_put() {
    let c = client();
    let mut s = MemStore::new();
    done(run(&mut s, c.update(key("k"), b"1".to_vec())));
    done(run(&mut s, c.update(key("k"), b"2".to_vec())));
    assert_eq!(value_of(run(&mut s, c.get(key("k")))), Some(b"2".to_vec()));
}

#[test]
fn scan_of_abc_is_ascending() {
    let c = client();
    let mut s = abc_store(&c);
    let range = BoundRange::new(Bound::Included(key("a")), Bound::Included(key("c")));
    let raw = pairs_of(run(&mut s, c.scan(range, 10).unwrap()));
    let got = finish_scan(Ok(raw), 10).unwrap();
    assert_eq!(keys(&got), vec![b"a".to_vec(), b"b".to_vec(), b"c".to_vec()]);
    assert_eq!(got[1].value, b"2".to_vec());
}

#[test]
fn scan_half_open_range_leaves_out_start() {
    let c = client();
    let mut s = abc_store(&c);
    let range = BoundRange::new(Bound::Excluded(key("a")), Bound::Included(key("c")));
    let got = pairs_of(run(&mut s, c.scan(range, 10).unwrap()));
    assert_eq!(keys(&got), vec![b"b".to_vec(), b"c".to_vec()]);
}

#[test]
fn scan_stops_at_limit() {
    let c = client();
    let mut s = abc_store(&c);
    let got = pairs_of(run(&mut s, c.scan(BoundRange::unbounded(), 2).unwrap()));
    assert_eq!(keys(&got), vec![b"a".to_vec(), b"b".to_vec()]);
    let none = pairs_of(run(&mut s, c.scan(BoundRange::unbounded(), 0).unwrap()));
    assert!(none.is_empty());
}

#[test]
fn scan_keys_matches_scan() {
    let c = client();
    let mut s = abc_store(&c);
    let full = pairs_of(run(&mut s, c.scan(BoundRange::unbounded(), 2).unwrap()));
    let only = pairs_of(run(&mut s, c.scan_keys(BoundRange::unbounded(), 2).unwrap()));
    let full = finish_scan(Ok(full), 2).unwrap();
    let only = finish_scan_keys(Ok(only), 2).unwrap();
    let only: Vec<Vec<u8>> = only.into_iter().map(|k| k.bytes).collect();
    assert_eq!(only, keys(&full));
}

#[test]
fn scoped_put_is_not_seen_by_default_scope() {
    let c = client();
    let mut s = MemStore::new();
    done(run(&mut s, c.with_cf(ColumnFamily::Write).put(key("k"), b"v".to_vec())));
    assert_eq!(value_of(run(&mut s, c.get(key("k")))), None);
    let w = c.with_cf(ColumnFamily::Write);
    assert_eq!(value_of(run(&mut s, w.get(key("k")))), Some(b"v".to_vec()));
}

#[test]
fn default_scope_and_default_family_are_one_partition() {
    let c = client();
    let mut s = MemStore::new();
    done(run(&mut s, c.with_cf(ColumnFamily::Default).put(key("k"), b"v".to_vec())));
    assert_eq!(value_of(run(&mut s, c.get(key("k")))), Some(b"v".to_vec()));
}

#[test]
fn batch_get_leaves_out_missing_keys() {
    let c = client();
    let mut s = MemStore::new();
    done(run(&mut s, c.put(key("k1"), b"v1".to_vec())));
    let got = pairs_of(run(&mut s, c.batch_get(vec![key("k1"), key("k2")])));
    assert_eq!(got.len(), 1);
    assert_eq!(got[0].key.bytes, b"k1".to_vec());
    assert_eq!(got[0].value, b"v1".to_vec());
}

#[test]
fn batch_get_answers_repeated_key_once() {
    let c = client();
    let mut s = MemStore::new();
    done(run(&mut s, c.put(key("k1"), b"v1".to_vec())));
    let got = pairs_of(run(&mut s, c.batch_get(vec![key("k1"), key("k1")])));
    assert_eq!(got.len(), 1);
    assert!(pairs_of(run(&mut s, c.batch_get(Vec::new()))).is_empty());
}

#[test]
fn batch_put_last_write_wins() {
    let c = client();
    let mut s = MemStore::new();
    let pairs = vec![
        KvPair::new(key("a"), b"1".to_vec()),
        KvPair::new(key("b"), b"2".to_vec()),
        KvPair::new(key("a"), b"3".to_vec()),
    ];
    done(run(&mut s, c.batch_put(pairs)));
    assert_eq!(value_of(run(&mut s, c.get(key("a")))), Some(b"3".to_vec()));
    assert_eq!(value_of(run(&mut s, c.get(key("b")))), Some(b"2".to_vec()));
    done(run(&mut s, c.batch_update(vec![KvPair::new(key("b"), b"9".to_vec())])));
    assert_eq!(value_of(run(&mut s, c.get(key("b")))), Some(b"9".to_vec()));
}

#[test]
fn batch_delete_skips_missing_keys() {
    let c = client();
    let mut s = abc_store(&c);
    done(run(&mut s, c.batch_delete(vec![key("a"), key("zz"), key("c")])));
    let left = pairs_of(run(&mut s, c.scan(BoundRange::unbounded(), 10).unwrap()));
    assert_eq!(keys(&left), vec![b"b".to_vec()]);
}

#[test]
fn delete_range_removes_only_keys_in_range_and_scope() {
    let c = client();
    let mut s = abc_store(&c);
    done(run(&mut s, c.with_cf(ColumnFamily::Lock).put(key("b"), b"lock".to_vec())));
    let range = BoundRange::new(Bound::Included(key("a")), Bound::Excluded(key("c")));
    done(run(&mut s, c.delete_range(range)));
    let left = pairs_of(run(&mut s, c.scan(BoundRange::unbounded(), 10).unwrap()));
    assert_eq!(keys(&left), vec![b"c".to_vec()]);
    let lock = c.with_cf(ColumnFamily::Lock);
    assert_eq!(value_of(run(&mut s, lock.get(key("b")))), Some(b"lock".to_vec()));
}

#[test]
fn batch_scan_answers_each_range() {
    let c = client();
    let mut s = abc_store(&c);
    let ranges = vec![
        BoundRange::new(Bound::Included(key("b")), Bound::Unbounded),
        BoundRange::new(Bound::Unbounded, Bound::Excluded(key("b"))),
    ];
    let groups = match run(&mut s, c.batch_scan(ranges, 5).unwrap()) {
        Response::PerRange(g) => g,
        _ => panic!("expected per-range pairs"),
    };
    assert_eq!(groups.len(), 2);
    let flat = finish_batch_scan(Ok(groups)).unwrap();
    assert_eq!(keys(&flat), vec![b"b".to_vec(), b"c".to_vec(), b"a".to_vec()]);
}

#[test]
fn keys_order_bytewise() {
    assert!(key("a").less_than(&key("b")));
    assert!(key("a").less_than(&key("ab")));
    assert!(!key("b").less_than(&key("ab")));
    assert!(!key("a").less_than(&key("a")));
    assert!(key("").less_than(&key("a")));
    assert!(key("x").same(&key("x")));
    assert!(!key("x").same(&key("xy")));
    let r = BoundRange::new(Bound::Excluded(key("a")), Bound::Included(key("c")));
    assert!(!r.contains(&key("a")));
    assert!(r.contains(&key("b")));
    assert!(r.contains(&key("c")));
    assert!(!r.contains(&key("ca")));
}
