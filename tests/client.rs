use std::sync::Arc;
use tikv_client::client::Client;
use tikv_client::error::Error;
use tikv_client::kv::{Bound, BoundRange, ColumnFamily, Key, KvPair};
use tikv_client::request::{Request, MAX_RAW_KV_SCAN_LIMIT};

fn key(s: &str) -> Key {
    Key::new(s.as_bytes().to_vec())
}

fn client() -> Client<Vec<String>> {
    Client::new(Arc::new(vec!["node1".to_string()]))
}

#[test]
fn scan_over_cap_fails_before_dispatch() {
    let c = client();
    match c.scan(BoundRange::unbounded(), 20000) {
        Err(Error::MaxScanLimitExceeded { limit, max_limit }) => {
            assert_eq!(limit, 20000);
            assert_eq!(max_limit, 10240);
        }
        _ => panic!("expected the scan limit error"),
    }
    assert_eq!(c.delegate(), &vec!["node1".to_string()]);
}

#[test]
fn scan_keys_over_cap_fails() {
    let c = client();
    assert!(matches!(
        c.scan_keys(BoundRange::unbounded(), 10241),
        Err(Error::MaxScanLimitExceeded { limit: 10241, max_limit: 10240 })
    ));
}

#[test]
fn batch_scans_over_cap_fail() {
    let c = client();
    let ranges = vec![BoundRange::unbounded(), BoundRange::unbounded()];
    assert!(matches!(
        c.batch_scan(ranges, u32::MAX),
        Err(Error::MaxScanLimitExceeded { limit: u32::MAX, max_limit: 10240 })
    ));
    assert!(matches!(
        c.batch_scan_keys(vec![BoundRange::unbounded()], 10241),
        Err(Error::MaxScanLimitExceeded { limit: 10241, max_limit: 10240 })
    ));
}

#[test]
fn scan_at_cap_is_built() {
    let c = client();
    let call = c.scan(BoundRange::unbounded(), MAX_RAW_KV_SCAN_LIMIT).unwrap();
    match call.request {
        Request::Scan { limit, key_only, .. } => {
            assert_eq!(limit, 10240);
            assert!(!key_only);
        }
        _ => panic!("expected a scan"),
    }
    assert_eq!(call.cf, None);
    assert!(call.retry.optimistic);
}

#[test]
fn scan_keys_asks_for_keys_only() {
    let c = client();
    let range = BoundRange::new(Bound::Excluded(key("a")), Bound::Included(key("c")));
    let call = c.scan_keys(range, 10).unwrap();
    match call.request {
        Request::Scan { range, limit, key_only } => {
            assert_eq!(limit, 10);
            assert!(key_only);
            assert!(matches!(range.from, Bound::Excluded(k) if k.bytes == b"a".to_vec()));
            assert!(matches!(range.to, Bound::Included(k) if k.bytes == b"c".to_vec()));
        }
        _ => panic!("expected a scan"),
    }
}

#[test]
fn batch_scan_keeps_ranges_and_limit() {
    let c = client().with_cf(ColumnFamily::Lock);
    let ranges = vec![
        BoundRange::new(Bound::Included(key("a")), Bound::Excluded(key("b"))),
        BoundRange::unbounded(),
    ];
    let call = c.batch_scan_keys(ranges, 2).unwrap();
    match call.request {
        Request::BatchScan { ranges, each_limit, key_only } => {
            assert_eq!(ranges.len(), 2);
            assert_eq!(each_limit, 2);
            assert!(key_only);
        }
        _ => panic!("expected a batch scan"),
    }
    assert_eq!(call.cf, Some(ColumnFamily::Lock));
}

#[test]
fn with_cf_scopes_new_handle_only() {
    let c = client();
    let scoped = c.with_cf(ColumnFamily::Write);
    let put = scoped.put(key("k"), b"v".to_vec());
    assert_eq!(put.cf, Some(ColumnFamily::Write));
    let get = c.get(key("k"));
    assert_eq!(get.cf, None);
    assert_eq!(scoped.delegate(), c.delegate());
}

#[test]
fn single_key_calls_carry_their_arguments() {
    let c = client();
    match c.get(key("k")).request {
        Request::Get { key } => assert_eq!(key.bytes, b"k".to_vec()),
        _ => panic!("expected a get"),
    }
    match c.put(key("k"), b"v".to_vec()).request {
        Request::Put { pair } => {
            assert_eq!(pair.key.bytes, b"k".to_vec());
            assert_eq!(pair.value, b"v".to_vec());
        }
        _ => panic!("expected a put"),
    }
    match c.update(key("k"), b"w".to_vec()).request {
        Request::Update { pair } => assert_eq!(pair.value, b"w".to_vec()),
        _ => panic!("expected an update"),
    }
    match c.delete(key("k")).request {
        Request::Delete { key } => assert_eq!(key.bytes, b"k".to_vec()),
        _ => panic!("expected a delete"),
    }
    match c.delete_range(BoundRange::unbounded()).request {
        Request::DeleteRange { range } => {
            assert!(matches!(range.from, Bound::Unbounded));
            assert!(matches!(range.to, Bound::Unbounded));
        }
        _ => panic!("expected a delete range"),
    }
}

#[test]
fn batch_calls_keep_their_items_in_order() {
    let c = client();
    match c.batch_get(vec![key("k1"), key("k2"), key("k1")]).request {
        Request::BatchGet { keys } => {
            assert_eq!(keys.len(), 3);
            assert_eq!(keys[1].bytes, b"k2".to_vec());
        }
        _ => panic!("expected a batch get"),
    }
    let pairs = vec![
        KvPair::new(key("a"), b"1".to_vec()),
        KvPair::new(key("a"), b"2".to_vec()),
    ];
    match c.batch_put(pairs).request {
        Request::BatchPut { pairs } => {
            assert_eq!(pairs.len(), 2);
            assert_eq!(pairs[1].value, b"2".to_vec());
        }
        _ => panic!("expected a batch put"),
    }
    match c.batch_update(vec![KvPair::new(key("u"), b"x".to_vec())]).request {
        Request::BatchUpdate { pairs } => assert_eq!(pairs[0].key.bytes, b"u".to_vec()),
        _ => panic!("expected a batch update"),
    }
    match c.batch_delete(Vec::new()).request {
        Request::BatchDelete { keys } => assert!(keys.is_empty()),
        _ => panic!("expected a batch delete"),
    }
}

#[test]
fn cloned_handle_keeps_scope_and_delegate() {
    let c = client().with_cf(ColumnFamily::Write);
    let d = c.clone_handle();
    assert_eq!(d.delete(key("k")).cf, Some(ColumnFamily::Write));
    assert!(std::ptr::eq(d.delegate(), c.delegate()));
}
