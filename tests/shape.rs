use tikv_client::error::Error;
use tikv_client::kv::{Key, KvPair};
use tikv_client::shape::{
    finish_batch_scan, finish_batch_scan_keys, finish_scan, finish_scan_keys, flatten_groups,
    project_keys, truncate_to_limit,
};

fn pair(k: &str, v: &str) -> KvPair {
    KvPair::new(Key::new(k.as_bytes().to_vec()), v.as_bytes().to_vec())
}

fn keys(pairs: &[KvPair]) -> Vec<Vec<u8>> {
    pairs.iter().map(|p| p.key.bytes.clone()).collect()
}

fn abc() -> Vec<KvPair> {
    vec![pair("a", "1"), pair("b", "2"), pair("c", "3")]
}

#[test]
fn truncation_cuts_over_returned_answer() {
    let got = truncate_to_limit(abc(), 2);
    assert_eq!(keys(&got), vec![b"a".to_vec(), b"b".to_vec()]);
    assert_eq!(truncate_to_limit(abc(), 10).len(), 3);
    assert_eq!(truncate_to_limit(abc(), 3).len(), 3);
    assert!(truncate_to_limit(abc(), 0).is_empty());
    assert!(truncate_to_limit(Vec::new(), 5).is_empty());
}

#[test]
fn scan_of_abc_stays_ascending() {
    let got = finish_scan(Ok(abc()), 10).unwrap();
    assert_eq!(keys(&got), vec![b"a".to_vec(), b"b".to_vec(), b"c".to_vec()]);
    assert_eq!(got[2].value, b"3".to_vec());
}

#[test]
fn scan_keys_are_the_keys_of_scan() {
    let pairs = finish_scan(Ok(abc()), 2).unwrap();
    let only = finish_scan_keys(Ok(abc()), 2).unwrap();
    let only: Vec<Vec<u8>> = only.into_iter().map(|k| k.bytes).collect();
    assert_eq!(only, keys(&pairs));
    assert_eq!(only, vec![b"a".to_vec(), b"b".to_vec()]);
}

#[test]
fn projection_drops_values() {
    let got = project_keys(&abc());
    assert_eq!(got.len(), 3);
    assert_eq!(got[2].bytes, b"c".to_vec());
    assert_eq!(pair("z", "9").into_key().bytes, b"z".to_vec());
}

#[test]
fn errors_pass_through_unchanged() {
    let e = finish_scan(Err(Error::Transport { message: "down".to_string() }), 3);
    assert!(matches!(e, Err(Error::Transport { message }) if message == "down"));
    let e = finish_scan_keys(Err(Error::Retryable { message: "moved".to_string() }), 3);
    assert!(matches!(e, Err(Error::Retryable { message }) if message == "moved"));
    let e = finish_batch_scan(Err(Error::Rejected { message: "no".to_string() }));
    assert!(matches!(e, Err(Error::Rejected { message }) if message == "no"));
    let e = finish_batch_scan_keys(Err(Error::Rejected { message: "no".to_string() }));
    assert!(matches!(e, Err(Error::Rejected { .. })));
}

#[test]
fn batch_scan_flattens_in_range_order_without_cutting() {
    let groups = vec![vec![pair("a", "1"), pair("b", "2"), pair("c", "3")], vec![], vec![pair("x", "9")]];
    let got = finish_batch_scan(Ok(groups)).unwrap();
    assert_eq!(
        keys(&got),
        vec![b"a".to_vec(), b"b".to_vec(), b"c".to_vec(), b"x".to_vec()]
    );
    let groups = vec![vec![pair("d", "1")], vec![pair("e", "2")]];
    let only = finish_batch_scan_keys(Ok(groups)).unwrap();
    assert_eq!(only.len(), 2);
    assert_eq!(only[1].bytes, b"e".to_vec());
    assert!(flatten_groups(Vec::new()).is_empty());
}
