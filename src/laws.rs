//! Laws that relate the calls client handles build, the store model, and the
//! shaping of results.
use vstd::prelude::*;
use crate::client::call_of;
use crate::kv::{
    in_range, key_lt, lemma_key_lt_irreflexive, lemma_key_lt_total, lemma_key_lt_transitive,
    partition_of, BoundView, ColumnFamily,
};
use crate::request::RequestView;
use crate::shape::{first_n, keys_of};
use crate::store::{
    after, ascending, batch_get_answer, get_answer, has_key, scan_answer, scan_fits, Contents,
};

verus! {

/// A get of `key` after a put of `value` under `key`, in one scope, answers
/// `value`.
pub proof fn put_then_get(m: Contents, cf: Option<ColumnFamily>, key: Seq<u8>, value: Seq<u8>)
    ensures
        get_answer(after(m, call_of(RequestView::Put { pair: (key, value) }, cf)), cf, key)
            == Some(value),
{
}

/// A get of `key` after a delete of `key`, in one scope, answers nothing.
pub proof fn delete_then_get(m: Contents, cf: Option<ColumnFamily>, key: Seq<u8>)
    ensures
        get_answer(after(m, call_of(RequestView::Delete { key }, cf)), cf, key) == None::<
            Seq<u8>,
        >,
{
}

/// Deleting a missing key leaves the store as it was.
pub proof fn delete_missing_is_no_op(m: Contents, cf: Option<ColumnFamily>, key: Seq<u8>)
    requires
        !m.dom().contains((partition_of(cf), key)),
    ensures
        after(m, call_of(RequestView::Delete { key }, cf)) == m,
{
    assert(m.remove((partition_of(cf), key)) =~= m);
}

/// Deleting a key twice leaves the store as deleting it once does.
pub proof fn delete_twice_as_once(m: Contents, cf: Option<ColumnFamily>, key: Seq<u8>)
    ensures
        after(after(m, call_of(RequestView::Delete { key }, cf)), call_of(
            RequestView::Delete { key },
            cf,
        )) == after(m, call_of(RequestView::Delete { key }, cf)),
{
    let once = m.remove((partition_of(cf), key));
    assert(once.remove((partition_of(cf), key)) =~= once);
}

/// A put under a column family other than the default one is not seen by a
/// get under no scope.
pub proof fn scopes_are_isolated(m: Contents, cf: ColumnFamily, key: Seq<u8>, value: Seq<u8>)
    requires
        cf != ColumnFamily::Default,
    ensures
        get_answer(
            after(m, call_of(RequestView::Put { pair: (key, value) }, Some(cf))),
            None,
            key,
        ) == get_answer(m, None, key),
{
}

/// A batch get of two keys of which only the first is present answers
/// exactly one pair: the first key with its value.
pub proof fn batch_get_leaves_out_missing(
    m: Contents,
    cf: Option<ColumnFamily>,
    k1: Seq<u8>,
    k2: Seq<u8>,
    answer: Seq<(Seq<u8>, Seq<u8>)>,
)
    requires
        m.dom().contains((partition_of(cf), k1)),
        !m.dom().contains((partition_of(cf), k2)),
        batch_get_answer(m, cf, seq![k1, k2], answer),
    ensures
        answer.len() == 1,
        answer[0] == (k1, m[(partition_of(cf), k1)]),
{
    let keys = seq![k1, k2];
    let p = partition_of(cf);
    assert(keys.contains(k1)) by {
        assert(keys[0] == k1);
    }
    let i = choose|i: int| 0 <= i < answer.len() && (#[trigger] answer[i]).0 == k1;
    assert forall|j: int| 0 <= j < answer.len() implies (#[trigger] answer[j]).0 == k1 by {
        assert(keys.contains(answer[j].0));
        let t = choose|t: int| 0 <= t < keys.len() && keys[t] == answer[j].0;
        if t == 1 {
            assert(m.dom().contains((p, answer[j].0)));
        }
    }
    if answer.len() > 1 {
        assert(answer[0].0 == answer[1].0);
    }
    assert(answer[0].0 == k1);
}

/// Cutting a scan's answer to its limit keeps it an answer to that scan:
/// ascending, of at most `limit` pairs, with no key skipped.
pub proof fn cut_scan_keeps_order(
    m: Contents,
    cf: Option<ColumnFamily>,
    range: (BoundView, BoundView),
    limit: u32,
    answer: Seq<(Seq<u8>, Seq<u8>)>,
)
    requires
        scan_answer(m, cf, range, limit, answer),
    ensures
        scan_answer(m, cf, range, limit, first_n(answer, limit)),
        ascending(first_n(answer, limit)),
        first_n(answer, limit).len() <= limit,
{
    let cut = first_n(answer, limit);
    let p = partition_of(cf);
    if answer.len() > limit {
        assert forall|k: Seq<u8>, i: int|
            0 <= i < cut.len() && m.dom().contains((p, k)) && in_range(range, k) && key_lt(
                k,
                #[trigger] cut[i].0,
            ) implies #[trigger] has_key(cut, k) by {
            assert(cut[i] == answer[i]);
            assert(has_key(answer, k));
            let j = choose|j: int| 0 <= j < answer.len() && answer[j].0 == k;
            if j >= cut.len() {
                assert(key_lt(answer[i].0, answer[j].0));
                lemma_key_lt_transitive(k, answer[i].0, k);
                lemma_key_lt_irreflexive(k);
            } else {
                assert(cut[j] == answer[j]);
            }
        }
    }
}

/// The keys of the first `limit` pairs are the first `limit` keys.
proof fn lemma_keys_of_first_n(pairs: Seq<(Seq<u8>, Seq<u8>)>, limit: u32)
    ensures
        keys_of(first_n(pairs, limit)) == first_n(keys_of(pairs), limit),
{
    assert(keys_of(first_n(pairs, limit)) =~= first_n(keys_of(pairs), limit));
}

/// Where two answers to one scan agree on their first `i` keys, the key at
/// `i` of the first does not come before that of the second.
proof fn lemma_no_lower_key(
    m: Contents,
    cf: Option<ColumnFamily>,
    range: (BoundView, BoundView),
    limit: u32,
    a: Seq<(Seq<u8>, Seq<u8>)>,
    b: Seq<(Seq<u8>, Seq<u8>)>,
    i: int,
)
    requires
        scan_answer(m, cf, range, limit, a),
        scan_answer(m, cf, range, limit, b),
        0 <= i < a.len(),
        i < b.len(),
        forall|j: int| 0 <= j < i ==> a[j].0 == b[j].0,
    ensures
        !key_lt(a[i].0, b[i].0),
{
    let x = a[i].0;
    if key_lt(x, b[i].0) {
        assert(has_key(b, x));
        let j = choose|j: int| 0 <= j < b.len() && b[j].0 == x;
        lemma_key_lt_irreflexive(x);
        if j < i {
            assert(key_lt(a[j].0, a[i].0));
        } else if j > i {
            assert(key_lt(b[i].0, b[j].0));
            lemma_key_lt_transitive(x, b[i].0, x);
        }
    }
}

/// Two answers to one scan agree on their first `n` keys.
proof fn lemma_prefix_agrees(
    m: Contents,
    cf: Option<ColumnFamily>,
    range: (BoundView, BoundView),
    limit: u32,
    a: Seq<(Seq<u8>, Seq<u8>)>,
    b: Seq<(Seq<u8>, Seq<u8>)>,
    n: int,
)
    requires
        scan_answer(m, cf, range, limit, a),
        scan_answer(m, cf, range, limit, b),
        0 <= n <= a.len(),
        n <= b.len(),
    ensures
        forall|j: int| 0 <= j < n ==> a[j].0 == b[j].0,
    decreases n,
{
    if n > 0 {
        lemma_prefix_agrees(m, cf, range, limit, a, b, n - 1);
        lemma_no_lower_key(m, cf, range, limit, a, b, n - 1);
        lemma_no_lower_key(m, cf, range, limit, b, a, n - 1);
        lemma_key_lt_total(a[n - 1].0, b[n - 1].0);
    }
}

/// Two answers to one scan of at most `limit` pairs each hold the same keys
/// in the same order.
pub proof fn scan_answers_agree(
    m: Contents,
    cf: Option<ColumnFamily>,
    range: (BoundView, BoundView),
    limit: u32,
    a: Seq<(Seq<u8>, Seq<u8>)>,
    b: Seq<(Seq<u8>, Seq<u8>)>,
)
    requires
        scan_answer(m, cf, range, limit, a),
        scan_answer(m, cf, range, limit, b),
        a.len() <= limit,
        b.len() <= limit,
    ensures
        keys_of(a) == keys_of(b),
{
    lemma_shorter_answer_is_whole(m, cf, range, limit, a, b);
    lemma_shorter_answer_is_whole(m, cf, range, limit, b, a);
    lemma_prefix_agrees(m, cf, range, limit, a, b, a.len() as int);
    assert(keys_of(a) =~= keys_of(b));
}

/// Of two answers to one scan of at most `limit` pairs, the first is not the
/// shorter.
proof fn lemma_shorter_answer_is_whole(
    m: Contents,
    cf: Option<ColumnFamily>,
    range: (BoundView, BoundView),
    limit: u32,
    a: Seq<(Seq<u8>, Seq<u8>)>,
    b: Seq<(Seq<u8>, Seq<u8>)>,
)
    requires
        scan_answer(m, cf, range, limit, a),
        scan_answer(m, cf, range, limit, b),
        b.len() <= limit,
    ensures
        a.len() >= b.len(),
{
    if a.len() < b.len() {
        let n = a.len() as int;
        lemma_prefix_agrees(m, cf, range, limit, a, b, n);
        let y = b[n].0;
        assert(in_range(range, y) && m.dom().contains((partition_of(cf), y)));
        assert(has_key(a, y));
        let j = choose|j: int| 0 <= j < a.len() && a[j].0 == y;
        assert(key_lt(b[j].0, b[n].0));
        lemma_key_lt_irreflexive(y);
    }
}

/// A key-only scan yields exactly the keys, in order, that a full scan of the
/// same range and limit yields, whatever answers the store gives to each.
pub proof fn key_only_scan_matches_scan(
    m: Contents,
    cf: Option<ColumnFamily>,
    range: (BoundView, BoundView),
    limit: u32,
    full: Seq<(Seq<u8>, Seq<u8>)>,
    key_only: Seq<(Seq<u8>, Seq<u8>)>,
)
    requires
        scan_fits(m, cf, range, limit, false, full),
        scan_fits(m, cf, range, limit, true, key_only),
    ensures
        keys_of(first_n(key_only, limit)) == keys_of(first_n(full, limit)),
{
    let w = choose|w: Seq<(Seq<u8>, Seq<u8>)>|
        scan_answer(m, cf, range, limit, w) && #[trigger] keys_of(w) == keys_of(key_only);
    cut_scan_keeps_order(m, cf, range, limit, full);
    cut_scan_keeps_order(m, cf, range, limit, w);
    scan_answers_agree(m, cf, range, limit, first_n(full, limit), first_n(w, limit));
    lemma_keys_of_first_n(key_only, limit);
    lemma_keys_of_first_n(w, limit);
}

} // verus!
