//! What the store does with a call: the contents it leaves behind and what
//! it answers. The execution layer is held to this model; the laws below
//! combine it with the calls that client handles build.
use vstd::prelude::*;
use crate::kv::{in_range, key_lt, partition_of, BoundView, ColumnFamily};
use crate::request::{pairs_view, CallView, RequestView, Response};
use crate::shape::keys_of;

verus! {

/// The contents of the store: the value under each key of each partition.
pub type Contents = Map<(ColumnFamily, Seq<u8>), Seq<u8>>;

/// The contents after writing `pairs` into partition `p` one after another:
/// of two pairs with one key the later one wins.
pub open spec fn write_all(m: Contents, p: ColumnFamily, pairs: Seq<(Seq<u8>, Seq<u8>)>) -> Contents
    decreases pairs.len(),
{
    if pairs.len() == 0 {
        m
    } else {
        write_all(m.insert((p, pairs[0].0), pairs[0].1), p, pairs.drop_first())
    }
}

/// The contents after deleting `keys` from partition `p`; missing keys are
/// passed over.
pub open spec fn delete_all(m: Contents, p: ColumnFamily, keys: Seq<Seq<u8>>) -> Contents
    decreases keys.len(),
{
    if keys.len() == 0 {
        m
    } else {
        delete_all(m.remove((p, keys[0])), p, keys.drop_first())
    }
}

/// The contents after deleting every key of partition `p` in `range`.
pub open spec fn delete_in_range(m: Contents, p: ColumnFamily, range: (BoundView, BoundView)) -> Contents {
    m.restrict(m.dom().filter(|ck: (ColumnFamily, Seq<u8>)| !(ck.0 == p && in_range(range, ck.1))))
}

/// The contents after the store has carried out the call `c`.
pub open spec fn after(m: Contents, c: CallView) -> Contents {
    let p = partition_of(c.cf);
    match c.request {
        RequestView::Put { pair } => m.insert((p, pair.0), pair.1),
        RequestView::Update { pair } => m.insert((p, pair.0), pair.1),
        RequestView::BatchPut { pairs } => write_all(m, p, pairs),
        RequestView::BatchUpdate { pairs } => write_all(m, p, pairs),
        RequestView::Delete { key } => m.remove((p, key)),
        RequestView::BatchDelete { keys } => delete_all(m, p, keys),
        RequestView::DeleteRange { range } => delete_in_range(m, p, range),
        _ => m,
    }
}

/// What a get of `key` under the scope `cf` answers: the value, or none where
/// the key is missing.
pub open spec fn get_answer(m: Contents, cf: Option<ColumnFamily>, key: Seq<u8>) -> Option<Seq<u8>> {
    let ck = (partition_of(cf), key);
    if m.dom().contains(ck) {
        Some(m[ck])
    } else {
        None
    }
}

/// `answer` is a possible answer to a batch get of `keys` under the scope
/// `cf`: one pair for each asked key that is present, with its value, in any
/// order, and nothing else.
pub open spec fn batch_get_answer(
    m: Contents,
    cf: Option<ColumnFamily>,
    keys: Seq<Seq<u8>>,
    answer: Seq<(Seq<u8>, Seq<u8>)>,
) -> bool {
    let p = partition_of(cf);
    &&& forall|i: int|
        0 <= i < answer.len() ==> keys.contains(#[trigger] answer[i].0) && m.dom().contains(
            (p, answer[i].0),
        ) && answer[i].1 == m[(p, answer[i].0)]
    &&& forall|i: int, j: int| 0 <= i < j < answer.len() ==> answer[i].0 != answer[j].0
    &&& forall|k: Seq<u8>|
        keys.contains(k) && m.dom().contains((p, k)) ==> exists|i: int|
            0 <= i < answer.len() && (#[trigger] answer[i]).0 == k
}

/// The keys of `pairs` rise strictly.
pub open spec fn ascending(pairs: Seq<(Seq<u8>, Seq<u8>)>) -> bool {
    forall|i: int, j: int| 0 <= i < j < pairs.len() ==> key_lt(#[trigger] pairs[i].0, #[trigger] pairs[j].0)
}

/// `answer` fits a scan of `range` under the scope `cf` that asks for
/// `limit` pairs: it holds present pairs of the range with their values,
/// ascending by key; no present key of the range that comes before a key of
/// the answer is left out; and an answer shorter than `limit` holds every
/// present key of the range. It may hold more pairs than were asked for.
pub open spec fn scan_answer(
    m: Contents,
    cf: Option<ColumnFamily>,
    range: (BoundView, BoundView),
    limit: u32,
    answer: Seq<(Seq<u8>, Seq<u8>)>,
) -> bool {
    let p = partition_of(cf);
    &&& ascending(answer)
    &&& forall|i: int|
        0 <= i < answer.len() ==> in_range(range, (#[trigger] answer[i]).0) && m.dom().contains(
            (p, answer[i].0),
        ) && answer[i].1 == m[(p, answer[i].0)]
    &&& forall|k: Seq<u8>, i: int|
        0 <= i < answer.len() && m.dom().contains((p, k)) && in_range(range, k) && key_lt(
            k,
            #[trigger] answer[i].0,
        ) ==> #[trigger] has_key(answer, k)
    &&& answer.len() < limit ==> forall|k: Seq<u8>|
        m.dom().contains((p, k)) && in_range(range, k) ==> #[trigger] has_key(answer, k)
}

/// `answer` fits a key-only scan of `range` under the scope `cf` that asks
/// for `limit` keys: its keys are those of an answer to the full scan; its
/// values say nothing.
pub open spec fn scan_keys_answer(
    m: Contents,
    cf: Option<ColumnFamily>,
    range: (BoundView, BoundView),
    limit: u32,
    answer: Seq<(Seq<u8>, Seq<u8>)>,
) -> bool {
    exists|full: Seq<(Seq<u8>, Seq<u8>)>|
        scan_answer(m, cf, range, limit, full) && #[trigger] keys_of(full) == keys_of(answer)
}

/// `answer` fits a scan, full or key-only, of `range` under the scope `cf`.
pub open spec fn scan_fits(
    m: Contents,
    cf: Option<ColumnFamily>,
    range: (BoundView, BoundView),
    limit: u32,
    key_only: bool,
    answer: Seq<(Seq<u8>, Seq<u8>)>,
) -> bool {
    if key_only {
        scan_keys_answer(m, cf, range, limit, answer)
    } else {
        scan_answer(m, cf, range, limit, answer)
    }
}

/// Some pair of `pairs` has the key `k`.
pub open spec fn has_key(pairs: Seq<(Seq<u8>, Seq<u8>)>, k: Seq<u8>) -> bool {
    exists|i: int| 0 <= i < pairs.len() && pairs[i].0 == k
}

/// `r` is a possible answer of the store, holding `m`, to the call `c`.
pub open spec fn answers(m: Contents, c: CallView, r: Response) -> bool {
    match c.request {
        RequestView::Get { key } => match r {
            Response::Value(Some(v)) => get_answer(m, c.cf, key) == Some(v@),
            Response::Value(None) => get_answer(m, c.cf, key) == None::<Seq<u8>>,
            _ => false,
        },
        RequestView::BatchGet { keys } => match r {
            Response::Pairs(ps) => batch_get_answer(m, c.cf, keys, pairs_view(ps@)),
            _ => false,
        },
        RequestView::Scan { range, limit, key_only } => match r {
            Response::Pairs(ps) => scan_fits(m, c.cf, range, limit, key_only, pairs_view(ps@)),
            _ => false,
        },
        RequestView::BatchScan { ranges, each_limit, key_only } => match r {
            Response::PerRange(gs) => gs@.len() == ranges.len() && forall|i: int|
                0 <= i < gs@.len() ==> scan_fits(
                    m,
                    c.cf,
                    ranges[i],
                    each_limit,
                    key_only,
                    pairs_view(#[trigger] gs@[i]@),
                ),
            _ => false,
        },
        _ => r is Done,
    }
}

} // verus!
