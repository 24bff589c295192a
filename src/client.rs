//! The raw client handle: a shared execution delegate and an optional
//! column-family scope, and the request builders that hang off it.
use vstd::prelude::*;
use std::sync::Arc;
use crate::error::Error;
use crate::kv::{BoundRange, ColumnFamily, Key, KvPair, Value};
use crate::request::{
    keys_view, pairs_view, ranges_view, Call, CallView, Request, RequestView, RetryOptions,
    MAX_RAW_KV_SCAN_LIMIT,
};
use crate::shape::{first_n, keys_of, project_keys, truncate_to_limit};

verus! {

/// Relies on `Arc::clone`: the new pointer refers to the same allocation, so
/// it shows the same value.
#[verifier::external_body]
fn share<D>(rpc: &Arc<D>) -> (r: Arc<D>)
    ensures
        *r == **rpc,
{
    Arc::clone(rpc)
}

/// A handle on the store for raw requests. Handles derived from one another
/// share one execution delegate `D`; duplicating a handle copies no cluster
/// state.
pub struct Client<D> {
    rpc: Arc<D>,
    cf: Option<ColumnFamily>,
}

/// The call that an operation under the scope `cf` hands to the execution
/// layer.
pub open spec fn call_of(request: RequestView, cf: Option<ColumnFamily>) -> CallView {
    CallView { request, cf, retry: RetryOptions { optimistic: true } }
}

/// What a scan whose limit exceeds the cap fails with.
pub open spec fn over_limit(limit: u32, r: Error) -> bool {
    r == Error::MaxScanLimitExceeded { limit, max_limit: MAX_RAW_KV_SCAN_LIMIT }
}

impl<D> Client<D> {
    /// The column family that this handle's requests are scoped to.
    pub closed spec fn scope(&self) -> Option<ColumnFamily> {
        self.cf
    }

    /// The execution delegate that this handle shares.
    pub closed spec fn delegate_spec(&self) -> D {
        *self.rpc
    }

    /// A handle on a connected execution delegate, with no column-family scope.
    pub fn new(rpc: Arc<D>) -> (r: Client<D>)
        ensures
            r.scope() == None::<ColumnFamily>,
            r.delegate_spec() == *rpc,
    {
        Client { rpc, cf: None }
    }

    /// The execution delegate that runs this handle's calls.
    pub fn delegate(&self) -> (r: &D)
        ensures
            *r == self.delegate_spec(),
    {
        &*self.rpc
    }

    /// Another handle on the same delegate, with the same scope. Nothing but
    /// the shared reference is copied.
    pub fn clone_handle(&self) -> (r: Client<D>)
        ensures
            r.scope() == self.scope(),
            r.delegate_spec() == self.delegate_spec(),
    {
        Client { rpc: share(&self.rpc), cf: self.cf }
    }

    /// A new handle on the same delegate whose requests are scoped to `cf`.
    /// `self` is left as it was.
    pub fn with_cf(&self, cf: ColumnFamily) -> (r: Client<D>)
        ensures
            r.scope() == Some(cf),
            r.delegate_spec() == self.delegate_spec(),
    {
        Client { rpc: share(&self.rpc), cf: Some(cf) }
    }

    /// A call under this handle's scope, with the optimistic retry policy.
    fn call(&self, request: Request) -> (r: Call)
        ensures
            r@ == call_of(request@, self.scope()),
    {
        Call { request, cf: self.cf, retry: RetryOptions::default_optimistic() }
    }

    /// Reads the value under `key`; a missing key yields no value, not an error.
    pub fn get(&self, key: Key) -> (r: Call)
        ensures
            r@ == call_of(RequestView::Get { key: key@ }, self.scope()),
    {
        self.call(Request::Get { key })
    }

    /// Reads the values under `keys`; missing keys are left out of the result,
    /// whose order need not follow `keys`.
    pub fn batch_get(&self, keys: Vec<Key>) -> (r: Call)
        ensures
            r@ == call_of(RequestView::BatchGet { keys: keys_view(keys@) }, self.scope()),
    {
        self.call(Request::BatchGet { keys })
    }

    /// Stores `value` under `key`, whatever was there.
    pub fn put(&self, key: Key, value: Value) -> (r: Call)
        ensures
            r@ == call_of(RequestView::Put { pair: (key@, value@) }, self.scope()),
    {
        self.call(Request::Put { pair: KvPair::new(key, value) })
    }

    /// Stores every pair; of two pairs with one key the later one wins.
    pub fn batch_put(&self, pairs: Vec<KvPair>) -> (r: Call)
        ensures
            r@ == call_of(RequestView::BatchPut { pairs: pairs_view(pairs@) }, self.scope()),
    {
        self.call(Request::BatchPut { pairs })
    }

    /// Stores `value` under `key` as an update.
    pub fn update(&self, key: Key, value: Value) -> (r: Call)
        ensures
            r@ == call_of(RequestView::Update { pair: (key@, value@) }, self.scope()),
    {
        self.call(Request::Update { pair: KvPair::new(key, value) })
    }

    /// Stores every pair as an update.
    pub fn batch_update(&self, pairs: Vec<KvPair>) -> (r: Call)
        ensures
            r@ == call_of(RequestView::BatchUpdate { pairs: pairs_view(pairs@) }, self.scope()),
    {
        self.call(Request::BatchUpdate { pairs })
    }

    /// Deletes `key`; a missing key is no error.
    pub fn delete(&self, key: Key) -> (r: Call)
        ensures
            r@ == call_of(RequestView::Delete { key: key@ }, self.scope()),
    {
        self.call(Request::Delete { key })
    }

    /// Deletes every key of `keys`; missing keys do not stop the others.
    pub fn batch_delete(&self, keys: Vec<Key>) -> (r: Call)
        ensures
            r@ == call_of(RequestView::BatchDelete { keys: keys_view(keys@) }, self.scope()),
    {
        self.call(Request::BatchDelete { keys })
    }

    /// Deletes every key in `range`.
    pub fn delete_range(&self, range: BoundRange) -> (r: Call)
        ensures
            r@ == call_of(RequestView::DeleteRange { range: range@ }, self.scope()),
    {
        self.call(Request::DeleteRange { range })
    }

    /// Checks the limit of a scan and builds its call; nothing is built where
    /// the limit exceeds the cap.
    fn scan_inner(&self, range: BoundRange, limit: u32, key_only: bool) -> (r: Result<
        Call,
        Error,
    >)
        ensures
            limit > MAX_RAW_KV_SCAN_LIMIT <==> r is Err,
            r matches Err(e) ==> over_limit(limit, e),
            r matches Ok(c) ==> c@ == call_of(
                RequestView::Scan { range: range@, limit, key_only },
                self.scope(),
            ),
    {
        if limit > MAX_RAW_KV_SCAN_LIMIT {
            return Err(Error::MaxScanLimitExceeded { limit, max_limit: MAX_RAW_KV_SCAN_LIMIT });
        }
        Ok(self.call(Request::Scan { range, limit, key_only }))
    }

    /// Asks for at most `limit` pairs of `range`, ascending by key. Fails at
    /// once, sending nothing, where `limit` exceeds the cap.
    pub fn scan(&self, range: BoundRange, limit: u32) -> (r: Result<Call, Error>)
        ensures
            limit > MAX_RAW_KV_SCAN_LIMIT <==> r is Err,
            r matches Err(e) ==> over_limit(limit, e),
            r matches Ok(c) ==> c@ == call_of(
                RequestView::Scan { range: range@, limit, key_only: false },
                self.scope(),
            ),
    {
        self.scan_inner(range, limit, false)
    }

    /// As [`Client::scan`], asking for the keys alone.
    pub fn scan_keys(&self, range: BoundRange, limit: u32) -> (r: Result<Call, Error>)
        ensures
            limit > MAX_RAW_KV_SCAN_LIMIT <==> r is Err,
            r matches Err(e) ==> over_limit(limit, e),
            r matches Ok(c) ==> c@ == call_of(
                RequestView::Scan { range: range@, limit, key_only: true },
                self.scope(),
            ),
    {
        self.scan_inner(range, limit, true)
    }

    /// Checks the limit of a batch scan and builds its call.
    fn batch_scan_inner(&self, ranges: Vec<BoundRange>, each_limit: u32, key_only: bool) -> (r:
        Result<Call, Error>)
        ensures
            each_limit > MAX_RAW_KV_SCAN_LIMIT <==> r is Err,
            r matches Err(e) ==> over_limit(each_limit, e),
            r matches Ok(c) ==> c@ == call_of(
                RequestView::BatchScan { ranges: ranges_view(ranges@), each_limit, key_only },
                self.scope(),
            ),
    {
        if each_limit > MAX_RAW_KV_SCAN_LIMIT {
            return Err(
                Error::MaxScanLimitExceeded { limit: each_limit, max_limit: MAX_RAW_KV_SCAN_LIMIT },
            );
        }
        Ok(self.call(Request::BatchScan { ranges, each_limit, key_only }))
    }

    /// Scans each range of `ranges`. The execution layer applies `each_limit`
    /// to each shard that a range touches, so one range may give more than
    /// `each_limit` pairs; none is missed.
    pub fn batch_scan(&self, ranges: Vec<BoundRange>, each_limit: u32) -> (r: Result<
        Call,
        Error,
    >)
        ensures
            each_limit > MAX_RAW_KV_SCAN_LIMIT <==> r is Err,
            r matches Err(e) ==> over_limit(each_limit, e),
            r matches Ok(c) ==> c@ == call_of(
                RequestView::BatchScan {
                    ranges: ranges_view(ranges@),
                    each_limit,
                    key_only: false,
                },
                self.scope(),
            ),
    {
        self.batch_scan_inner(ranges, each_limit, false)
    }

    /// As [`Client::batch_scan`], asking for the keys alone.
    pub fn batch_scan_keys(&self, ranges: Vec<BoundRange>, each_limit: u32) -> (r: Result<
        Call,
        Error,
    >)
        ensures
            each_limit > MAX_RAW_KV_SCAN_LIMIT <==> r is Err,
            r matches Err(e) ==> over_limit(each_limit, e),
            r matches Ok(c) ==> c@ == call_of(
                RequestView::BatchScan {
                    ranges: ranges_view(ranges@),
                    each_limit,
                    key_only: true,
                },
                self.scope(),
            ),
    {
        self.batch_scan_inner(ranges, each_limit, true)
    }
}

} // verus!
