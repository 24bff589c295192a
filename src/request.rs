//! Request descriptors: what a raw operation asks of the execution layer.
use vstd::prelude::*;
use crate::kv::{BoundRange, BoundView, ColumnFamily, Key, KvPair, Value};

verus! {

/// The most pairs that one scan may ask for.
pub const MAX_RAW_KV_SCAN_LIMIT: u32 = 10240;

/// How the execution layer retries a request.
#[derive(Clone, Copy, Debug, PartialEq, Eq, Structural)]
pub struct RetryOptions {
    /// Retry optimistically: back off on shard errors and try again, never
    /// wait on locks.
    pub optimistic: bool,
}

impl RetryOptions {
    /// The policy that every raw operation is sent with.
    pub fn default_optimistic() -> (r: RetryOptions)
        ensures
            r.optimistic,
    {
        RetryOptions { optimistic: true }
    }
}

/// One raw operation, with its arguments.
pub enum Request {
    Get { key: Key },
    BatchGet { keys: Vec<Key> },
    Put { pair: KvPair },
    BatchPut { pairs: Vec<KvPair> },
    Update { pair: KvPair },
    BatchUpdate { pairs: Vec<KvPair> },
    Delete { key: Key },
    BatchDelete { keys: Vec<Key> },
    DeleteRange { range: BoundRange },
    Scan { range: BoundRange, limit: u32, key_only: bool },
    BatchScan { ranges: Vec<BoundRange>, each_limit: u32, key_only: bool },
}

/// The mathematical form of a [`Request`].
pub enum RequestView {
    Get { key: Seq<u8> },
    BatchGet { keys: Seq<Seq<u8>> },
    Put { pair: (Seq<u8>, Seq<u8>) },
    BatchPut { pairs: Seq<(Seq<u8>, Seq<u8>)> },
    Update { pair: (Seq<u8>, Seq<u8>) },
    BatchUpdate { pairs: Seq<(Seq<u8>, Seq<u8>)> },
    Delete { key: Seq<u8> },
    BatchDelete { keys: Seq<Seq<u8>> },
    DeleteRange { range: (BoundView, BoundView) },
    Scan { range: (BoundView, BoundView), limit: u32, key_only: bool },
    BatchScan { ranges: Seq<(BoundView, BoundView)>, each_limit: u32, key_only: bool },
}

pub open spec fn keys_view(keys: Seq<Key>) -> Seq<Seq<u8>> {
    keys.map_values(|k: Key| k@)
}

pub open spec fn pairs_view(pairs: Seq<KvPair>) -> Seq<(Seq<u8>, Seq<u8>)> {
    pairs.map_values(|p: KvPair| p@)
}

pub open spec fn ranges_view(ranges: Seq<BoundRange>) -> Seq<(BoundView, BoundView)> {
    ranges.map_values(|r: BoundRange| r@)
}

impl View for Request {
    type V = RequestView;

    open spec fn view(&self) -> RequestView {
        match self {
            Request::Get { key } => RequestView::Get { key: key@ },
            Request::BatchGet { keys } => RequestView::BatchGet { keys: keys_view(keys@) },
            Request::Put { pair } => RequestView::Put { pair: pair@ },
            Request::BatchPut { pairs } => RequestView::BatchPut { pairs: pairs_view(pairs@) },
            Request::Update { pair } => RequestView::Update { pair: pair@ },
            Request::BatchUpdate { pairs } => RequestView::BatchUpdate {
                pairs: pairs_view(pairs@),
            },
            Request::Delete { key } => RequestView::Delete { key: key@ },
            Request::BatchDelete { keys } => RequestView::BatchDelete { keys: keys_view(keys@) },
            Request::DeleteRange { range } => RequestView::DeleteRange { range: range@ },
            Request::Scan { range, limit, key_only } => RequestView::Scan {
                range: range@,
                limit: *limit,
                key_only: *key_only,
            },
            Request::BatchScan { ranges, each_limit, key_only } => RequestView::BatchScan {
                ranges: ranges_view(ranges@),
                each_limit: *each_limit,
                key_only: *key_only,
            },
        }
    }
}

/// A request ready to be handed to the execution layer: the operation, the
/// column family it is scoped to (none: the default partition), and the retry
/// policy.
pub struct Call {
    pub request: Request,
    pub cf: Option<ColumnFamily>,
    pub retry: RetryOptions,
}

/// The mathematical form of a [`Call`].
pub struct CallView {
    pub request: RequestView,
    pub cf: Option<ColumnFamily>,
    pub retry: RetryOptions,
}

impl View for Call {
    type V = CallView;

    open spec fn view(&self) -> CallView {
        CallView { request: self.request@, cf: self.cf, retry: self.retry }
    }
}

/// What the execution layer answers to a call.
pub enum Response {
    /// The value under one key, if any: the answer to a get.
    Value(Option<Value>),
    /// Pairs: the answer to a batch get or a scan.
    Pairs(Vec<KvPair>),
    /// The pairs of each range of a batch scan, range by range.
    PerRange(Vec<Vec<KvPair>>),
    /// A write or a delete went through.
    Done,
}

} // verus!
