//! Keys, values, pairs, ranges over keys, and column families.
use vstd::prelude::*;

verus! {

/// A value stored under a key: an opaque byte string.
pub type Value = Vec<u8>;

/// A key: a byte string, ordered byte-lexicographically.
pub struct Key {
    pub bytes: Vec<u8>,
}

impl View for Key {
    type V = Seq<u8>;

    open spec fn view(&self) -> Seq<u8> {
        self.bytes@
    }
}

impl Key {
    pub fn new(bytes: Vec<u8>) -> (r: Key)
        ensures
            r@ == bytes@,
    {
        Key { bytes }
    }

    /// A key that holds the same bytes.
    pub fn duplicate(&self) -> (r: Key)
        ensures
            r@ == self@,
    {
        Key { bytes: self.bytes.clone() }
    }
}

/// A key together with the value stored under it.
pub struct KvPair {
    pub key: Key,
    pub value: Value,
}

impl View for KvPair {
    type V = (Seq<u8>, Seq<u8>);

    open spec fn view(&self) -> (Seq<u8>, Seq<u8>) {
        (self.key@, self.value@)
    }
}

impl KvPair {
    pub fn new(key: Key, value: Value) -> (r: KvPair)
        ensures
            r@ == (key@, value@),
    {
        KvPair { key, value }
    }

    /// Gives the key back, dropping the value.
    pub fn into_key(self) -> (r: Key)
        ensures
            r@ == self@.0,
    {
        self.key
    }
}

/// `a` comes strictly before `b` in byte-lexicographic order.
pub open spec fn key_lt(a: Seq<u8>, b: Seq<u8>) -> bool
    decreases a.len(),
{
    if b.len() == 0 {
        false
    } else if a.len() == 0 {
        true
    } else if a[0] != b[0] {
        a[0] < b[0]
    } else {
        key_lt(a.drop_first(), b.drop_first())
    }
}

/// One end of a range of keys.
pub enum Bound {
    Included(Key),
    Excluded(Key),
    Unbounded,
}

/// The mathematical form of a [`Bound`].
pub enum BoundView {
    Included(Seq<u8>),
    Excluded(Seq<u8>),
    Unbounded,
}

impl View for Bound {
    type V = BoundView;

    open spec fn view(&self) -> BoundView {
        match self {
            Bound::Included(k) => BoundView::Included(k@),
            Bound::Excluded(k) => BoundView::Excluded(k@),
            Bound::Unbounded => BoundView::Unbounded,
        }
    }
}

/// A range of keys, each end inclusive, exclusive or open. An empty or
/// inverted range simply holds no key.
pub struct BoundRange {
    pub from: Bound,
    pub to: Bound,
}

impl View for BoundRange {
    type V = (BoundView, BoundView);

    open spec fn view(&self) -> (BoundView, BoundView) {
        (self.from@, self.to@)
    }
}

/// `k` lies above the lower bound `b`.
pub open spec fn above(b: BoundView, k: Seq<u8>) -> bool {
    match b {
        BoundView::Included(s) => s == k || key_lt(s, k),
        BoundView::Excluded(s) => key_lt(s, k),
        BoundView::Unbounded => true,
    }
}

/// `k` lies below the upper bound `b`.
pub open spec fn below(b: BoundView, k: Seq<u8>) -> bool {
    match b {
        BoundView::Included(s) => s == k || key_lt(k, s),
        BoundView::Excluded(s) => key_lt(k, s),
        BoundView::Unbounded => true,
    }
}

/// `k` lies in the range `r`.
pub open spec fn in_range(r: (BoundView, BoundView), k: Seq<u8>) -> bool {
    above(r.0, k) && below(r.1, k)
}

impl BoundRange {
    pub fn new(from: Bound, to: Bound) -> (r: BoundRange)
        ensures
            r@ == (from@, to@),
    {
        BoundRange { from, to }
    }

    /// The range that holds every key.
    pub fn unbounded() -> (r: BoundRange)
        ensures
            r@ == (BoundView::Unbounded, BoundView::Unbounded),
            forall|k: Seq<u8>| in_range(r@, k),
    {
        BoundRange { from: Bound::Unbounded, to: Bound::Unbounded }
    }
}

/// No key comes strictly before itself.
pub proof fn lemma_key_lt_irreflexive(a: Seq<u8>)
    ensures
        !key_lt(a, a),
    decreases a.len(),
{
    if a.len() > 0 {
        lemma_key_lt_irreflexive(a.drop_first());
    }
}

/// Byte-lexicographic order is transitive.
pub proof fn lemma_key_lt_transitive(a: Seq<u8>, b: Seq<u8>, c: Seq<u8>)
    requires
        key_lt(a, b),
        key_lt(b, c),
    ensures
        key_lt(a, c),
    decreases a.len(),
{
    if a.len() > 0 && a[0] == b[0] && b[0] == c[0] {
        lemma_key_lt_transitive(a.drop_first(), b.drop_first(), c.drop_first());
    }
}

/// Of two different keys, one comes strictly before the other.
pub proof fn lemma_key_lt_total(a: Seq<u8>, b: Seq<u8>)
    ensures
        a == b || key_lt(a, b) || key_lt(b, a),
    decreases a.len(),
{
    if a.len() == 0 && b.len() == 0 {
        assert(a =~= b);
    } else if a.len() > 0 && b.len() > 0 && a[0] == b[0] {
        lemma_key_lt_total(a.drop_first(), b.drop_first());
        if a.drop_first() == b.drop_first() {
            assert(a.drop_first().len() == a.len() - 1);
            assert(b.drop_first().len() == b.len() - 1);
            assert(a.len() == b.len());
            assert forall|i: int| 0 <= i < a.len() implies a[i] == b[i] by {
                if i > 0 {
                    assert(a[i] == a.drop_first()[i - 1]);
                    assert(b[i] == b.drop_first()[i - 1]);
                }
            }
            assert(a =~= b);
        }
    }
}

/// Whether the bytes of `a` from `i` on come strictly before those of `b`
/// from `i` on.
fn lt_from(a: &Vec<u8>, b: &Vec<u8>, i: usize) -> (r: bool)
    requires
        i <= a@.len(),
        i <= b@.len(),
    ensures
        r == key_lt(a@.skip(i as int), b@.skip(i as int)),
    decreases a@.len() - i,
{
    if i >= b.len() {
        false
    } else if i >= a.len() {
        true
    } else if a[i] != b[i] {
        a[i] < b[i]
    } else {
        let r = lt_from(a, b, i + 1);
        assert(a@.skip(i as int).drop_first() =~= a@.skip(i + 1));
        assert(b@.skip(i as int).drop_first() =~= b@.skip(i + 1));
        r
    }
}

/// Whether the bytes of `a` equal those of `b`.
fn bytes_eq(a: &Vec<u8>, b: &Vec<u8>) -> (r: bool)
    ensures
        r == (a@ == b@),
{
    if a.len() != b.len() {
        return false;
    }
    let mut i: usize = 0;
    while i < a.len()
        invariant
            a@.len() == b@.len(),
            i <= a@.len(),
            forall|j: int| 0 <= j < i ==> a@[j] == b@[j],
        decreases a@.len() - i,
    {
        if a[i] != b[i] {
            return false;
        }
        i = i + 1;
    }
    assert(a@ =~= b@);
    true
}

impl Key {
    /// Whether `self` comes strictly before `other`.
    pub fn less_than(&self, other: &Key) -> (r: bool)
        ensures
            r == key_lt(self@, other@),
    {
        assert(self@.skip(0) =~= self@);
        assert(other@.skip(0) =~= other@);
        lt_from(&self.bytes, &other.bytes, 0)
    }

    /// Whether `self` and `other` hold the same bytes.
    pub fn same(&self, other: &Key) -> (r: bool)
        ensures
            r == (self@ == other@),
    {
        bytes_eq(&self.bytes, &other.bytes)
    }
}

impl Bound {
    /// Whether `k` lies above this bound, taken as a lower one.
    pub fn admits_above(&self, k: &Key) -> (r: bool)
        ensures
            r == above(self@, k@),
    {
        match self {
            Bound::Included(s) => s.same(k) || s.less_than(k),
            Bound::Excluded(s) => s.less_than(k),
            Bound::Unbounded => true,
        }
    }

    /// Whether `k` lies below this bound, taken as an upper one.
    pub fn admits_below(&self, k: &Key) -> (r: bool)
        ensures
            r == below(self@, k@),
    {
        match self {
            Bound::Included(s) => s.same(k) || k.less_than(s),
            Bound::Excluded(s) => k.less_than(s),
            Bound::Unbounded => true,
        }
    }
}

impl BoundRange {
    /// Whether `k` lies in this range.
    pub fn contains(&self, k: &Key) -> (r: bool)
        ensures
            r == in_range(self@, k@),
    {
        self.from.admits_above(k) && self.to.admits_below(k)
    }
}

/// A named partition of the keyspace.
#[derive(Clone, Copy, Debug, PartialEq, Eq, Structural)]
pub enum ColumnFamily {
    Default,
    Lock,
    Write,
}

/// The partition that a request under the scope `cf` reaches: no scope means
/// the default partition.
pub open spec fn partition_of(cf: Option<ColumnFamily>) -> ColumnFamily {
    match cf {
        Some(c) => c,
        None => ColumnFamily::Default,
    }
}

} // verus!
