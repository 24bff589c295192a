//! An execution layer held in one process's memory: it carries out calls on
//! a table of its own, as the store model says the store does.
use vstd::prelude::*;
use crate::kv::{
    in_range, key_lt, lemma_key_lt_irreflexive, lemma_key_lt_total, lemma_key_lt_transitive,
    partition_of, BoundRange, BoundView, ColumnFamily, Key, KvPair, Value,
};
use crate::request::{keys_view, pairs_view, ranges_view, Call, Request, Response};
use crate::shape::keys_of;
use crate::store::{
    after, answers, batch_get_answer, delete_all, delete_in_range, has_key, scan_answer, scan_fits,
    write_all, Contents,
};

verus! {

/// One stored value, with its partition and key.
struct Entry {
    cf: ColumnFamily,
    key: Key,
    value: Value,
}

/// The partition and key that an entry stands for.
spec fn slot(e: Entry) -> (ColumnFamily, Seq<u8>) {
    (e.cf, e.key@)
}

/// Deleting `keys` from partition `p` keeps exactly the other keys, with
/// their values.
proof fn lemma_delete_all(m: Contents, p: ColumnFamily, keys: Seq<Seq<u8>>)
    ensures
        forall|ck: (ColumnFamily, Seq<u8>)|
            #[trigger] delete_all(m, p, keys).dom().contains(ck) <==> m.dom().contains(ck) && !(
            ck.0 == p && keys.contains(ck.1)),
        forall|ck: (ColumnFamily, Seq<u8>)|
            #[trigger] delete_all(m, p, keys).dom().contains(ck) ==> delete_all(m, p, keys)[ck]
                == m[ck],
    decreases keys.len(),
{
    if keys.len() > 0 {
        let rest = keys.drop_first();
        lemma_delete_all(m.remove((p, keys[0])), p, rest);
        assert forall|k: Seq<u8>| keys.contains(k) <==> (keys[0] == k || rest.contains(k)) by {
            if keys.contains(k) && keys[0] != k {
                let t = choose|t: int| 0 <= t < keys.len() && keys[t] == k;
                assert(rest[t - 1] == k);
            }
            if rest.contains(k) {
                let t = choose|t: int| 0 <= t < rest.len() && rest[t] == k;
                assert(keys[t + 1] == k);
            }
        }
        let d = delete_all(m, p, keys);
        assert(d == delete_all(m.remove((p, keys[0])), p, rest));
        assert forall|ck: (ColumnFamily, Seq<u8>)| #[trigger] d.dom().contains(ck) <==> m.dom().contains(ck)
            && !(ck.0 == p && keys.contains(ck.1)) by {
            assert(keys.contains(ck.1) <==> (keys[0] == ck.1 || rest.contains(ck.1)));
        }
    } else {
        assert(delete_all(m, p, keys) == m);
        assert forall|ck: (ColumnFamily, Seq<u8>)| !keys.contains(ck.1) by {
        }
    }
}

/// `e` may come next in a scan of partition `cf` over `range` that has
/// taken `taken` so far.
spec fn candidate(e: Entry, cf: ColumnFamily, range: (BoundView, BoundView), taken: Seq<KvPair>) -> bool {
    &&& e.cf == cf
    &&& in_range(range, e.key@)
    &&& taken.len() > 0 ==> key_lt(taken.last().key@, e.key@)
}

/// A full answer to a scan also fits the key-only scan of the same range.
proof fn lemma_full_answer_fits(
    m: Contents,
    cf: Option<ColumnFamily>,
    range: (BoundView, BoundView),
    limit: u32,
    key_only: bool,
    answer: Seq<(Seq<u8>, Seq<u8>)>,
)
    requires
        scan_answer(m, Some(partition_of(cf)), range, limit, answer),
    ensures
        scan_answer(m, cf, range, limit, answer),
        scan_fits(m, cf, range, limit, key_only, answer),
{
    assert(keys_of(answer) == keys_of(answer));
}

/// Whether some pair of `pairs` has the key `k`.
fn holds_key(pairs: &Vec<KvPair>, k: &Key) -> (r: bool)
    ensures
        r <==> exists|t: int| 0 <= t < pairs@.len() && pairs@[t].key@ == k@,
{
    let mut i: usize = 0;
    while i < pairs.len()
        invariant
            i <= pairs@.len(),
            forall|t: int| 0 <= t < i ==> (#[trigger] pairs@[t]).key@ != k@,
        decreases pairs@.len() - i,
    {
        if pairs[i].key.same(k) {
            return true;
        }
        i = i + 1;
    }
    false
}

/// An in-memory store: the value under each key of each partition.
pub struct MemStore {
    entries: Vec<Entry>,
    contents: Ghost<Contents>,
}

impl MemStore {
    /// What the store holds.
    pub closed spec fn contents(&self) -> Contents {
        self.contents@
    }

    /// Each entry is one key of the contents, with its value, and each key of
    /// the contents has one entry.
    pub closed spec fn wf(&self) -> bool {
        &&& forall|i: int|
            0 <= i < self.entries@.len() ==> self.contents@.dom().contains(
                #[trigger] slot(self.entries@[i]),
            ) && self.contents@[slot(self.entries@[i])] == self.entries@[i].value@
        &&& forall|ck: (ColumnFamily, Seq<u8>)|
            #[trigger] self.contents@.dom().contains(ck) ==> exists|i: int|
                0 <= i < self.entries@.len() && slot(self.entries@[i]) == ck
        &&& forall|i: int, j: int|
            0 <= i < j < self.entries@.len() ==> slot(#[trigger] self.entries@[i]) != slot(
                #[trigger] self.entries@[j],
            )
    }

    /// An empty store.
    pub fn new() -> (r: MemStore)
        ensures
            r.wf(),
            r.contents() == Map::<(ColumnFamily, Seq<u8>), Seq<u8>>::empty(),
    {
        MemStore { entries: Vec::new(), contents: Ghost(Map::empty()) }
    }

    /// The index of the entry for `key` in partition `cf`, if there is one.
    fn find(&self, cf: ColumnFamily, key: &Key) -> (r: Option<usize>)
        requires
            self.wf(),
        ensures
            r matches Some(i) ==> i < self.entries@.len() && slot(self.entries@[i as int]) == (
                cf,
                key@,
            ),
            r is None ==> !self.contents().dom().contains((cf, key@)),
    {
        let mut i: usize = 0;
        while i < self.entries.len()
            invariant
                self.wf(),
                i <= self.entries@.len(),
                forall|j: int| 0 <= j < i ==> slot(#[trigger] self.entries@[j]) != (cf, key@),
            decreases self.entries@.len() - i,
        {
            if self.entries[i].cf == cf && self.entries[i].key.same(key) {
                return Some(i);
            }
            i = i + 1;
        }
        None
    }

    /// The value under `key` in partition `cf`, if any.
    fn read(&self, cf: ColumnFamily, key: &Key) -> (r: Option<Value>)
        requires
            self.wf(),
        ensures
            r matches Some(v) ==> self.contents().dom().contains((cf, key@)) && v@
                == self.contents()[(cf, key@)],
            r is None ==> !self.contents().dom().contains((cf, key@)),
    {
        match self.find(cf, key) {
            Some(i) => Some(self.entries[i].value.clone()),
            None => None,
        }
    }

    /// Stores `value` under `key` in partition `cf`.
    fn write(&mut self, cf: ColumnFamily, key: Key, value: Value)
        requires
            old(self).wf(),
        ensures
            final(self).wf(),
            final(self).contents() == old(self).contents().insert((cf, key@), value@),
    {
        let ghost ck = (cf, key@);
        let ghost after = self.contents@.insert(ck, value@);
        let ghost before = self.entries@;
        let ghost held = self.contents@;
        match self.find(cf, &key) {
            Some(i) => {
                self.entries.set(i, Entry { cf, key, value });
                self.contents = Ghost(after);
                assert forall|c: (ColumnFamily, Seq<u8>)| #[trigger] after.dom().contains(c) implies exists|j: int|
                    0 <= j < self.entries@.len() && slot(self.entries@[j]) == c by {
                    if c == ck {
                        assert(slot(self.entries@[i as int]) == c);
                    } else {
                        assert(held.dom().contains(c));
                        let j = choose|j: int| 0 <= j < before.len() && slot(before[j]) == c;
                        assert(slot(self.entries@[j]) == c);
                    }
                }
            },
            None => {
                self.entries.push(Entry { cf, key, value });
                self.contents = Ghost(after);
                assert forall|c: (ColumnFamily, Seq<u8>)| #[trigger] after.dom().contains(c) implies exists|j: int|
                    0 <= j < self.entries@.len() && slot(self.entries@[j]) == c by {
                    if c == ck {
                        assert(slot(self.entries@[self.entries@.len() - 1]) == c);
                    } else {
                        assert(held.dom().contains(c));
                        let j = choose|j: int| 0 <= j < before.len() && slot(before[j]) == c;
                        assert(slot(self.entries@[j]) == c);
                    }
                }
            },
        }
    }
    /// Deletes `key` from partition `cf`; a missing key is passed over.
    fn erase(&mut self, cf: ColumnFamily, key: &Key)
        requires
            old(self).wf(),
        ensures
            final(self).wf(),
            final(self).contents() == old(self).contents().remove((cf, key@)),
    {
        let ghost ck = (cf, key@);
        let ghost held = self.contents@;
        match self.find(cf, key) {
            Some(i) => {
                let ghost before = self.entries@;
                let _ = self.entries.remove(i);
                self.contents = Ghost(held.remove(ck));
                assert forall|j: int| 0 <= j < self.entries@.len() implies self.contents@.dom().contains(
                    #[trigger] slot(self.entries@[j]),
                ) && self.contents@[slot(self.entries@[j])] == self.entries@[j].value@ by {
                    if j < i {
                        assert(self.entries@[j] == before[j]);
                    } else {
                        assert(self.entries@[j] == before[j + 1]);
                    }
                }
                assert forall|c: (ColumnFamily, Seq<u8>)| #[trigger] self.contents@.dom().contains(c) implies exists|j: int|
                    0 <= j < self.entries@.len() && slot(self.entries@[j]) == c by {
                    let j = choose|j: int| 0 <= j < before.len() && slot(before[j]) == c;
                    if j < i {
                        assert(slot(self.entries@[j]) == c);
                    } else {
                        assert(slot(self.entries@[j - 1]) == c);
                    }
                }
                assert forall|a: int, b: int| 0 <= a < b < self.entries@.len() implies slot(
                    #[trigger] self.entries@[a],
                ) != slot(#[trigger] self.entries@[b]) by {
                    let oa = if a < i { a } else { a + 1 };
                    let ob = if b < i { b } else { b + 1 };
                    assert(self.entries@[a] == before[oa]);
                    assert(self.entries@[b] == before[ob]);
                }
            },
            None => {
                assert(held.remove(ck) =~= held);
            },
        }
    }

    /// Stores each pair into partition `cf`, one after another.
    fn write_each(&mut self, cf: ColumnFamily, pairs: &Vec<KvPair>)
        requires
            old(self).wf(),
        ensures
            final(self).wf(),
            final(self).contents() == write_all(old(self).contents(), cf, pairs_view(pairs@)),
    {
        let ghost all = pairs_view(pairs@);
        let ghost goal = write_all(self.contents@, cf, all);
        assert(all.skip(0) =~= all);
        let mut i: usize = 0;
        while i < pairs.len()
            invariant
                self.wf(),
                i <= pairs@.len(),
                all == pairs_view(pairs@),
                goal == write_all(self.contents@, cf, all.skip(i as int)),
            decreases pairs@.len() - i,
        {
            proof {
                assert(all.skip(i as int).drop_first() =~= all.skip(i + 1));
            }
            self.write(cf, pairs[i].key.duplicate(), pairs[i].value.clone());
            i = i + 1;
        }
        proof {
            assert(all.skip(i as int).len() == 0);
        }
    }

    /// Deletes each key from partition `cf`, one after another.
    fn erase_each(&mut self, cf: ColumnFamily, keys: &Vec<Key>)
        requires
            old(self).wf(),
        ensures
            final(self).wf(),
            final(self).contents() == delete_all(old(self).contents(), cf, keys_view(keys@)),
    {
        let ghost all = keys_view(keys@);
        let ghost goal = delete_all(self.contents@, cf, all);
        assert(all.skip(0) =~= all);
        let mut i: usize = 0;
        while i < keys.len()
            invariant
                self.wf(),
                i <= keys@.len(),
                all == keys_view(keys@),
                goal == delete_all(self.contents@, cf, all.skip(i as int)),
            decreases keys@.len() - i,
        {
            proof {
                assert(all.skip(i as int).drop_first() =~= all.skip(i + 1));
            }
            self.erase(cf, &keys[i]);
            i = i + 1;
        }
        proof {
            assert(all.skip(i as int).len() == 0);
        }
    }
    /// The keys of partition `cf` in `range`.
    fn keys_in_range(&self, cf: ColumnFamily, range: &BoundRange) -> (r: Vec<Key>)
        requires
            self.wf(),
        ensures
            forall|k: Seq<u8>|
                #[trigger] keys_view(r@).contains(k) <==> self.contents().dom().contains((cf, k))
                    && in_range(range@, k),
    {
        let mut found: Vec<Key> = Vec::new();
        let mut i: usize = 0;
        while i < self.entries.len()
            invariant
                self.wf(),
                i <= self.entries@.len(),
                forall|k: Seq<u8>|
                    #[trigger] keys_view(found@).contains(k) <==> exists|j: int|
                        0 <= j < i && slot(self.entries@[j]) == (cf, k) && in_range(range@, k),
            decreases self.entries@.len() - i,
        {
            if self.entries[i].cf == cf && range.contains(&self.entries[i].key) {
                let ghost before = keys_view(found@);
                found.push(self.entries[i].key.duplicate());
                proof {
                    assert(keys_view(found@) =~= before.push(self.entries@[i as int].key@));
                    assert forall|k: Seq<u8>| #[trigger] keys_view(found@).contains(k) <==> exists|j: int|
                        0 <= j < i + 1 && slot(self.entries@[j]) == (cf, k) && in_range(range@, k) by {
                        if keys_view(found@).contains(k) && !before.contains(k) {
                            assert(keys_view(found@)[before.len() as int] == k || before.contains(k));
                            assert(slot(self.entries@[i as int]) == (cf, k));
                        }
                        if exists|j: int| 0 <= j < i + 1 && slot(self.entries@[j]) == (cf, k) && in_range(range@, k) {
                            let j = choose|j: int| 0 <= j < i + 1 && slot(self.entries@[j]) == (cf, k) && in_range(range@, k);
                            if j == i {
                                assert(keys_view(found@)[before.len() as int] == k);
                            } else {
                                assert(before.contains(k));
                                let t = choose|t: int| 0 <= t < before.len() && before[t] == k;
                                assert(keys_view(found@)[t] == k);
                            }
                        }
                    }
                }
            }
            i = i + 1;
        }
        proof {
            assert forall|k: Seq<u8>| #[trigger] keys_view(found@).contains(k) <==> self.contents().dom().contains((cf, k))
                && in_range(range@, k) by {
                if self.contents().dom().contains((cf, k)) {
                    let j = choose|j: int| 0 <= j < self.entries@.len() && slot(self.entries@[j]) == (cf, k);
                    assert(slot(self.entries@[j]) == (cf, k));
                }
            }
        }
        found
    }

    /// Deletes every key of partition `cf` in `range`.
    fn erase_range(&mut self, cf: ColumnFamily, range: &BoundRange)
        requires
            old(self).wf(),
        ensures
            final(self).wf(),
            final(self).contents() == delete_in_range(old(self).contents(), cf, range@),
    {
        let ghost held = self.contents@;
        let victims = self.keys_in_range(cf, range);
        self.erase_each(cf, &victims);
        proof {
            lemma_delete_all(held, cf, keys_view(victims@));
            assert(self.contents@ =~= delete_in_range(held, cf, range@));
        }
    }
    /// The pairs of `keys` present in partition `cf`, one for each distinct
    /// key, in the order of first mention.
    fn read_each(&self, cf: ColumnFamily, keys: &Vec<Key>) -> (r: Vec<KvPair>)
        requires
            self.wf(),
        ensures
            batch_get_answer(self.contents(), Some(cf), keys_view(keys@), pairs_view(r@)),
    {
        let ghost all = keys_view(keys@);
        let ghost m = self.contents();
        let mut out: Vec<KvPair> = Vec::new();
        let mut i: usize = 0;
        while i < keys.len()
            invariant
                self.wf(),
                m == self.contents(),
                all == keys_view(keys@),
                i <= keys@.len(),
                forall|t: int|
                    0 <= t < out@.len() ==> all.take(i as int).contains(#[trigger] out@[t].key@)
                        && m.dom().contains((cf, out@[t].key@)) && out@[t].value@ == m[(
                        cf,
                        out@[t].key@,
                    )],
                forall|a: int, b: int|
                    0 <= a < b < out@.len() ==> (#[trigger] out@[a]).key@ != (#[trigger] out@[b]).key@,
                forall|k: Seq<u8>|
                    #[trigger] all.take(i as int).contains(k) && m.dom().contains((cf, k)) ==> exists|t: int|
                        0 <= t < out@.len() && out@[t].key@ == k,
            decreases keys@.len() - i,
        {
            let ghost before = out@;
            proof {
                assert(all.take(i + 1) =~= all.take(i as int).push(keys@[i as int]@));
                assert forall|k: Seq<u8>| all.take(i as int).contains(k) implies #[trigger] all.take(i + 1).contains(k) by {
                    let t = choose|t: int| 0 <= t < i && all.take(i as int)[t] == k;
                    assert(all.take(i + 1)[t] == k);
                }
                assert(all.take(i + 1)[i as int] == keys@[i as int]@);
            }
            if !holds_key(&out, &keys[i]) {
                match self.read(cf, &keys[i]) {
                    Some(v) => {
                        out.push(KvPair::new(keys[i].duplicate(), v));
                        proof {
                            assert(out@[before.len() as int].key@ == keys@[i as int]@);
                        }
                    },
                    None => {},
                }
            }
            proof {
                assert forall|k: Seq<u8>| #[trigger] all.take(i + 1).contains(k) && m.dom().contains((cf, k)) implies exists|t: int|
                    0 <= t < out@.len() && out@[t].key@ == k by {
                    if k == keys@[i as int]@ {
                        if exists|t: int| 0 <= t < before.len() && before[t].key@ == k {
                            let t = choose|t: int| 0 <= t < before.len() && before[t].key@ == k;
                            assert(out@[t] == before[t]);
                        } else {
                            assert(out@[before.len() as int].key@ == k);
                        }
                    } else {
                        let t = choose|t: int| 0 <= t < i + 1 && #[trigger] all.take(i + 1)[t] == k;
                        assert(all.take(i as int)[t] == k);
                        assert(all.take(i as int).contains(k));
                        let u = choose|u: int| 0 <= u < before.len() && before[u].key@ == k;
                        assert(out@[u] == before[u]);
                    }
                }
            }
            i = i + 1;
        }
        proof {
            assert(all.take(i as int) =~= all);
            let pv = pairs_view(out@);
            assert forall|t: int| 0 <= t < pv.len() implies pv[t] == out@[t]@ by {}
            assert forall|k: Seq<u8>| all.contains(k) && m.dom().contains((cf, k)) implies exists|t: int|
                0 <= t < pv.len() && (#[trigger] pv[t]).0 == k by {
                let t = choose|t: int| 0 <= t < out@.len() && out@[t].key@ == k;
                assert(pv[t].0 == k);
            }
            assert forall|a: int, b: int| 0 <= a < b < pv.len() implies pv[a].0 != pv[b].0 by {
                assert(out@[a].key@ != out@[b].key@);
            }
        }
        out
    }
    /// Up to `limit` pairs of partition `cf` in `range`, ascending by key:
    /// each round takes the least key above the last one taken.
    fn read_range(&self, cf: ColumnFamily, range: &BoundRange, limit: u32) -> (r: Vec<KvPair>)
        requires
            self.wf(),
        ensures
            scan_answer(self.contents(), Some(cf), range@, limit, pairs_view(r@)),
            r@.len() <= limit,
    {
        let ghost m = self.contents();
        let mut out: Vec<KvPair> = Vec::new();
        let mut exhausted = false;
        while !exhausted && out.len() < limit as usize
            invariant
                self.wf(),
                m == self.contents(),
                out@.len() <= limit,
                forall|t: int|
                    0 <= t < out@.len() ==> in_range(range@, (#[trigger] out@[t]).key@)
                        && m.dom().contains((cf, out@[t].key@)) && out@[t].value@ == m[(
                        cf,
                        out@[t].key@,
                    )],
                forall|a: int, b: int|
                    0 <= a < b < out@.len() ==> key_lt(
                        (#[trigger] out@[a]).key@,
                        (#[trigger] out@[b]).key@,
                    ),
                forall|k: Seq<u8>, i: int|
                    0 <= i < out@.len() && m.dom().contains((cf, k)) && in_range(range@, k)
                        && #[trigger] key_lt(k, out@[i].key@) ==> exists|t: int|
                        0 <= t < out@.len() && out@[t].key@ == k,
                exhausted ==> forall|k: Seq<u8>|
                    #[trigger] m.dom().contains((cf, k)) && in_range(range@, k) ==> exists|t: int|
                        0 <= t < out@.len() && out@[t].key@ == k,
            decreases limit - out@.len() + (if exhausted { 0int } else { 1int }),
        {
            let mut best: Option<usize> = None;
            let mut j: usize = 0;
            while j < self.entries.len()
                invariant
                    self.wf(),
                    m == self.contents(),
                    j <= self.entries@.len(),
                    best matches Some(b) ==> b < self.entries@.len() && candidate(
                        self.entries@[b as int],
                        cf,
                        range@,
                        out@,
                    ),
                    best is None ==> forall|i: int|
                        0 <= i < j ==> !candidate(#[trigger] self.entries@[i], cf, range@, out@),
                    best matches Some(b) ==> forall|i: int|
                        0 <= i < j && candidate(#[trigger] self.entries@[i], cf, range@, out@)
                            ==> !key_lt(self.entries@[i].key@, self.entries@[b as int].key@),
                decreases self.entries@.len() - j,
            {
                let e = &self.entries[j];
                if e.cf == cf && range.contains(&e.key) && (out.len() == 0 || out[out.len()
                    - 1].key.less_than(&e.key)) {
                    match best {
                        None => {
                            best = Some(j);
                            proof {
                                lemma_key_lt_irreflexive(e.key@);
                            }
                        },
                        Some(b) => {
                            if e.key.less_than(&self.entries[b].key) {
                                proof {
                                    lemma_key_lt_irreflexive(e.key@);
                                    assert forall|i: int|
                                        0 <= i < j && candidate(#[trigger] self.entries@[i], cf, range@, out@)
                                        implies !key_lt(self.entries@[i].key@, e.key@) by {
                                        if key_lt(self.entries@[i].key@, e.key@) {
                                            lemma_key_lt_transitive(
                                                self.entries@[i].key@,
                                                e.key@,
                                                self.entries@[b as int].key@,
                                            );
                                        }
                                    }
                                }
                                best = Some(j);
                            }
                        },
                    }
                }
                j = j + 1;
            }
            match best {
                None => {
                    proof {
                        assert forall|k: Seq<u8>| #[trigger] m.dom().contains((cf, k)) && in_range(range@, k)
                            implies exists|t: int| 0 <= t < out@.len() && out@[t].key@ == k by {
                            let i = choose|i: int| 0 <= i < self.entries@.len() && slot(self.entries@[i]) == (cf, k);
                            assert(!candidate(self.entries@[i], cf, range@, out@));
                            let n = out@.len() - 1;
                            lemma_key_lt_total(k, out@[n].key@);
                            if k == out@[n].key@ {
                                assert(out@[n].key@ == k);
                            }
                        }
                    }
                    exhausted = true;
                },
                Some(b) => {
                    let ghost before = out@;
                    out.push(KvPair::new(self.entries[b].key.duplicate(), self.entries[b].value.clone()));
                    proof {
                        let n = before.len() as int;
                        let nk = out@[n].key@;
                        assert(slot(self.entries@[b as int]) == (cf, nk));
                        assert forall|a: int, c: int| 0 <= a < c < out@.len() implies key_lt(
                            (#[trigger] out@[a]).key@,
                            (#[trigger] out@[c]).key@,
                        ) by {
                            if c == n && a < n - 1 {
                                assert(before[a] == out@[a]);
                                assert(before[n - 1] == out@[n - 1]);
                                lemma_key_lt_transitive(out@[a].key@, out@[n - 1].key@, nk);
                            } else if c < n {
                                assert(before[a] == out@[a]);
                                assert(before[c] == out@[c]);
                            }
                        }
                        assert forall|t: int| 0 <= t < out@.len() implies in_range(range@, (#[trigger] out@[t]).key@)
                            && m.dom().contains((cf, out@[t].key@)) && out@[t].value@ == m[(cf, out@[t].key@)] by {
                            if t < n {
                                assert(before[t] == out@[t]);
                            }
                        }
                        assert forall|k: Seq<u8>, i: int|
                            0 <= i < out@.len() && m.dom().contains((cf, k)) && in_range(range@, k)
                                && #[trigger] key_lt(k, out@[i].key@) implies exists|t: int|
                                0 <= t < out@.len() && out@[t].key@ == k by {
                            if i < n {
                                assert(before[i] == out@[i]);
                                let t = choose|t: int| 0 <= t < before.len() && before[t].key@ == k;
                                assert(out@[t] == before[t]);
                            } else {
                                let e = choose|e: int| 0 <= e < self.entries@.len() && slot(self.entries@[e]) == (cf, k);
                                if n == 0 {
                                    assert(candidate(self.entries@[e], cf, range@, before));
                                } else {
                                    let last = before[n - 1].key@;
                                    lemma_key_lt_total(k, last);
                                    if k == last {
                                        assert(out@[n - 1] == before[n - 1]);
                                    } else if key_lt(k, last) {
                                        let t = choose|t: int| 0 <= t < before.len() && before[t].key@ == k;
                                        assert(out@[t] == before[t]);
                                    } else {
                                        assert(candidate(self.entries@[e], cf, range@, before));
                                    }
                                }
                            }
                        }
                    }
                },
            }
        }
        proof {
            let pv = pairs_view(out@);
            assert forall|t: int| 0 <= t < pv.len() implies pv[t] == out@[t]@ by {}
            assert forall|a: int, b: int| 0 <= a < b < pv.len() implies key_lt(
                #[trigger] pv[a].0,
                #[trigger] pv[b].0,
            ) by {
                assert(key_lt(out@[a].key@, out@[b].key@));
            }
            assert forall|t: int| 0 <= t < pv.len() implies in_range(range@, (#[trigger] pv[t]).0)
                && m.dom().contains((cf, pv[t].0)) && pv[t].1 == m[(cf, pv[t].0)] by {
                assert(in_range(range@, out@[t].key@));
            }
            assert forall|k: Seq<u8>, i: int|
                0 <= i < pv.len() && m.dom().contains((cf, k)) && in_range(range@, k) && key_lt(
                    k,
                    #[trigger] pv[i].0,
                ) implies #[trigger] has_key(pv, k) by {
                assert(key_lt(k, out@[i].key@));
                let t = choose|t: int| 0 <= t < out@.len() && out@[t].key@ == k;
                assert(pv[t].0 == k);
            }
            if pv.len() < limit {
                assert forall|k: Seq<u8>| m.dom().contains((cf, k)) && in_range(range@, k) implies #[trigger] has_key(
                    pv,
                    k,
                ) by {
                    let t = choose|t: int| 0 <= t < out@.len() && out@[t].key@ == k;
                    assert(pv[t].0 == k);
                }
            }
        }
        out
    }

    /// The pairs of each range of `ranges` in partition `cf`, up to
    /// `each_limit` of each.
    fn read_ranges(&self, cf: ColumnFamily, ranges: &Vec<BoundRange>, each_limit: u32) -> (r: Vec<
        Vec<KvPair>,
    >)
        requires
            self.wf(),
        ensures
            r@.len() == ranges@.len(),
            forall|i: int|
                0 <= i < r@.len() ==> scan_answer(
                    self.contents(),
                    Some(cf),
                    ranges@[i]@,
                    each_limit,
                    pairs_view(#[trigger] r@[i]@),
                ) && r@[i]@.len() <= each_limit,
    {
        let mut groups: Vec<Vec<KvPair>> = Vec::new();
        let mut i: usize = 0;
        while i < ranges.len()
            invariant
                self.wf(),
                i <= ranges@.len(),
                groups@.len() == i,
                forall|t: int|
                    0 <= t < i ==> scan_answer(
                        self.contents(),
                        Some(cf),
                        ranges@[t]@,
                        each_limit,
                        pairs_view(#[trigger] groups@[t]@),
                    ) && groups@[t]@.len() <= each_limit,
            decreases ranges@.len() - i,
        {
            groups.push(self.read_range(cf, &ranges[i], each_limit));
            i = i + 1;
        }
        groups
    }

    /// Carries out `call` as the store model says, and answers it.
    pub fn execute(&mut self, call: Call) -> (r: Response)
        requires
            old(self).wf(),
        ensures
            final(self).wf(),
            final(self).contents() == after(old(self).contents(), call@),
            answers(old(self).contents(), call@, r),
    {
        let cf = match call.cf {
            Some(c) => c,
            None => ColumnFamily::Default,
        };
        assert(cf == partition_of(call.cf));
        let ghost call_cf = call.cf;
        match call.request {
            Request::Get { key } => Response::Value(self.read(cf, &key)),
            Request::BatchGet { keys } => Response::Pairs(self.read_each(cf, &keys)),
            Request::Put { pair } => {
                self.write(cf, pair.key, pair.value);
                Response::Done
            },
            Request::Update { pair } => {
                self.write(cf, pair.key, pair.value);
                Response::Done
            },
            Request::BatchPut { pairs } => {
                self.write_each(cf, &pairs);
                Response::Done
            },
            Request::BatchUpdate { pairs } => {
                self.write_each(cf, &pairs);
                Response::Done
            },
            Request::Delete { key } => {
                self.erase(cf, &key);
                Response::Done
            },
            Request::BatchDelete { keys } => {
                self.erase_each(cf, &keys);
                Response::Done
            },
            Request::DeleteRange { range } => {
                self.erase_range(cf, &range);
                Response::Done
            },
            Request::Scan { range, limit, key_only } => {
                let ps = self.read_range(cf, &range, limit);
                proof {
                    lemma_full_answer_fits(self.contents@, call_cf, range@, limit, key_only, pairs_view(ps@));
                }
                Response::Pairs(ps)
            },
            Request::BatchScan { ranges, each_limit, key_only } => {
                let gs = self.read_ranges(cf, &ranges, each_limit);
                proof {
                    assert forall|i: int| 0 <= i < gs@.len() implies scan_fits(
                        self.contents@,
                        call_cf,
                        ranges_view(ranges@)[i],
                        each_limit,
                        key_only,
                        pairs_view(#[trigger] gs@[i]@),
                    ) by {
                        lemma_full_answer_fits(self.contents@, call_cf, ranges@[i]@, each_limit, key_only, pairs_view(gs@[i]@));
                    }
                }
                Response::PerRange(gs)
            },
        }
    }
}

} // verus!
