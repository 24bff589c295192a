//! Shaping of what the execution layer sends back into what callers see:
//! truncation to a limit, key-only projection, flattening of per-range results.
use vstd::prelude::*;
use crate::error::Error;
use crate::kv::{Key, KvPair};
use crate::request::{keys_view, pairs_view};

verus! {

/// The keys of a sequence of pairs, in the same order.
pub open spec fn keys_of(pairs: Seq<(Seq<u8>, Seq<u8>)>) -> Seq<Seq<u8>> {
    pairs.map_values(|p: (Seq<u8>, Seq<u8>)| p.0)
}

/// The first `limit` elements, or all of them where there are fewer.
pub open spec fn first_n<A>(s: Seq<A>, limit: u32) -> Seq<A> {
    if s.len() <= limit {
        s
    } else {
        s.take(limit as int)
    }
}

/// Keeps the first `limit` pairs and drops the rest.
pub fn truncate_to_limit(pairs: Vec<KvPair>, limit: u32) -> (r: Vec<KvPair>)
    ensures
        r@ == first_n(pairs@, limit),
        r@.len() <= limit,
        pairs_view(r@) == first_n(pairs_view(pairs@), limit),
{
    let ghost before = pairs@;
    let mut pairs = pairs;
    pairs.truncate(limit as usize);
    assert(pairs_view(pairs@) =~= first_n(pairs_view(before), limit));
    pairs
}

/// The keys of `pairs`, in the same order, values dropped.
pub fn project_keys(pairs: &Vec<KvPair>) -> (r: Vec<Key>)
    ensures
        r@.len() == pairs@.len(),
        keys_view(r@) == keys_of(pairs_view(pairs@)),
{
    let mut keys: Vec<Key> = Vec::new();
    let mut i: usize = 0;
    while i < pairs.len()
        invariant
            i <= pairs@.len(),
            keys@.len() == i,
            forall|j: int| 0 <= j < i ==> (#[trigger] keys@[j])@ == pairs@[j].key@,
        decreases pairs@.len() - i,
    {
        keys.push(pairs[i].key.duplicate());
        i = i + 1;
    }
    assert(keys_view(keys@) =~= keys_of(pairs_view(pairs@)));
    keys
}

/// The views of each group of pairs.
pub open spec fn groups_view(groups: Seq<Vec<KvPair>>) -> Seq<Seq<(Seq<u8>, Seq<u8>)>> {
    groups.map_values(|g: Vec<KvPair>| pairs_view(g@))
}

/// The groups of pairs one after another, in order, as one sequence.
pub fn flatten_groups(groups: Vec<Vec<KvPair>>) -> (r: Vec<KvPair>)
    ensures
        pairs_view(r@) == groups_view(groups@).flatten(),
{
    let ghost all = groups_view(groups@);
    let mut groups = groups;
    let mut out: Vec<KvPair> = Vec::new();
    let ghost mut done: int = 0;
    while groups.len() > 0
        invariant
            0 <= done <= all.len(),
            groups_view(groups@) == all.skip(done),
            pairs_view(out@) == all.take(done).flatten_alt(),
        decreases groups@.len(),
    {
        let ghost rest = groups@;
        proof {
            assert(groups_view(rest).len() == rest.len());
            assert(done < all.len());
        }
        let mut g = groups.remove(0);
        proof {
            assert(all.take(done + 1).drop_last() =~= all.take(done));
            assert(all[done] == pairs_view(g@)) by {
                assert(g == rest[0]);
                assert(groups_view(rest)[0] == pairs_view(rest[0]@));
                assert(groups_view(rest)[0] == all.skip(done)[0]);
            }
            assert(groups_view(groups@) =~= all.skip(done + 1)) by {
                assert(groups@ =~= rest.skip(1));
                assert forall|j: int| 0 <= j < groups@.len() implies groups_view(groups@)[j]
                    == all.skip(done + 1)[j] by {
                    assert(groups_view(rest)[j + 1] == all.skip(done)[j + 1]);
                }
            }
        }
        let ghost out_before = out@;
        out.append(&mut g);
        proof {
            assert(pairs_view(out@) =~= pairs_view(out_before) + pairs_view(rest[0]@));
            done = done + 1;
        }
    }
    proof {
        assert(all.take(done) =~= all);
        all.lemma_flatten_and_flatten_alt_are_equivalent();
    }
    out
}

} // verus!

verus! {

/// The outcome of a scan as the caller sees it: the delegate's pairs cut to
/// `limit`, or its error unchanged.
pub fn finish_scan(raw: Result<Vec<KvPair>, Error>, limit: u32) -> (r: Result<Vec<KvPair>, Error>)
    ensures
        raw is Err <==> r is Err,
        r matches Err(e) ==> raw == Err::<Vec<KvPair>, Error>(e),
        r matches Ok(pairs) ==> raw matches Ok(got) && pairs@ == first_n(got@, limit)
            && pairs_view(pairs@) == first_n(pairs_view(got@), limit),
        r matches Ok(pairs) ==> pairs@.len() <= limit,
{
    match raw {
        Ok(pairs) => Ok(truncate_to_limit(pairs, limit)),
        Err(e) => Err(e),
    }
}

/// The outcome of a key-only scan as the caller sees it: the keys of the
/// delegate's pairs cut to `limit`, or its error unchanged.
pub fn finish_scan_keys(raw: Result<Vec<KvPair>, Error>, limit: u32) -> (r: Result<
    Vec<Key>,
    Error,
>)
    ensures
        raw is Err <==> r is Err,
        r matches Err(e) ==> raw == Err::<Vec<KvPair>, Error>(e),
        r matches Ok(keys) ==> raw matches Ok(got) && keys_view(keys@) == keys_of(
            first_n(pairs_view(got@), limit),
        ),
        r matches Ok(keys) ==> keys@.len() <= limit,
{
    match raw {
        Ok(pairs) => {
            let kept = truncate_to_limit(pairs, limit);
            Ok(project_keys(&kept))
        },
        Err(e) => Err(e),
    }
}

/// The outcome of a batch scan as the caller sees it: the pairs of each range
/// one after another, or the delegate's error unchanged. Nothing is cut: a
/// range may give more than the limit asked for.
pub fn finish_batch_scan(raw: Result<Vec<Vec<KvPair>>, Error>) -> (r: Result<Vec<KvPair>, Error>)
    ensures
        raw is Err <==> r is Err,
        r matches Err(e) ==> raw == Err::<Vec<Vec<KvPair>>, Error>(e),
        r matches Ok(pairs) ==> raw matches Ok(got) && pairs_view(pairs@) == groups_view(
            got@,
        ).flatten(),
{
    match raw {
        Ok(groups) => Ok(flatten_groups(groups)),
        Err(e) => Err(e),
    }
}

/// The outcome of a key-only batch scan as the caller sees it: the keys of
/// each range's pairs one after another, or the delegate's error unchanged.
pub fn finish_batch_scan_keys(raw: Result<Vec<Vec<KvPair>>, Error>) -> (r: Result<
    Vec<Key>,
    Error,
>)
    ensures
        raw is Err <==> r is Err,
        r matches Err(e) ==> raw == Err::<Vec<Vec<KvPair>>, Error>(e),
        r matches Ok(keys) ==> raw matches Ok(got) && keys_view(keys@) == keys_of(
            groups_view(got@).flatten(),
        ),
{
    match raw {
        Ok(groups) => {
            let pairs = flatten_groups(groups);
            Ok(project_keys(&pairs))
        },
        Err(e) => Err(e),
    }
}

} // verus!
