//! The associative-array bridge.
//!
//! The host stores an associative array as a fixed-size bucket array,
//! each bucket a singly linked chain of key-value pairs. [`BucketTable`]
//! is the image of such a table as plain values; [`assoc_items`] walks
//! it in bucket-then-chain order, which is the enumeration order the
//! host exposes.
//!
//! Lookup by key mirrors the host's comparison of C strings, which
//! compares only the first key-length bytes: a stored pair matches when
//! the searched key is a prefix of its key.

use vstd::prelude::*;

use crate::convert::bytes_eq;
use crate::convert::is_prefix_of;
use crate::convert::starts_with;

verus! {

/// The view of a key-value pair list.
pub open spec fn kv_view(p: Seq<(Vec<u8>, Vec<u8>)>) -> Seq<(Seq<u8>, Seq<u8>)> {
    Seq::new(p.len(), |i: int| (p[i].0@, p[i].1@))
}

/// The image of a host hash-table record: the bucket array, each bucket
/// its chain of key-value pairs in chain order.
#[derive(Debug)]
pub struct BucketTable {
    /// The buckets, each a chain of key-value pairs.
    pub buckets: Vec<Vec<(Vec<u8>, Vec<u8>)>>,
}

/// The view of a bucket table: the chains of its buckets, in order.
pub open spec fn buckets_view(t: BucketTable) -> Seq<Seq<(Seq<u8>, Seq<u8>)>> {
    Seq::new(t.buckets@.len(), |i: int| kv_view(t.buckets@[i]@))
}

/// All pairs of a bucket sequence in bucket-then-chain order.
pub open spec fn table_walk(buckets: Seq<Seq<(Seq<u8>, Seq<u8>)>>) -> Seq<(Seq<u8>, Seq<u8>)>
    decreases buckets.len(),
{
    if buckets.len() == 0 {
        Seq::empty()
    } else {
        table_walk(buckets.drop_last()) + buckets.last()
    }
}

/// Enumerates all pairs of a table image, in bucket-then-chain order.
pub fn assoc_items(table: &BucketTable) -> (r: Vec<(Vec<u8>, Vec<u8>)>)
    ensures
        kv_view(r@) == table_walk(buckets_view(*table)),
{
    let nb = table.buckets.len();
    let mut out: Vec<(Vec<u8>, Vec<u8>)> = Vec::new();
    let mut i: usize = 0;
    proof {
        assert(buckets_view(*table).subrange(0, 0) =~= Seq::<Seq<(Seq<u8>, Seq<u8>)>>::empty());
        assert(kv_view(out@) =~= table_walk(buckets_view(*table).subrange(0, 0)));
    }
    while i < nb
        invariant
            i <= nb,
            nb == table.buckets@.len(),
            kv_view(out@) == table_walk(buckets_view(*table).subrange(0, i as int)),
        decreases nb - i,
    {
        let m = table.buckets[i].len();
        let mut j: usize = 0;
        while j < m
            invariant
                j <= m,
                i < nb,
                nb == table.buckets@.len(),
                m == table.buckets@[i as int]@.len(),
                kv_view(out@) == table_walk(buckets_view(*table).subrange(0, i as int)) + kv_view(
                    table.buckets@[i as int]@,
                ).subrange(0, j as int),
            decreases m - j,
        {
            let key = table.buckets[i][j].0.clone();
            let value = table.buckets[i][j].1.clone();
            proof {
                assert(key@ == table.buckets@[i as int]@[j as int].0@);
                assert(value@ == table.buckets@[i as int]@[j as int].1@);
            }
            let ghost pre = out@;
            out.push((key, value));
            proof {
                assert(kv_view(out@) =~= kv_view(pre).push(
                    kv_view(table.buckets@[i as int]@)[j as int],
                ));
                assert(kv_view(pre).push(kv_view(table.buckets@[i as int]@)[j as int])
                    =~= table_walk(buckets_view(*table).subrange(0, i as int)) + kv_view(
                    table.buckets@[i as int]@,
                ).subrange(0, j + 1));
            }
            j += 1;
        }
        proof {
            let bv = buckets_view(*table);
            assert(bv.subrange(0, i + 1).drop_last() =~= bv.subrange(0, i as int));
            assert(bv.subrange(0, i + 1).last() == kv_view(table.buckets@[i as int]@));
            assert(kv_view(table.buckets@[i as int]@).subrange(0, m as int) =~= kv_view(
                table.buckets@[i as int]@,
            ));
            assert(kv_view(out@) =~= table_walk(bv.subrange(0, i + 1)));
        }
        i += 1;
    }
    proof {
        assert(buckets_view(*table).subrange(0, nb as int) =~= buckets_view(*table));
    }
    out
}

impl BucketTable {
    /// Builds a canonical one-bucket image whose walk is the given
    /// pairs, in order.
    pub fn from_items(items: Vec<(Vec<u8>, Vec<u8>)>) -> (r: BucketTable)
        ensures
            table_walk(buckets_view(r)) == kv_view(items@),
    {
        let ghost iv = kv_view(items@);
        let mut buckets: Vec<Vec<(Vec<u8>, Vec<u8>)>> = Vec::new();
        buckets.push(items);
        let r = BucketTable { buckets };
        proof {
            let bv = buckets_view(r);
            assert(bv.len() == 1);
            assert(bv.last() =~= iv);
            assert(bv.drop_last() =~= Seq::<Seq<(Seq<u8>, Seq<u8>)>>::empty());
            assert(table_walk(bv.drop_last()) =~= Seq::<(Seq<u8>, Seq<u8>)>::empty());
            assert(table_walk(bv) =~= iv);
        }
        r
    }
}

/// The value of the first pair whose key the searched key is a prefix
/// of, mirroring the host's C-string comparison.
pub open spec fn assoc_find(items: Seq<(Seq<u8>, Seq<u8>)>, key: Seq<u8>) -> Option<Seq<u8>>
    decreases items.len(),
{
    if items.len() == 0 {
        Option::None
    } else if is_prefix_of(key, items[0].0) {
        Option::Some(items[0].1)
    } else {
        assoc_find(items.skip(1), key)
    }
}

/// Finds the value for a key in an enumerated pair list, by the host's
/// prefix comparison.
pub fn find_prefix(items: &Vec<(Vec<u8>, Vec<u8>)>, key: &Vec<u8>) -> (r: Option<Vec<u8>>)
    ensures
        match r {
            Option::Some(v) => assoc_find(kv_view(items@), key@) == Option::Some(v@),
            Option::None => assoc_find(kv_view(items@), key@) is None,
        },
{
    let ghost iv = kv_view(items@);
    let n = items.len();
    let mut i: usize = 0;
    proof {
        assert(iv.skip(0) =~= iv);
    }
    while i < n
        invariant
            i <= n,
            n == items@.len(),
            iv == kv_view(items@),
            assoc_find(iv, key@) == assoc_find(iv.skip(i as int), key@),
        decreases n - i,
    {
        proof {
            assert(iv.skip(i as int).skip(1) =~= iv.skip(i + 1));
        }
        if starts_with(&items[i].0, key) {
            let v = items[i].1.clone();
            proof {
                assert(v@ == iv.skip(i as int)[0].1);
            }
            return Option::Some(v);
        }
        i += 1;
    }
    proof {
        assert(iv.skip(n as int) =~= Seq::<(Seq<u8>, Seq<u8>)>::empty());
    }
    Option::None
}

/// The pair list after storing `value` under `key`: the first pair with
/// exactly that key is replaced in place; a new key's pair stands at
/// the end of the enumeration.
pub open spec fn assoc_upsert_items(items: Seq<(Seq<u8>, Seq<u8>)>, key: Seq<u8>, value: Seq<
    u8,
>) -> Seq<(Seq<u8>, Seq<u8>)>
    decreases items.len(),
{
    if items.len() == 0 {
        seq![(key, value)]
    } else if items[0].0 == key {
        seq![(key, value)] + items.skip(1)
    } else {
        seq![items[0]] + assoc_upsert_items(items.skip(1), key, value)
    }
}

/// Splits an upsert at a scan position where no key matched yet.
proof fn lemma_assoc_upsert_split(items: Seq<(Seq<u8>, Seq<u8>)>, key: Seq<u8>, value: Seq<u8>, i: int)
    requires
        0 <= i <= items.len(),
        forall|k: int| 0 <= k < i ==> (#[trigger] items[k]).0 != key,
    ensures
        assoc_upsert_items(items, key, value) =~= items.subrange(0, i) + assoc_upsert_items(
            items.skip(i),
            key,
            value,
        ),
    decreases i,
{
    if i > 0 {
        lemma_assoc_upsert_split(items.skip(1), key, value, i - 1);
        assert(items.skip(1).subrange(0, i - 1) =~= items.subrange(1, i));
        assert(items.skip(1).skip(i - 1) =~= items.skip(i));
        assert(assoc_upsert_items(items, key, value) =~= seq![items[0]] + assoc_upsert_items(
            items.skip(1),
            key,
            value,
        ));
        assert(seq![items[0]] + (items.subrange(1, i) + assoc_upsert_items(
            items.skip(i),
            key,
            value,
        )) =~= items.subrange(0, i) + assoc_upsert_items(items.skip(i), key, value));
    } else {
        assert(items.skip(0) =~= items);
        assert(items.subrange(0, 0) + assoc_upsert_items(items, key, value)
            =~= assoc_upsert_items(items, key, value));
    }
}

/// Stores `value` under `key` in an enumerated pair list: the first
/// pair with exactly that key is replaced, or a new pair is appended.
pub fn assoc_upsert(items: &mut Vec<(Vec<u8>, Vec<u8>)>, key: Vec<u8>, value: Vec<u8>)
    ensures
        kv_view(final(items)@) == assoc_upsert_items(kv_view(old(items)@), key@, value@),
{
    let ghost iv = kv_view(items@);
    let n = items.len();
    let mut i: usize = 0;
    while i < n
        invariant
            i <= n,
            n == items@.len(),
            iv == kv_view(items@),
            iv == kv_view(old(items)@),
            forall|k: int| 0 <= k < i ==> (#[trigger] iv[k]).0 != key@,
        decreases n - i,
    {
        if bytes_eq(&items[i].0, &key) {
            proof {
                lemma_assoc_upsert_split(iv, key@, value@, i as int);
                assert(iv.skip(i as int)[0].0 == key@);
                assert(assoc_upsert_items(iv.skip(i as int), key@, value@) == seq![(key@, value@)]
                    + iv.skip(i as int).skip(1));
            }
            items.set(i, (key, value));
            proof {
                assert(kv_view(items@) =~= iv.subrange(0, i as int) + (seq![(key@, value@)]
                    + iv.skip(i as int).skip(1)));
                assert(kv_view(items@) =~= assoc_upsert_items(iv, key@, value@));
            }
            return ;
        }
        i += 1;
    }
    proof {
        lemma_assoc_upsert_split(iv, key@, value@, n as int);
        assert(iv.skip(n as int) =~= Seq::<(Seq<u8>, Seq<u8>)>::empty());
        assert(assoc_upsert_items(iv.skip(n as int), key@, value@) =~= seq![(key@, value@)]);
    }
    items.push((key, value));
    proof {
        assert(kv_view(items@) =~= iv.subrange(0, n as int) + seq![(key@, value@)]);
        assert(iv.subrange(0, n as int) =~= iv);
        assert(kv_view(items@) =~= assoc_upsert_items(iv, key@, value@));
    }
}

} // verus!
