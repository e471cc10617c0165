//! The indexed-array bridge.
//!
//! The host stores an indexed array as a circular doubly linked ring of
//! elements hanging off a sentinel node; enumeration starts after the
//! sentinel and ends when the sentinel recurs. Which field of the array
//! record names the sentinel differs between two host release lines:
//! [`SentinelField`] selects the matching field, chosen once per process
//! from the host's version string (see [`crate::variables`]).
//!
//! [`ArrayRing`] is the image of such a ring as plain values: a node
//! arena plus the two candidate sentinel fields. [`array_items`] is the
//! enumeration; [`ArrayRing::from_pairs`] builds a canonical image whose
//! enumeration is the given pairs under either convention.

use vstd::prelude::*;

verus! {

/// Which field of the host's array record names the ring's sentinel.
#[derive(Debug, Clone, Copy, PartialEq, Eq, Structural)]
pub enum SentinelField {
    /// The ring hangs off the record's head field.
    HeadField,
    /// The ring hangs off the record's last-reference field.
    LastrefField,
}

/// One element of the ring: its integer index, its value, and the arena
/// positions of its neighbours.
#[derive(Debug)]
pub struct ArrayNode {
    /// The element's index within the shell array.
    pub index: i64,
    /// The element's value.
    pub value: Vec<u8>,
    /// Arena position of the next element in the ring.
    pub next: usize,
    /// Arena position of the previous element in the ring.
    pub prev: usize,
}

/// The image of a host array record: the node arena and the record's
/// two candidate sentinel fields, plus the stored element count, a size
/// hint not trusted by the enumeration.
#[derive(Debug)]
pub struct ArrayRing {
    /// The nodes of the ring, sentinel included.
    pub nodes: Vec<ArrayNode>,
    /// What the record's head field points at.
    pub head: usize,
    /// What the record's last-reference field points at.
    pub lastref: usize,
    /// The element count stored in the record.
    pub num_elements: usize,
}

/// The arena position the chosen sentinel field names.
pub open spec fn sentinel_of(ring: ArrayRing, field: SentinelField) -> int {
    match field {
        SentinelField::HeadField => ring.head as int,
        SentinelField::LastrefField => ring.lastref as int,
    }
}

/// The pairs yielded by following next pointers from `cur` until the
/// sentinel recurs, a pointer leaves the arena, or the fuel runs out.
pub open spec fn ring_walk(nodes: Seq<ArrayNode>, sentinel: int, cur: int, fuel: nat) -> Seq<
    (i64, Seq<u8>),
>
    decreases fuel,
{
    if fuel == 0 || cur == sentinel || !(0 <= cur < nodes.len()) {
        Seq::empty()
    } else {
        seq![(nodes[cur].index, nodes[cur].value@)] + ring_walk(
            nodes,
            sentinel,
            nodes[cur].next as int,
            (fuel - 1) as nat,
        )
    }
}

/// The enumeration of a ring image under the chosen convention: all
/// pairs from the node after the sentinel until the sentinel recurs,
/// with the arena size as the fuel bound.
pub open spec fn items_of(ring: ArrayRing, field: SentinelField) -> Seq<(i64, Seq<u8>)> {
    let s = sentinel_of(ring, field);
    if 0 <= s < ring.nodes@.len() {
        ring_walk(ring.nodes@, s, ring.nodes@[s].next as int, ring.nodes@.len() as nat)
    } else {
        Seq::empty()
    }
}

/// The view of an index-value pair list.
pub open spec fn pairs_view(p: Seq<(i64, Vec<u8>)>) -> Seq<(i64, Seq<u8>)> {
    Seq::new(p.len(), |i: int| (p[i].0, p[i].1@))
}

/// Enumerates the elements of a ring image: each element's index and
/// value, in ring order, until the sentinel recurs.
pub fn array_items(ring: &ArrayRing, field: SentinelField) -> (r: Vec<(i64, Vec<u8>)>)
    ensures
        pairs_view(r@) == items_of(*ring, field),
{
    let n = ring.nodes.len();
    let s = match field {
        SentinelField::HeadField => ring.head,
        SentinelField::LastrefField => ring.lastref,
    };
    let mut out: Vec<(i64, Vec<u8>)> = Vec::new();
    if s >= n {
        proof {
            assert(pairs_view(out@) =~= items_of(*ring, field));
        }
        return out;
    }
    let mut cur = ring.nodes[s].next;
    let mut fuel = n;
    while fuel > 0 && cur != s && cur < n
        invariant
            fuel <= n,
            n == ring.nodes@.len(),
            s < n,
            pairs_view(out@) + ring_walk(ring.nodes@, s as int, cur as int, fuel as nat)
                =~= items_of(*ring, field),
        decreases fuel,
    {
        let index = ring.nodes[cur].index;
        let value = ring.nodes[cur].value.clone();
        let next = ring.nodes[cur].next;
        proof {
            assert(value@ == ring.nodes@[cur as int].value@);
        }
        let ghost pre = out@;
        out.push((index, value));
        proof {
            assert(pairs_view(out@) =~= pairs_view(pre).push(
                (ring.nodes@[cur as int].index, ring.nodes@[cur as int].value@),
            ));
            assert(pairs_view(pre).push((ring.nodes@[cur as int].index, ring.nodes@[cur as int].value@))
                + ring_walk(ring.nodes@, s as int, next as int, (fuel - 1) as nat) =~= pairs_view(
                pre,
            ) + ring_walk(ring.nodes@, s as int, cur as int, fuel as nat));
        }
        cur = next;
        fuel -= 1;
    }
    proof {
        assert(ring_walk(ring.nodes@, s as int, cur as int, fuel as nat) =~= Seq::<
            (i64, Seq<u8>),
        >::empty());
        assert(pairs_view(out@) =~= pairs_view(out@) + Seq::<(i64, Seq<u8>)>::empty());
    }
    out
}

/// In a canonical arena (sentinel at position zero, elements chained in
/// arena order, the last one closing the ring), the walk from position
/// `p` yields exactly the elements from `p` on.
proof fn lemma_canonical_walk(nodes: Seq<ArrayNode>, p: int, fuel: nat)
    requires
        nodes.len() >= 1,
        forall|i: int|
            1 <= i < nodes.len() ==> (#[trigger] nodes[i].next) == if i + 1 < nodes.len() {
                i + 1
            } else {
                0
            },
        1 <= p < nodes.len(),
        fuel >= nodes.len() - p,
    ensures
        ring_walk(nodes, 0, p, fuel) =~= Seq::new(
            (nodes.len() - p) as nat,
            |j: int| (nodes[p + j].index, nodes[p + j].value@),
        ),
    decreases nodes.len() - p,
{
    if p + 1 < nodes.len() {
        lemma_canonical_walk(nodes, p + 1, (fuel - 1) as nat);
        assert(ring_walk(nodes, 0, p, fuel) =~= seq![(nodes[p].index, nodes[p].value@)]
            + ring_walk(nodes, 0, p + 1, (fuel - 1) as nat));
    } else {
        assert(ring_walk(nodes, 0, nodes[p].next as int, (fuel - 1) as nat) =~= Seq::<
            (i64, Seq<u8>),
        >::empty());
    }
}

impl ArrayRing {
    /// Builds a canonical ring image holding the given pairs, in order.
    /// Both the head field and the last-reference field name its
    /// sentinel, so enumeration yields the pairs under either
    /// convention.
    pub fn from_pairs(pairs: Vec<(i64, Vec<u8>)>) -> (r: ArrayRing)
        ensures
            items_of(r, SentinelField::HeadField) == pairs_view(pairs@),
            items_of(r, SentinelField::LastrefField) == pairs_view(pairs@),
            r.num_elements == pairs@.len(),
    {
        let n = pairs.len();
        let mut nodes: Vec<ArrayNode> = Vec::new();
        let sentinel = ArrayNode {
            index: 0,
            value: Vec::new(),
            next: if n > 0 {
                1
            } else {
                0
            },
            prev: if n > 0 {
                n
            } else {
                0
            },
        };
        nodes.push(sentinel);
        let mut i: usize = 0;
        while i < n
            invariant
                i <= n,
                n == pairs@.len(),
                nodes@.len() == i + 1,
                nodes@[0].next == if n > 0 {
                    1int
                } else {
                    0int
                },
                forall|k: int|
                    1 <= k < nodes@.len() ==> (#[trigger] nodes@[k]).index == pairs@[k - 1].0
                        && nodes@[k].value@ == pairs@[k - 1].1@ && nodes@[k].next == if k < n {
                        (k + 1) as usize
                    } else {
                        0usize
                    },
            decreases n - i,
        {
            let value = pairs[i].1.clone();
            proof {
                assert(value@ == pairs@[i as int].1@);
            }
            let node = ArrayNode {
                index: pairs[i].0,
                value,
                next: if i + 1 < n {
                    i + 2
                } else {
                    0
                },
                prev: i,
            };
            nodes.push(node);
            i += 1;
        }
        let r = ArrayRing { nodes, head: 0, lastref: 0, num_elements: n };
        proof {
            if n > 0 {
                lemma_canonical_walk(r.nodes@, 1, r.nodes@.len() as nat);
                assert(items_of(r, SentinelField::HeadField) =~= pairs_view(pairs@));
            } else {
                assert(items_of(r, SentinelField::HeadField) =~= pairs_view(pairs@));
            }
            assert(items_of(r, SentinelField::LastrefField) == items_of(
                r,
                SentinelField::HeadField,
            ));
        }
        r
    }
}

/// The pair list after storing `value` at `index`: an existing pair
/// with that index is replaced in place; otherwise the new pair stands
/// before the first pair with a larger index, which keeps an
/// index-sorted list sorted however the elements arrived.
pub open spec fn upsert_pairs(p: Seq<(i64, Seq<u8>)>, index: i64, value: Seq<u8>) -> Seq<
    (i64, Seq<u8>),
>
    decreases p.len(),
{
    if p.len() == 0 {
        seq![(index, value)]
    } else if p[0].0 == index {
        seq![(index, value)] + p.skip(1)
    } else if p[0].0 > index {
        seq![(index, value)] + p
    } else {
        seq![p[0]] + upsert_pairs(p.skip(1), index, value)
    }
}

/// Splits an upsert at a scan position that only saw smaller indices.
proof fn lemma_upsert_split(p: Seq<(i64, Seq<u8>)>, index: i64, value: Seq<u8>, i: int)
    requires
        0 <= i <= p.len(),
        forall|k: int| 0 <= k < i ==> (#[trigger] p[k]).0 < index,
    ensures
        upsert_pairs(p, index, value) =~= p.subrange(0, i) + upsert_pairs(
            p.skip(i),
            index,
            value,
        ),
    decreases i,
{
    if i > 0 {
        lemma_upsert_split(p.skip(1), index, value, i - 1);
        assert(p.skip(1).subrange(0, i - 1) =~= p.subrange(1, i));
        assert(p.skip(1).skip(i - 1) =~= p.skip(i));
        assert(upsert_pairs(p, index, value) =~= seq![p[0]] + upsert_pairs(
            p.skip(1),
            index,
            value,
        ));
        assert(seq![p[0]] + (p.subrange(1, i) + upsert_pairs(p.skip(i), index, value)) =~= p
            .subrange(0, i) + upsert_pairs(p.skip(i), index, value));
    } else {
        assert(p.skip(0) =~= p);
        assert(p.subrange(0, 0) + upsert_pairs(p, index, value) =~= upsert_pairs(
            p,
            index,
            value,
        ));
    }
}

/// True if the pair indices strictly increase.
pub open spec fn pairs_sorted(p: Seq<(i64, Seq<u8>)>) -> bool {
    forall|i: int, j: int| 0 <= i < j < p.len() ==> (#[trigger] p[i]).0 < (#[trigger] p[j]).0
}

/// Storing at any index keeps an index-sorted pair list sorted: however
/// elements arrive, enumeration stays in index order.
pub proof fn lemma_upsert_sorted(p: Seq<(i64, Seq<u8>)>, index: i64, value: Seq<u8>)
    requires
        pairs_sorted(p),
    ensures
        pairs_sorted(upsert_pairs(p, index, value)),
    decreases p.len(),
{
    if p.len() == 0 {
    } else if p[0].0 == index {
        assert(forall|k: int| 0 <= k < p.skip(1).len() ==> (#[trigger] p.skip(1)[k]) == p[k + 1]);
    } else if p[0].0 > index {
    } else {
        assert(forall|k: int| 0 <= k < p.skip(1).len() ==> (#[trigger] p.skip(1)[k]) == p[k + 1]);
        lemma_upsert_sorted(p.skip(1), index, value);
        lemma_upsert_lower_bound(p.skip(1), index, value, p[0].0);
    }
}

/// An index bound below every pair and below the stored index is below
/// every pair of the upserted list.
proof fn lemma_upsert_lower_bound(p: Seq<(i64, Seq<u8>)>, index: i64, value: Seq<u8>, lo: i64)
    requires
        forall|k: int| 0 <= k < p.len() ==> lo < (#[trigger] p[k]).0,
        lo < index,
    ensures
        forall|k: int|
            0 <= k < upsert_pairs(p, index, value).len() ==> lo < (#[trigger] upsert_pairs(
                p,
                index,
                value,
            )[k]).0,
    decreases p.len(),
{
    if p.len() == 0 {
    } else if p[0].0 == index {
        assert(forall|k: int| 0 <= k < p.skip(1).len() ==> (#[trigger] p.skip(1)[k]) == p[k + 1]);
    } else if p[0].0 > index {
    } else {
        assert(forall|k: int| 0 <= k < p.skip(1).len() ==> (#[trigger] p.skip(1)[k]) == p[k + 1]);
        lemma_upsert_lower_bound(p.skip(1), index, value, lo);
        let u = upsert_pairs(p, index, value);
        let v = upsert_pairs(p.skip(1), index, value);
        assert(u == seq![p[0]] + v);
        assert forall|k: int| 0 <= k < u.len() implies lo < (#[trigger] u[k]).0 by {
            if k == 0 {
                assert(u[0] == p[0]);
            } else {
                assert(u[k] == v[k - 1]);
            }
        }
    }
}

/// Stores `value` at `index` in a pair list, replacing an existing pair
/// with that index or inserting before the first larger index.
pub fn upsert(pairs: &mut Vec<(i64, Vec<u8>)>, index: i64, value: Vec<u8>)
    ensures
        pairs_view(final(pairs)@) == upsert_pairs(pairs_view(old(pairs)@), index, value@),
{
    let ghost pv = pairs_view(pairs@);
    let n = pairs.len();
    let mut i: usize = 0;
    while i < n
        invariant
            i <= n,
            n == pairs@.len(),
            pv == pairs_view(pairs@),
            pv == pairs_view(old(pairs)@),
            forall|k: int| 0 <= k < i ==> (#[trigger] pv[k]).0 < index,
        decreases n - i,
    {
        let here = pairs[i].0;
        if here == index {
            proof {
                lemma_upsert_split(pv, index, value@, i as int);
                assert(pv.skip(i as int)[0].0 == index);
                assert(upsert_pairs(pv.skip(i as int), index, value@) == seq![(index, value@)]
                    + pv.skip(i as int).skip(1));
            }
            pairs.set(i, (index, value));
            proof {
                assert(pairs_view(pairs@) =~= pv.subrange(0, i as int) + (seq![
                    (index, value@),
                ] + pv.skip(i as int).skip(1)));
                assert(pairs_view(pairs@) =~= upsert_pairs(pv, index, value@));
            }
            return ;
        }
        if here > index {
            proof {
                lemma_upsert_split(pv, index, value@, i as int);
                assert(pv.skip(i as int)[0].0 > index);
                assert(upsert_pairs(pv.skip(i as int), index, value@) == seq![(index, value@)]
                    + pv.skip(i as int));
            }
            pairs.insert(i, (index, value));
            proof {
                assert(pairs_view(pairs@) =~= pv.subrange(0, i as int) + (seq![(index, value@)]
                    + pv.skip(i as int)));
                assert(pairs_view(pairs@) =~= upsert_pairs(pv, index, value@));
            }
            return ;
        }
        i += 1;
    }
    proof {
        lemma_upsert_split(pv, index, value@, n as int);
        assert(pv.skip(n as int) =~= Seq::<(i64, Seq<u8>)>::empty());
        assert(upsert_pairs(pv.skip(n as int), index, value@) =~= seq![(index, value@)]);
    }
    pairs.push((index, value));
    proof {
        assert(pairs_view(pairs@) =~= pv.subrange(0, n as int) + seq![(index, value@)]);
        assert(pv.subrange(0, n as int) =~= pv);
        assert(pairs_view(pairs@) =~= upsert_pairs(pv, index, value@));
    }
}

/// The value of the first pair with the given index, if any.
pub open spec fn pair_lookup(p: Seq<(i64, Seq<u8>)>, index: i64) -> Option<Seq<u8>>
    decreases p.len(),
{
    if p.len() == 0 {
        Option::None
    } else if p[0].0 == index {
        Option::Some(p[0].1)
    } else {
        pair_lookup(p.skip(1), index)
    }
}

/// Finds the value stored at `index` in a pair list.
pub fn pair_get(pairs: &Vec<(i64, Vec<u8>)>, index: i64) -> (r: Option<Vec<u8>>)
    ensures
        match r {
            Option::Some(v) => pair_lookup(pairs_view(pairs@), index) == Option::Some(v@),
            Option::None => pair_lookup(pairs_view(pairs@), index) is None,
        },
{
    let ghost pv = pairs_view(pairs@);
    let n = pairs.len();
    let mut i: usize = 0;
    proof {
        assert(pv.skip(0) =~= pv);
    }
    while i < n
        invariant
            i <= n,
            n == pairs@.len(),
            pv == pairs_view(pairs@),
            pair_lookup(pv, index) == pair_lookup(pv.skip(i as int), index),
        decreases n - i,
    {
        proof {
            assert(pv.skip(i as int).skip(1) =~= pv.skip(i + 1));
        }
        if pairs[i].0 == index {
            let v = pairs[i].1.clone();
            proof {
                assert(v@ == pv.skip(i as int)[0].1);
            }
            return Option::Some(v);
        }
        i += 1;
    }
    proof {
        assert(pv.skip(n as int) =~= Seq::<(i64, Seq<u8>)>::empty());
    }
    Option::None
}

} // verus!
