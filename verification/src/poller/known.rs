//! Known-set diffing for the tables that have no timestamp (rewarded
//! quests, held items): each bot's known keys are remembered, and a key not
//! known before is new. A bot's first sighting seeds its set silently.
//!
//! The rows are taken as (bot, key) pairs and handled one bot at a time, the
//! bots in the order of their first row, each bot's rows in row order.

use std::collections::{HashMap, HashSet};
use vstd::prelude::*;

use crate::poller::characters::first_seen;
use crate::poller::{id_sets_view, lemma_lists_keys_empty, lemma_lists_keys_push, lists_keys};

verus! {

broadcast use vstd::std_specs::hash::group_hash_axioms;

pub open spec fn pair_guids(pairs: Seq<(u32, u32)>) -> Seq<u32> {
    pairs.map_values(|p: (u32, u32)| p.0)
}

/// The positions, among the first `n` pairs, of the pairs of bot `g`.
pub open spec fn indices_of(pairs: Seq<(u32, u32)>, g: u32, n: nat) -> Seq<usize>
    decreases n,
{
    if n == 0 {
        seq![]
    } else {
        indices_of(pairs, g, (n - 1) as nat) + if pairs[n - 1].0 == g {
            seq![(n - 1) as usize]
        } else {
            seq![]
        }
    }
}

/// The keys known after the pairs at `idxs`, starting from `known`.
pub open spec fn keys_after(known: Set<u32>, pairs: Seq<(u32, u32)>, idxs: Seq<usize>) -> Set<u32>
    decreases idxs.len(),
{
    if idxs.len() == 0 {
        known
    } else {
        keys_after(known, pairs, idxs.drop_last()).insert(pairs[idxs.last() as int].1)
    }
}

/// The positions among `idxs` whose key is neither in `known` nor at an
/// earlier position of `idxs`.
pub open spec fn fresh_in_group(known: Set<u32>, pairs: Seq<(u32, u32)>, idxs: Seq<usize>) -> Seq<usize>
    decreases idxs.len(),
{
    if idxs.len() == 0 {
        seq![]
    } else {
        fresh_in_group(known, pairs, idxs.drop_last()) + if keys_after(known, pairs, idxs.drop_last()).contains(
            pairs[idxs.last() as int].1,
        ) {
            seq![]
        } else {
            seq![idxs.last()]
        }
    }
}

/// The keys remembered for `g` (none when it has no entry).
pub open spec fn known_of(known: Map<u32, Set<u32>>, g: u32) -> Set<u32> {
    if known.contains_key(g) {
        known[g]
    } else {
        Set::empty()
    }
}

/// The positions to report: for each bot of `order` that was already
/// seeded, the positions of its new keys.
pub open spec fn reported(
    known: Map<u32, Set<u32>>,
    seeded: Set<u32>,
    pairs: Seq<(u32, u32)>,
    order: Seq<u32>,
) -> Seq<usize>
    decreases order.len(),
{
    if order.len() == 0 {
        seq![]
    } else {
        let g = order.last();
        reported(known, seeded, pairs, order.drop_last()) + if seeded.contains(g) {
            fresh_in_group(known_of(known, g), pairs, indices_of(pairs, g, pairs.len()))
        } else {
            seq![]
        }
    }
}

/// The known keys after the bots of `order`: each gets its rows' keys added
/// (and an entry, even if it had none).
pub open spec fn known_after(known: Map<u32, Set<u32>>, pairs: Seq<(u32, u32)>, order: Seq<u32>) -> Map<u32, Set<u32>>
    decreases order.len(),
{
    if order.len() == 0 {
        known
    } else {
        let g = order.last();
        known_after(known, pairs, order.drop_last()).insert(
            g,
            keys_after(known_of(known, g), pairs, indices_of(pairs, g, pairs.len())),
        )
    }
}

/// The positions the diff reports, over all bots of the pairs.
pub open spec fn new_key_positions(known: Map<u32, Set<u32>>, seeded: Set<u32>, pairs: Seq<(u32, u32)>) -> Seq<usize> {
    reported(known, seeded, pairs, first_seen(pair_guids(pairs)))
}

/// The known keys after the diff.
pub open spec fn known_keys_after(known: Map<u32, Set<u32>>, pairs: Seq<(u32, u32)>) -> Map<u32, Set<u32>> {
    known_after(known, pairs, first_seen(pair_guids(pairs)))
}

/// The seeded bots after the diff: every bot of the pairs is seeded.
pub open spec fn seeded_after(seeded: Set<u32>, pairs: Seq<(u32, u32)>) -> Set<u32> {
    seeded.union(pair_guids(pairs).to_set())
}

pub(crate) proof fn lemma_known_after_other(known: Map<u32, Set<u32>>, pairs: Seq<(u32, u32)>, order: Seq<u32>, g: u32)
    requires
        !order.contains(g),
    ensures
        known_after(known, pairs, order).contains_key(g) == known.contains_key(g),
        known.contains_key(g) ==> known_after(known, pairs, order)[g] == known[g],
    decreases order.len(),
{
    if order.len() > 0 {
        assert(order.drop_last().contains(g) ==> order.contains(g));
        lemma_known_after_other(known, pairs, order.drop_last(), g);
    }
}

pub proof fn lemma_first_seen_lists(ids: Seq<u32>)
    ensures
        first_seen(ids).no_duplicates(),
        first_seen(ids).to_set() == ids.to_set(),
    decreases ids.len(),
{
    if ids.len() == 0 {
        assert(ids.to_set() =~= Set::<u32>::empty());
        assert(first_seen(ids).to_set() =~= Set::<u32>::empty());
    } else {
        let earlier = ids.drop_last();
        lemma_first_seen_lists(earlier);
        let x = ids.last();
        assert(ids =~= earlier.push(x));
        assert forall|y: u32| ids.contains(y) <==> earlier.contains(y) || y == x by {
            if ids.contains(y) {
                let k = choose|k: int| 0 <= k < ids.len() && ids[k] == y;
                if k < earlier.len() {
                    assert(earlier[k] == y);
                }
            }
            if earlier.contains(y) {
                let k = choose|k: int| 0 <= k < earlier.len() && earlier[k] == y;
                assert(ids[k] == y);
            }
            assert(ids[ids.len() - 1] == x);
        }
        assert(ids.to_set() =~= earlier.to_set().insert(x));
        if !first_seen(earlier).contains(x) {
            assert(!first_seen(earlier).to_set().contains(x));
            lemma_lists_keys_push(first_seen(earlier), earlier.to_set(), x);
        } else {
            assert(first_seen(earlier).to_set().contains(x));
            assert(earlier.to_set().insert(x) =~= earlier.to_set());
        }
    }
}

/// Diffs the (bot, key) pairs against the known keys: returns the positions
/// of the pairs to report, in the order described above, and records every
/// key and every bot.
pub fn diff_known_keys(
    known: &mut HashMap<u32, HashSet<u32>>,
    seeded: &mut HashSet<u32>,
    pairs: &Vec<(u32, u32)>,
) -> (fresh: Vec<usize>)
    ensures
        fresh@ == new_key_positions(id_sets_view(old(known)@), old(seeded)@, pairs@),
        id_sets_view(final(known)@) == known_keys_after(id_sets_view(old(known)@), pairs@),
        final(seeded)@ == seeded_after(old(seeded)@, pairs@),
        forall|k: int| 0 <= k < fresh@.len() ==> fresh@[k] < pairs@.len(),
{
    let ghost known0 = id_sets_view(known@);
    let ghost seeded0 = seeded@;
    let n = pairs.len();
    // Group the pair positions by bot.
    let mut buckets: HashMap<u32, Vec<usize>> = HashMap::new();
    let mut order: Vec<u32> = Vec::new();
    let mut i: usize = 0;
    proof {
        lemma_lists_keys_empty();
        assert(buckets@.dom() =~= Set::<u32>::empty());
    }
    while i < n
        invariant
            n == pairs.len(),
            0 <= i <= n,
            order@ == first_seen(pair_guids(pairs@.take(i as int))),
            lists_keys(order@, buckets@.dom()),
            forall|g: u32| #[trigger] buckets@.contains_key(g) ==> buckets@[g]@ == indices_of(pairs@, g, i as nat),
            forall|g: u32| !(#[trigger] buckets@.contains_key(g)) ==> indices_of(pairs@, g, i as nat) == Seq::<usize>::empty(),
            forall|g: u32, k: int| #[trigger] buckets@.contains_key(g) && 0 <= k < buckets@[g]@.len() ==> #[trigger] buckets@[g]@[k] < i,
        decreases n - i,
    {
        let g = pairs[i].0;
        let ghost taken = pairs@.take(i + 1);
        proof {
            assert(taken.drop_last() =~= pairs@.take(i as int));
            assert(pair_guids(taken).drop_last() =~= pair_guids(pairs@.take(i as int)));
            assert(pair_guids(taken).last() == g);
        }
        let ghost order_before = order@;
        let ghost dom_before = buckets@.dom();
        let ghost buckets_before = buckets@;
        match buckets.remove(&g) {
            Some(mut bucket) => {
                bucket.push(i);
                buckets.insert(g, bucket);
                proof {
                    assert(order_before.to_set().contains(g));
                    assert(buckets@.dom() =~= dom_before);
                }
            },
            None => {
                let mut bucket: Vec<usize> = Vec::new();
                bucket.push(i);
                buckets.insert(g, bucket);
                order.push(g);
                proof {
                    lemma_lists_keys_push(order_before, dom_before, g);
                    assert(buckets@.dom() =~= dom_before.insert(g));
                    assert(!order_before.to_set().contains(g));
                    assert(!order_before.contains(g));
                }
            },
        }
        proof {
            assert(order@ =~= first_seen(pair_guids(taken)));
            assert forall|h: u32| #[trigger] buckets@.contains_key(h) implies buckets@[h]@ == indices_of(
                pairs@,
                h,
                (i + 1) as nat,
            ) by {
                assert(indices_of(pairs@, h, (i + 1) as nat) == indices_of(pairs@, h, i as nat) + if pairs@[i as int].0
                    == h {
                    seq![i]
                } else {
                    seq![]
                });
                if h == g {
                    assert(buckets@[h]@ =~= indices_of(pairs@, h, (i + 1) as nat));
                } else {
                    assert(buckets@[h] == buckets_before[h]);
                    assert(indices_of(pairs@, h, (i + 1) as nat) =~= indices_of(pairs@, h, i as nat));
                }
            }
            assert forall|h: u32| !(#[trigger] buckets@.contains_key(h)) implies indices_of(pairs@, h, (i + 1) as nat)
                == Seq::<usize>::empty() by {
                assert(h != g);
                assert(indices_of(pairs@, h, (i + 1) as nat) =~= indices_of(pairs@, h, i as nat));
            }
            assert forall|h: u32, k: int| #[trigger] buckets@.contains_key(h) && 0 <= k < buckets@[h]@.len() implies #[trigger] buckets@[h]@[k]
                < i + 1 by {
                if h != g {
                    assert(buckets@[h] == buckets_before[h]);
                } else if k < buckets@[h]@.len() - 1 {
                    assert(buckets_before.contains_key(h));
                    assert(buckets@[h]@[k] == buckets_before[h]@[k]);
                }
            }
        }
        i = i + 1;
    }
    proof {
        assert(pairs@.take(n as int) =~= pairs@);
        lemma_first_seen_lists(pair_guids(pairs@));
    }
    // Diff each bot's keys against what it had.
    let ghost full_order = order@;
    let mut fresh: Vec<usize> = Vec::new();
    let m = order.len();
    let mut j: usize = 0;
    while j < m
        invariant
            n == pairs.len(),
            m == order.len(),
            order@ == full_order,
            0 <= j <= m,
            full_order.no_duplicates(),
            lists_keys(order@, buckets@.dom()),
            forall|g: u32| #[trigger] buckets@.contains_key(g) ==> buckets@[g]@ == indices_of(pairs@, g, n as nat),
            forall|g: u32, k: int| #[trigger] buckets@.contains_key(g) && 0 <= k < buckets@[g]@.len() ==> #[trigger] buckets@[g]@[k] < n,
            fresh@ == reported(known0, seeded0, pairs@, full_order.take(j as int)),
            id_sets_view(known@) == known_after(known0, pairs@, full_order.take(j as int)),
            seeded@ == seeded0.union(full_order.take(j as int).to_set()),
            forall|k: int| 0 <= k < fresh@.len() ==> fresh@[k] < n,
        decreases m - j,
    {
        let g = order[j];
        let ghost done = full_order.take(j as int);
        proof {
            assert(!done.contains(g)) by {
                if done.contains(g) {
                    let k = choose|k: int| 0 <= k < done.len() && done[k] == g;
                    assert(full_order[k] == full_order[j as int]);
                }
            }
            lemma_known_after_other(known0, pairs@, done, g);
            assert(!done.to_set().contains(g));
            assert(order@.to_set().contains(g));
        }
        let first_time = seeded.insert(g);
        proof {
            assert(first_time == !seeded0.contains(g));
        }
        let ghost known_mid = known@;
        let mut set: HashSet<u32> = match known.remove(&g) {
            Some(s) => s,
            None => HashSet::new(),
        };
        proof {
            assert(set@ == known_of(known0, g));
        }
        let bucket: &Vec<usize> = match buckets.get(&g) {
            Some(b) => b,
            None => {
                proof {
                    assert(false);
                }
                return fresh;
            },
        };
        let ghost fresh_before = fresh@;
        let bn = bucket.len();
        let mut t: usize = 0;
        while t < bn
            invariant
                n == pairs.len(),
                bn == bucket.len(),
                bucket@ == indices_of(pairs@, g, n as nat),
                forall|k: int| 0 <= k < bucket@.len() ==> #[trigger] bucket@[k] < n,
                0 <= t <= bn,
                set@ == keys_after(known_of(known0, g), pairs@, bucket@.take(t as int)),
                fresh@ == fresh_before + if !first_time {
                    fresh_in_group(known_of(known0, g), pairs@, bucket@.take(t as int))
                } else {
                    seq![]
                },
                forall|k: int| 0 <= k < fresh@.len() ==> fresh@[k] < n,
            decreases bn - t,
        {
            let idx = bucket[t];
            let key = pairs[idx].1;
            let ghost prefix = bucket@.take(t as int);
            let ghost next = bucket@.take(t + 1);
            proof {
                assert(next.drop_last() =~= prefix);
                assert(next.last() == idx);
            }
            let newly = set.insert(key);
            if newly && !first_time {
                fresh.push(idx);
            }
            proof {
                assert(set@ =~= keys_after(known_of(known0, g), pairs@, next));
                assert(fresh@ =~= fresh_before + if !first_time {
                    fresh_in_group(known_of(known0, g), pairs@, next)
                } else {
                    seq![]
                });
            }
            t = t + 1;
        }
        known.insert(g, set);
        proof {
            assert(bucket@.take(bn as int) =~= bucket@);
            let next = full_order.take(j + 1);
            assert(next.drop_last() =~= done);
            assert(next.last() == g);
            assert(fresh@ =~= reported(known0, seeded0, pairs@, next));
            assert(id_sets_view(known@) =~= known_after(known0, pairs@, next));
            assert(next.to_set() =~= done.to_set().insert(g)) by {
                assert forall|y: u32| next.contains(y) <==> done.contains(y) || y == g by {
                    if next.contains(y) {
                        let k = choose|k: int| 0 <= k < next.len() && next[k] == y;
                        if k < done.len() {
                            assert(done[k] == y);
                        }
                    }
                    if done.contains(y) {
                        let k = choose|k: int| 0 <= k < done.len() && done[k] == y;
                        assert(next[k] == y);
                    }
                    assert(next[j as int] == g);
                }
            }
            assert(seeded@ =~= seeded0.union(next.to_set()));
        }
        j = j + 1;
    }
    proof {
        assert(full_order.take(m as int) =~= full_order);
        assert(seeded@ =~= seeded_after(seeded0, pairs@));
    }
    fresh
}

} // verus!
