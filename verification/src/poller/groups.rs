//! Party tracking: the groups of this tick against those of the last, each
//! group's members kept in ascending guid order.

use std::collections::HashMap;
use vstd::prelude::*;

use crate::db::GroupMemberRow;
use crate::events::{Event, EventView, events_view, strings_view};
use crate::poller::characters::first_seen;
use crate::poller::known::lemma_first_seen_lists;
use crate::poller::{
    character_label, id_lists_view, Keyed, lemma_lists_keys_empty, lemma_lists_keys_push, lists_keys, PollerState,
    PollerView, SnapshotView,
};

verus! {

broadcast use vstd::std_specs::hash::group_hash_axioms;

/// The names of the given characters, each by `character_label`.
pub open spec fn names_of(characters: Map<u32, SnapshotView>, guids: Seq<u32>) -> Seq<Seq<char>> {
    guids.map_values(|g: u32| character_label(characters, g, g as nat))
}

/// Names each character of `guids`: by its remembered name, or
/// "Character #guid".
pub fn resolve_names(guids: &[u32], state: &PollerState) -> (names: Vec<String>)
    ensures
        strings_view(names@) == names_of(state@.characters, guids@),
{
    let mut names: Vec<String> = Vec::new();
    let n = guids.len();
    let mut i: usize = 0;
    while i < n
        invariant
            n == guids@.len(),
            0 <= i <= n,
            strings_view(names@) == names_of(state@.characters, guids@.take(i as int)),
        decreases n - i,
    {
        let g = guids[i];
        let name = state.character_name(g, g as u64);
        let ghost before = names@;
        names.push(name);
        proof {
            assert(name@ == character_label(state@.characters, guids@[i as int], guids@[i as int] as nat));
            assert(strings_view(names@) =~= strings_view(before).push(name@));
            assert(strings_view(names@) =~= names_of(state@.characters, guids@.take(i + 1)));
        }
        i = i + 1;
    }
    proof {
        assert(guids@.take(n as int) =~= guids@);
    }
    names
}

pub open spec fn ascending(s: Seq<u32>) -> bool {
    forall|i: int, j: int| 0 <= i < j < s.len() ==> s[i] <= s[j]
}

/// `slice::sort_unstable` on a `Vec<u32>`: the same ids, ascending.
#[verifier::external_body]
fn sort_ids(ids: &mut Vec<u32>)
    ensures
        final(ids)@.to_multiset() == old(ids)@.to_multiset(),
        ascending(final(ids)@),
{
    ids.sort_unstable()
}

pub open spec fn group_ids(rows: Seq<GroupMemberRow>) -> Seq<u32> {
    rows.map_values(|r: GroupMemberRow| r.guid)
}

/// The members the rows give group `g`, in row order.
pub open spec fn members_in_rows(rows: Seq<GroupMemberRow>, g: u32) -> Seq<u32>
    decreases rows.len(),
{
    if rows.len() == 0 {
        seq![]
    } else {
        members_in_rows(rows.drop_last(), g) + if rows.last().guid == g {
            seq![rows.last().member_guid]
        } else {
            seq![]
        }
    }
}

/// `groups` holds exactly the groups of the rows, each with the rows'
/// members in ascending order.
pub open spec fn groups_of_rows(groups: Map<u32, Seq<u32>>, rows: Seq<GroupMemberRow>) -> bool {
    &&& groups.dom() == group_ids(rows).to_set()
    &&& forall|g: u32| #[trigger] groups.contains_key(g) ==> ascending(groups[g]) && groups[g].to_multiset()
        == members_in_rows(rows, g).to_multiset()
}

/// A `GroupFormed`, in `order`, for each group of `now` that was not
/// remembered.
pub open spec fn formed_events(prev: PollerView, now: Map<u32, Seq<u32>>, order: Seq<u32>) -> Seq<EventView>
    decreases order.len(),
{
    if order.len() == 0 {
        seq![]
    } else {
        let g = order.last();
        formed_events(prev, now, order.drop_last()) + if prev.groups.contains_key(g) {
            seq![]
        } else {
            seq![EventView::GroupFormed { member_names: names_of(prev.characters, now[g]) }]
        }
    }
}

/// A `GroupDisbanded`, in `order`, for each remembered group that `now` no
/// longer holds.
pub open spec fn disbanded_events(prev: PollerView, now: Map<u32, Seq<u32>>, order: Seq<u32>) -> Seq<EventView>
    decreases order.len(),
{
    if order.len() == 0 {
        seq![]
    } else {
        let g = order.last();
        disbanded_events(prev, now, order.drop_last()) + if now.contains_key(g) {
            seq![]
        } else {
            seq![EventView::GroupDisbanded { member_names: names_of(prev.characters, prev.groups[g]) }]
        }
    }
}

/// The group events (from the second tick on): groups formed, in this
/// tick's order, then groups disbanded, in the last tick's order.
pub open spec fn group_events(prev: PollerView, now: Map<u32, Seq<u32>>, now_order: Seq<u32>) -> Seq<EventView> {
    if prev.first_tick {
        seq![]
    } else {
        formed_events(prev, now, now_order) + disbanded_events(prev, now, prev.group_order)
    }
}

impl PollerState {
    /// Diffs the groups against the remembered ones, then remembers the
    /// rows' groups instead.
    pub fn update_groups(&mut self, rows: &Vec<GroupMemberRow>) -> (events: Vec<Event>)
        ensures
            final(self)@.wf(),
            groups_of_rows(final(self)@.groups, rows@),
            final(self)@ == (PollerView {
                groups: final(self)@.groups,
                group_order: first_seen(group_ids(rows@)),
                ..old(self)@
            }),
            events_view(events@) == group_events(old(self)@, final(self)@.groups, first_seen(group_ids(rows@))),
    {
        self.view_is_wf();
        let ghost prev = self@;
        let n = rows.len();
        let mut buckets: HashMap<u32, Vec<u32>> = HashMap::new();
        let mut order: Vec<u32> = Vec::new();
        let mut i: usize = 0;
        proof {
            lemma_lists_keys_empty();
            assert(buckets@.dom() =~= Set::<u32>::empty());
        }
        while i < n
            invariant
                n == rows.len(),
                0 <= i <= n,
                order@ == first_seen(group_ids(rows@.take(i as int))),
                lists_keys(order@, buckets@.dom()),
                forall|g: u32| #[trigger] buckets@.contains_key(g) ==> buckets@[g]@ == members_in_rows(rows@.take(i as int), g),
                forall|g: u32| !(#[trigger] buckets@.contains_key(g)) ==> members_in_rows(rows@.take(i as int), g) == Seq::<u32>::empty(),
            decreases n - i,
        {
            let g = rows[i].guid;
            let member = rows[i].member_guid;
            let ghost taken = rows@.take(i + 1);
            proof {
                assert(taken.drop_last() =~= rows@.take(i as int));
                assert(group_ids(taken).drop_last() =~= group_ids(rows@.take(i as int)));
                assert(group_ids(taken).last() == g);
            }
            let ghost order_before = order@;
            let ghost dom_before = buckets@.dom();
            let ghost buckets_before = buckets@;
            match buckets.remove(&g) {
                Some(mut members) => {
                    members.push(member);
                    buckets.insert(g, members);
                    proof {
                        assert(order_before.to_set().contains(g));
                        assert(buckets@.dom() =~= dom_before);
                    }
                },
                None => {
                    let mut members: Vec<u32> = Vec::new();
                    members.push(member);
                    buckets.insert(g, members);
                    order.push(g);
                    proof {
                        lemma_lists_keys_push(order_before, dom_before, g);
                        assert(buckets@.dom() =~= dom_before.insert(g));
                        assert(!order_before.to_set().contains(g));
                        assert(!order_before.contains(g));
                    }
                },
            }
            proof {
                assert(order@ =~= first_seen(group_ids(taken)));
                assert forall|h: u32| #[trigger] buckets@.contains_key(h) implies buckets@[h]@ == members_in_rows(
                    taken,
                    h,
                ) by {
                    if h == g {
                        assert(buckets@[h]@ =~= members_in_rows(taken, h));
                    } else {
                        assert(buckets@[h] == buckets_before[h]);
                        assert(members_in_rows(taken, h) =~= members_in_rows(rows@.take(i as int), h));
                    }
                }
                assert forall|h: u32| !(#[trigger] buckets@.contains_key(h)) implies members_in_rows(taken, h)
                    == Seq::<u32>::empty() by {
                    assert(members_in_rows(taken, h) =~= members_in_rows(rows@.take(i as int), h));
                }
            }
            i = i + 1;
        }
        proof {
            assert(rows@.take(n as int) =~= rows@);
            lemma_first_seen_lists(group_ids(rows@));
        }
        // Sort each group's members.
        let ghost full_order = order@;
        let m = order.len();
        let mut j: usize = 0;
        while j < m
            invariant
                n == rows.len(),
                m == order.len(),
                order@ == full_order,
                0 <= j <= m,
                full_order.no_duplicates(),
                lists_keys(order@, buckets@.dom()),
                forall|g: u32| #[trigger] buckets@.contains_key(g) ==> buckets@[g]@.to_multiset() == members_in_rows(
                    rows@,
                    g,
                ).to_multiset(),
                forall|g: u32| #[trigger] buckets@.contains_key(g) && full_order.take(j as int).contains(g) ==> ascending(
                    buckets@[g]@,
                ),
            decreases m - j,
        {
            let g = order[j];
            let ghost before = buckets@;
            proof {
                assert(order@.to_set().contains(g));
            }
            match buckets.remove(&g) {
                Some(mut members) => {
                    sort_ids(&mut members);
                    buckets.insert(g, members);
                },
                None => {},
            }
            proof {
                assert(buckets@.dom() =~= before.dom());
                assert forall|h: u32| #[trigger] buckets@.contains_key(h) && full_order.take(j + 1).contains(h) implies ascending(
                    buckets@[h]@,
                ) by {
                    if h != g {
                        let next = full_order.take(j + 1);
                        let k = choose|k: int| 0 <= k < next.len() && #[trigger] next[k] == h;
                        assert(full_order[j as int] == g);
                        assert(k != j);
                        assert(full_order.take(j as int)[k] == h);
                    }
                }
            }
            j = j + 1;
        }
        proof {
            assert(full_order.take(m as int) =~= full_order);
            assert forall|g: u32| #[trigger] buckets@.contains_key(g) implies full_order.contains(g) by {
                assert(order@.to_set().contains(g));
            }
        }
        let ghost now = id_lists_view(buckets@);
        proof {
            assert(now.dom() =~= buckets@.dom());
            assert(groups_of_rows(now, rows@));
        }
        // Narrate the changes.
        let mut events: Vec<Event> = Vec::new();
        if !self.first_tick {
            let mut j: usize = 0;
            while j < m
                invariant
                    m == order.len(),
                    order@ == full_order,
                    0 <= j <= m,
                    self@ == prev,
                    now == id_lists_view(buckets@),
                    lists_keys(order@, buckets@.dom()),
                    events_view(events@) == formed_events(prev, now, full_order.take(j as int)),
                decreases m - j,
            {
                let g = order[j];
                let ghost before = events@;
                proof {
                    assert(order@.to_set().contains(g));
                }
                if !self.groups.map.contains_key(&g) {
                    match buckets.get(&g) {
                        Some(members) => {
                            let names = resolve_names(members.as_slice(), self);
                            let e = Event::GroupFormed { member_names: names };
                            events.push(e);
                            proof {
                                assert(events_view(events@) =~= events_view(before).push(e@));
                            }
                        },
                        None => {},
                    }
                }
                proof {
                    let next = full_order.take(j + 1);
                    assert(next.drop_last() =~= full_order.take(j as int));
                    assert(events_view(events@) =~= formed_events(prev, now, next));
                }
                j = j + 1;
            }
            proof {
                assert(full_order.take(m as int) =~= full_order);
            }
            let ghost formed = events_view(events@);
            let k = self.groups.order.len();
            let mut j: usize = 0;
            while j < k
                invariant
                    k == self.groups.order.len(),
                    0 <= j <= k,
                    self@ == prev,
                    prev.wf(),
                    now == id_lists_view(buckets@),
                    events_view(events@) == formed + disbanded_events(prev, now, prev.group_order.take(j as int)),
                decreases k - j,
            {
                let g = self.groups.order[j];
                let ghost before = events@;
                proof {
                    assert(prev.group_order.to_set().contains(g));
                    assert(self.groups.map@.dom().contains(g));
                }
                if !buckets.contains_key(&g) {
                    match self.groups.map.get(&g) {
                        Some(members) => {
                            let names = resolve_names(members.as_slice(), self);
                            let e = Event::GroupDisbanded { member_names: names };
                            events.push(e);
                            proof {
                                assert(events_view(events@) =~= events_view(before).push(e@));
                            }
                        },
                        None => {},
                    }
                }
                proof {
                    let next = prev.group_order.take(j + 1);
                    assert(next.drop_last() =~= prev.group_order.take(j as int));
                    assert(events_view(events@) =~= formed + disbanded_events(prev, now, next));
                }
                j = j + 1;
            }
            proof {
                assert(prev.group_order.take(k as int) =~= prev.group_order);
            }
        }
        self.groups = Keyed { map: buckets, order };
        proof {
            assert(events_view(events@) =~= group_events(prev, now, full_order));
            assert(self@ =~= (PollerView { groups: now, group_order: full_order, ..prev }));
        }
        events
    }
}

} // verus!
