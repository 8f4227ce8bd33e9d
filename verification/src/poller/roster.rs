//! The full online roster sent every tick, and the end of a tick.

use std::collections::HashMap;
use vstd::prelude::*;

use crate::character_info::{class_label, class_name, race_label, race_name};
use crate::events::{roster_view, RosterEntry, RosterEntryView};
use crate::names::{NameTables, NameTablesView};
use crate::poller::{PollerState, PollerView};

verus! {

broadcast use vstd::std_specs::hash::group_hash_axioms;

/// The group a character is drawn in: the last group of `order` whose
/// members include it, if any.
pub open spec fn member_group(groups: Map<u32, Seq<u32>>, order: Seq<u32>, guid: u32) -> Option<u32>
    decreases order.len(),
{
    if order.len() == 0 {
        None
    } else if groups[order.last()].contains(guid) {
        Some(order.last())
    } else {
        member_group(groups, order.drop_last(), guid)
    }
}

/// A map's entry for `k`, if it has one.
pub open spec fn entry_of(m: Map<u32, u32>, k: u32) -> Option<u32> {
    if m.contains_key(k) {
        Some(m[k])
    } else {
        None
    }
}

/// The roster entry of a remembered character.
pub open spec fn roster_entry(state: PollerView, names: NameTablesView, guid: u32) -> RosterEntryView {
    let c = state.characters[guid];
    RosterEntryView {
        guid: guid,
        name: c.name,
        race: race_label(c.race),
        class: class_label(c.class),
        level: c.level,
        zone_name: names.zone_label(c.zone as u32),
        group_id: member_group(state.groups, state.group_order, guid),
        map: c.map,
        map_name: names.map_label(c.map as u32),
        position_x_bits: c.position_x_bits,
        position_y_bits: c.position_y_bits,
    }
}

/// The roster entries of the characters at `guids`.
pub open spec fn roster_entries(state: PollerView, names: NameTablesView, guids: Seq<u32>) -> Seq<RosterEntryView> {
    guids.map_values(|g: u32| roster_entry(state, names, g))
}

/// The roster: one entry per remembered character, in snapshot order.
pub open spec fn roster(state: PollerView, names: NameTablesView) -> Seq<RosterEntryView> {
    roster_entries(state, names, state.online)
}

impl PollerState {
    /// Builds the roster of the remembered characters and ends the tick:
    /// later ticks are no longer the first.
    pub fn finish_tick(&mut self, names: &NameTables) -> (entries: Vec<RosterEntry>)
        ensures
            final(self)@ == (PollerView { first_tick: false, ..old(self)@ }),
            roster_view(entries@) == roster(old(self)@, names@),
    {
        self.view_is_wf();
        let ghost prev = self@;
        // Which group each member is drawn in.
        let mut member_to_group: HashMap<u32, u32> = HashMap::new();
        let m = self.groups.order.len();
        let mut j: usize = 0;
        while j < m
            invariant
                m == self.groups.order.len(),
                0 <= j <= m,
                self@ == prev,
                prev.wf(),
                forall|k: u32| #[trigger] entry_of(member_to_group@, k) == member_group(
                    prev.groups,
                    prev.group_order.take(j as int),
                    k,
                ),
            decreases m - j,
        {
            let g = self.groups.order[j];
            let ghost done = prev.group_order.take(j as int);
            let ghost next = prev.group_order.take(j + 1);
            proof {
                assert(next.drop_last() =~= done);
                assert(next.last() == g);
                assert(prev.group_order.to_set().contains(g));
                assert(self.groups.map@.contains_key(g));
            }
            match self.groups.map.get(&g) {
                Some(members) => {
                    let ghost start = member_to_group@;
                    let t_end = members.len();
                    let mut t: usize = 0;
                    while t < t_end
                        invariant
                            t_end == members.len(),
                            0 <= t <= t_end,
                            forall|k: u32| #[trigger] entry_of(member_to_group@, k) == if members@.take(t as int).contains(k) {
                                Some(g)
                            } else {
                                entry_of(start, k)
                            },
                        decreases t_end - t,
                    {
                        let member = members[t];
                        let ghost pre = member_to_group@;
                        member_to_group.insert(member, g);
                        proof {
                            assert forall|k: u32| #[trigger] entry_of(member_to_group@, k) == if members@.take(t + 1).contains(k) {
                                Some(g)
                            } else {
                                entry_of(start, k)
                            } by {
                                assert(entry_of(pre, k) == if members@.take(t as int).contains(k) {
                                    Some(g)
                                } else {
                                    entry_of(start, k)
                                });
                                if members@.take(t as int).contains(k) {
                                    let q = choose|q: int| 0 <= q < t && #[trigger] members@.take(t as int)[q] == k;
                                    assert(members@.take(t + 1)[q] == k);
                                }
                                if members@.take(t + 1).contains(k) && k != member {
                                    let q = choose|q: int| 0 <= q < t + 1 && #[trigger] members@.take(t + 1)[q] == k;
                                    assert(q != t);
                                    assert(members@.take(t as int)[q] == k);
                                }
                                assert(members@.take(t + 1)[t as int] == member);
                            }
                        }
                        t = t + 1;
                    }
                    proof {
                        assert(members@.take(t_end as int) =~= members@);
                        assert(prev.groups[g] == members@);
                    }
                },
                None => {},
            }
            j = j + 1;
        }
        proof {
            assert(prev.group_order.take(m as int) =~= prev.group_order);
        }
        // One entry per remembered character.
        let mut entries: Vec<RosterEntry> = Vec::new();
        let n = self.characters.order.len();
        let mut i: usize = 0;
        while i < n
            invariant
                n == self.characters.order.len(),
                0 <= i <= n,
                self@ == prev,
                prev.wf(),
                forall|k: u32| #[trigger] entry_of(member_to_group@, k) == member_group(prev.groups, prev.group_order, k),
                roster_view(entries@) == roster_entries(prev, names@, prev.online.take(i as int)),
            decreases n - i,
        {
            let guid = self.characters.order[i];
            proof {
                assert(prev.online.to_set().contains(guid));
                assert(self.characters.map@.contains_key(guid));
            }
            let ghost before = entries@;
            match self.characters.map.get(&guid) {
                Some(c) => {
                    let group_id = match member_to_group.get(&guid) {
                        Some(gid) => Some(*gid),
                        None => None,
                    };
                    proof {
                        assert(group_id == entry_of(member_to_group@, guid));
                    }
                    let e = RosterEntry {
                        guid,
                        name: c.name.clone(),
                        race: race_name(c.race).to_owned(),
                        class: class_name(c.class).to_owned(),
                        level: c.level,
                        zone_name: names.zone_name(c.zone as u32),
                        group_id,
                        map: c.map,
                        map_name: names.map_name(c.map as u32),
                        position_x_bits: c.position_x_bits,
                        position_y_bits: c.position_y_bits,
                    };
                    entries.push(e);
                    proof {
                        assert(e@ == roster_entry(prev, names@, guid));
                        assert(roster_view(entries@) =~= roster_view(before).push(e@));
                    }
                },
                None => {},
            }
            proof {
                let next = prev.online.take(i + 1);
                assert(next.drop_last() =~= prev.online.take(i as int));
                assert(roster_view(entries@) =~= roster_entries(prev, names@, next));
            }
            i = i + 1;
        }
        proof {
            assert(prev.online.take(n as int) =~= prev.online);
        }
        self.first_tick = false;
        entries
    }
}

} // verus!
