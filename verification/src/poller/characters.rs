//! The character diff: who came online, levelled, moved, died or left.

use std::collections::HashMap;
use vstd::prelude::*;

use crate::character_info::{class_label, class_name, race_label, race_name};
use crate::db::CharacterRow;
use crate::events::{Event, EventView, events_view};
use crate::names::{NameTables, NameTablesView};
use crate::poller::{Keyed, lemma_lists_keys_empty, lemma_lists_keys_push, lists_keys, snapshots_view, CharacterSnapshot, PollerState, PollerView, SnapshotView};

verus! {

broadcast use vstd::std_specs::hash::group_hash_axioms;

/// What the poller remembers of a character row.
pub open spec fn snapshot_of(row: CharacterRow) -> SnapshotView {
    SnapshotView {
        name: row.name@,
        race: row.race,
        class: row.class,
        level: row.level,
        zone: row.zone,
        health: row.health,
        map: row.map,
        position_x_bits: row.position_x_bits,
        position_y_bits: row.position_y_bits,
    }
}

/// The events one character row gives against the previous snapshot: a
/// character not in it came online (told from the second tick on); one in
/// it levelled up when its level rose, changed zone when its zone changed
/// to a known zone (not 0), and died when its health fell to 0.
pub open spec fn row_events(prev: PollerView, names: NameTablesView, row: CharacterRow) -> Seq<EventView> {
    if !prev.characters.contains_key(row.guid) {
        if prev.first_tick {
            seq![]
        } else {
            seq![EventView::WentOnline {
                guid: row.guid,
                name: row.name@,
                race: race_label(row.race),
                class: class_label(row.class),
                level: row.level,
            }]
        }
    } else {
        let old = prev.characters[row.guid];
        (if row.level > old.level {
            seq![EventView::LevelUp {
                guid: row.guid,
                name: row.name@,
                class: class_label(row.class),
                old_level: old.level,
                new_level: row.level,
            }]
        } else {
            seq![]
        }) + (if row.zone != old.zone && row.zone != 0 {
            seq![EventView::ZoneChanged { guid: row.guid, name: row.name@, zone_name: names.zone_label(row.zone as u32) }]
        } else {
            seq![]
        }) + (if row.health == 0 && old.health > 0 {
            seq![EventView::Death { guid: row.guid, name: row.name@, zone_name: names.zone_label(row.zone as u32) }]
        } else {
            seq![]
        })
    }
}

/// The events of all rows, in row order, each against the previous
/// snapshot.
pub open spec fn rows_events(prev: PollerView, names: NameTablesView, rows: Seq<CharacterRow>) -> Seq<EventView>
    decreases rows.len(),
{
    if rows.len() == 0 {
        seq![]
    } else {
        rows_events(prev, names, rows.drop_last()) + row_events(prev, names, rows.last())
    }
}

/// The snapshot the rows make: a later row for the same character replaces
/// an earlier one.
pub open spec fn snapshot_map(rows: Seq<CharacterRow>) -> Map<u32, SnapshotView>
    decreases rows.len(),
{
    if rows.len() == 0 {
        Map::empty()
    } else {
        snapshot_map(rows.drop_last()).insert(rows.last().guid, snapshot_of(rows.last()))
    }
}

/// The distinct ids of `ids`, in the order of their first occurrence.
pub open spec fn first_seen(ids: Seq<u32>) -> Seq<u32>
    decreases ids.len(),
{
    if ids.len() == 0 {
        seq![]
    } else {
        let earlier = first_seen(ids.drop_last());
        if earlier.contains(ids.last()) {
            earlier
        } else {
            earlier.push(ids.last())
        }
    }
}

pub open spec fn row_guids(rows: Seq<CharacterRow>) -> Seq<u32> {
    rows.map_values(|r: CharacterRow| r.guid)
}

/// A `WentOffline` event, in `order`, for each previously remembered
/// character that `now` no longer holds.
pub open spec fn departure_events(prev: PollerView, order: Seq<u32>, now: Map<u32, SnapshotView>) -> Seq<EventView>
    decreases order.len(),
{
    if order.len() == 0 {
        seq![]
    } else {
        departure_events(prev, order.drop_last(), now) + (if now.contains_key(order.last()) {
            seq![]
        } else {
            seq![EventView::WentOffline { guid: order.last(), name: prev.characters[order.last()].name }]
        })
    }
}

/// All events of the character diff: the rows' events, then (from the
/// second tick on) the departures in the previous snapshot's order.
pub open spec fn character_events(prev: PollerView, names: NameTablesView, rows: Seq<CharacterRow>) -> Seq<EventView> {
    rows_events(prev, names, rows) + if prev.first_tick {
        seq![]
    } else {
        departure_events(prev, prev.online, snapshot_map(rows))
    }
}

/// The state after the character diff: the rows' snapshot replaces the
/// previous one.
pub open spec fn after_characters(prev: PollerView, rows: Seq<CharacterRow>) -> PollerView {
    PollerView { characters: snapshot_map(rows), online: first_seen(row_guids(rows)), ..prev }
}

/// The ids of the character rows, in row order (the online characters that
/// the per-character queries of a tick ask about).
pub fn character_guids(rows: &Vec<CharacterRow>) -> (guids: Vec<u32>)
    ensures
        guids@ == row_guids(rows@),
{
    let mut guids: Vec<u32> = Vec::new();
    let n = rows.len();
    let mut i: usize = 0;
    while i < n
        invariant
            n == rows.len(),
            0 <= i <= n,
            guids@ == row_guids(rows@.take(i as int)),
        decreases n - i,
    {
        guids.push(rows[i].guid);
        proof {
            assert(guids@ =~= row_guids(rows@.take(i + 1)));
        }
        i = i + 1;
    }
    proof {
        assert(rows@.take(n as int) =~= rows@);
    }
    guids
}

fn snapshot_from_row(row: &CharacterRow) -> (snap: CharacterSnapshot)
    ensures
        snap@ == snapshot_of(*row),
{
    CharacterSnapshot {
        name: row.name.clone(),
        race: row.race,
        class: row.class,
        level: row.level,
        zone: row.zone,
        health: row.health,
        map: row.map,
        position_x_bits: row.position_x_bits,
        position_y_bits: row.position_y_bits,
    }
}

impl PollerState {
    /// The events one row gives against the remembered snapshot.
    fn character_row_events(&self, names: &NameTables, row: &CharacterRow) -> (events: Vec<Event>)
        ensures
            events_view(events@) == row_events(self@, names@, *row),
    {
        let mut events: Vec<Event> = Vec::new();
        match self.characters.map.get(&row.guid) {
            None => {
                if !self.first_tick {
                    events.push(
                        Event::WentOnline {
                            guid: row.guid,
                            name: row.name.clone(),
                            race: race_name(row.race).to_owned(),
                            class: class_name(row.class).to_owned(),
                            level: row.level,
                        },
                    );
                }
                proof {
                    assert(events_view(events@) =~= row_events(self@, names@, *row));
                }
            },
            Some(old) => {
                let ghost e0 = events_view(events@);
                if row.level > old.level {
                    events.push(
                        Event::LevelUp {
                            guid: row.guid,
                            name: row.name.clone(),
                            class: class_name(row.class).to_owned(),
                            old_level: old.level,
                            new_level: row.level,
                        },
                    );
                }
                let ghost e1 = events_view(events@);
                if row.zone != old.zone && row.zone != 0 {
                    events.push(
                        Event::ZoneChanged {
                            guid: row.guid,
                            name: row.name.clone(),
                            zone_name: names.zone_name(row.zone as u32),
                        },
                    );
                }
                let ghost e2 = events_view(events@);
                if row.health == 0 && old.health > 0 {
                    events.push(
                        Event::Death {
                            guid: row.guid,
                            name: row.name.clone(),
                            zone_name: names.zone_name(row.zone as u32),
                        },
                    );
                }
                proof {
                    let prev = self@.characters[row.guid];
                    assert(prev == old@);
                    assert(e1 =~= (if row.level > old.level {
                        seq![EventView::LevelUp {
                            guid: row.guid,
                            name: row.name@,
                            class: class_label(row.class),
                            old_level: old.level,
                            new_level: row.level,
                        }]
                    } else {
                        seq![]
                    }));
                    assert(events_view(events@) =~= row_events(self@, names@, *row));
                }
            },
        }
        events
    }

    /// Diffs the online characters against the remembered snapshot, then
    /// remembers the rows' snapshot instead.
    pub fn diff_characters(&mut self, names: &NameTables, rows: &Vec<CharacterRow>) -> (events: Vec<Event>)
        ensures
            final(self)@.wf(),
            final(self)@ == after_characters(old(self)@, rows@),
            events_view(events@) == character_events(old(self)@, names@, rows@),
    {
        self.view_is_wf();
        let ghost prev = self@;
        let mut events: Vec<Event> = Vec::new();
        let mut snapshot: HashMap<u32, CharacterSnapshot> = HashMap::new();
        let mut order: Vec<u32> = Vec::new();
        let n = rows.len();
        let mut i: usize = 0;
        proof {
            lemma_lists_keys_empty();
            assert(snapshot@.dom() =~= Set::<u32>::empty());
        }
        while i < n
            invariant
                n == rows.len(),
                0 <= i <= n,
                self@ == prev,
                prev.wf(),
                events_view(events@) == rows_events(prev, names@, rows@.take(i as int)),
                snapshots_view(snapshot@) == snapshot_map(rows@.take(i as int)),
                order@ == first_seen(row_guids(rows@.take(i as int))),
                lists_keys(order@, snapshot@.dom()),
            decreases n - i,
        {
            let row = &rows[i];
            let row_events_vec = self.character_row_events(names, row);
            let ghost before = events@;
            let mut more = row_events_vec;
            events.append(&mut more);
            proof {
                assert(events_view(events@) =~= events_view(before) + events_view(row_events_vec@));
            }
            let ghost order_before = order@;
            let ghost dom_before = snapshot@.dom();
            if !snapshot.contains_key(&row.guid) {
                order.push(row.guid);
                proof {
                    lemma_lists_keys_push(order_before, snapshot@.dom(), row.guid);
                    assert(!order_before.to_set().contains(row.guid));
                    assert(!order_before.contains(row.guid));
                }
            } else {
                proof {
                    assert(dom_before.insert(row.guid) =~= dom_before);
                }
            }
            let snap = snapshot_from_row(row);
            snapshot.insert(row.guid, snap);
            proof {
                let taken = rows@.take(i + 1);
                assert(taken.drop_last() =~= rows@.take(i as int));
                assert(taken.last() == *row);
                assert(row_guids(taken).drop_last() =~= row_guids(rows@.take(i as int)));
                assert(row_guids(taken).last() == row.guid);
                assert(events_view(events@) =~= rows_events(prev, names@, taken));
                assert(snapshots_view(snapshot@) =~= snapshot_map(taken));
                assert(order@ =~= first_seen(row_guids(taken)));
                assert(snapshot@.dom() =~= dom_before.insert(row.guid));
                assert(lists_keys(order@, snapshot@.dom()));
            }
            i = i + 1;
        }
        proof {
            assert(rows@.take(n as int) =~= rows@);
        }
        let ghost arrivals = events_view(events@);
        if !self.first_tick {
            let m = self.characters.order.len();
            let mut j: usize = 0;
            while j < m
                invariant
                    m == self.characters.order.len(),
                    0 <= j <= m,
                    self@ == prev,
                    prev.wf(),
                    snapshots_view(snapshot@) == snapshot_map(rows@),
                    events_view(events@) == arrivals + departure_events(prev, prev.online.take(j as int), snapshot_map(rows@)),
                decreases m - j,
            {
                let guid = self.characters.order[j];
                let ghost before = events@;
                proof {
                    assert(prev.online.contains(guid));
                    assert(prev.online.to_set().contains(guid));
                    assert(snapshot@.dom() =~= snapshot_map(rows@).dom());
                }
                proof {
                    assert(prev.characters.dom().contains(guid));
                    assert(self.characters.map@.dom().contains(guid));
                }
                if !snapshot.contains_key(&guid) {
                    match self.characters.map.get(&guid) {
                        Some(c) => {
                            events.push(Event::WentOffline { guid, name: c.name.clone() });
                            proof {
                                assert(prev.characters[guid].name == c.name@);
                                assert(events_view(events@) =~= events_view(before).push(EventView::WentOffline { guid, name: prev.characters[guid].name }));
                            }
                        },
                        None => {},
                    }
                } else {
                    proof {
                        assert(events_view(events@) =~= events_view(before));
                    }
                }
                proof {
                    let taken = prev.online.take(j + 1);
                    assert(taken.drop_last() =~= prev.online.take(j as int));
                    assert(taken.last() == guid);
                    assert(events_view(events@) =~= arrivals + departure_events(prev, taken, snapshot_map(rows@)));
                }
                j = j + 1;
            }
            proof {
                assert(prev.online.take(m as int) =~= prev.online);
            }
        }
        proof {
            assert(events_view(events@) =~= character_events(prev, names@, rows@));
        }
        self.characters = Keyed { map: snapshot, order };
        proof {
            assert(self@ =~= after_characters(prev, rows@));
            assert(self@.characters.dom() =~= snapshot@.dom());
        }
        events
    }
}

} // verus!
