//! Gathering skill-ups (Mining, Herbalism, Skinning): a character's first
//! sighting of a skill is remembered silently, a later rise is narrated.

use vstd::prelude::*;

use crate::db::SkillRow;
use crate::events::{Event, EventView, events_view};
use crate::poller::describe::{gathering_skill_label, gathering_skill_name};
use crate::poller::{character_label, skill_key, PollerState, PollerView};

verus! {

broadcast use vstd::std_specs::hash::group_hash_axioms;

/// The remembered skill values after the rows, in row order: a value is
/// taken when its (character, skill) was not remembered or when it rose.
pub open spec fn skill_values_after(values: Map<u64, u16>, rows: Seq<SkillRow>) -> Map<u64, u16>
    decreases rows.len(),
{
    if rows.len() == 0 {
        values
    } else {
        let before = skill_values_after(values, rows.drop_last());
        let r = rows.last();
        let k = skill_key(r.guid, r.skill);
        if !before.contains_key(k) || r.value > before[k] {
            before.insert(k, r.value)
        } else {
            before
        }
    }
}

/// A `SkillUp`, in row order, for each row whose value rose above the
/// value remembered when the row is reached.
pub open spec fn skill_events(prev: PollerView, values: Map<u64, u16>, rows: Seq<SkillRow>) -> Seq<EventView>
    decreases rows.len(),
{
    if rows.len() == 0 {
        seq![]
    } else {
        let before = skill_values_after(values, rows.drop_last());
        let r = rows.last();
        let k = skill_key(r.guid, r.skill);
        skill_events(prev, values, rows.drop_last()) + if before.contains_key(k) && r.value > before[k] {
            seq![EventView::SkillUp {
                guid: r.guid,
                name: character_label(prev.characters, r.guid, r.guid as nat),
                skill_name: gathering_skill_label(r.skill),
                new_value: r.value,
            }]
        } else {
            seq![]
        }
    }
}

fn skill_key_of(guid: u32, skill: u16) -> (key: u64)
    ensures
        key == skill_key(guid, skill),
{
    (guid as u64) * 65536 + (skill as u64)
}

impl PollerState {
    /// Narrates gathering skill-ups and remembers the new values.
    pub fn record_skills(&mut self, rows: &Vec<SkillRow>) -> (events: Vec<Event>)
        ensures
            final(self)@ == (PollerView {
                skill_values: skill_values_after(old(self)@.skill_values, rows@),
                ..old(self)@
            }),
            events_view(events@) == skill_events(old(self)@, old(self)@.skill_values, rows@),
    {
        let ghost prev = self@;
        let mut events: Vec<Event> = Vec::new();
        let n = rows.len();
        let mut i: usize = 0;
        while i < n
            invariant
                n == rows.len(),
                0 <= i <= n,
                self@ == (PollerView {
                    skill_values: skill_values_after(prev.skill_values, rows@.take(i as int)),
                    ..prev
                }),
                events_view(events@) == skill_events(prev, prev.skill_values, rows@.take(i as int)),
            decreases n - i,
        {
            let row = &rows[i];
            let key = skill_key_of(row.guid, row.skill);
            let ghost before = events@;
            let ghost taken = rows@.take(i + 1);
            proof {
                assert(taken.drop_last() =~= rows@.take(i as int));
                assert(taken.last() == *row);
            }
            match self.skill_values.get(&key) {
                None => {
                    self.skill_values.insert(key, row.value);
                },
                Some(old_value) => {
                    let old_value = *old_value;
                    if row.value > old_value {
                        let name = self.character_name(row.guid, row.guid as u64);
                        let e = Event::SkillUp {
                            guid: row.guid,
                            name,
                            skill_name: gathering_skill_name(row.skill).to_owned(),
                            new_value: row.value,
                        };
                        events.push(e);
                        proof {
                            assert(events_view(events@) =~= events_view(before).push(e@));
                        }
                        self.skill_values.insert(key, row.value);
                    }
                },
            }
            proof {
                assert(self@.skill_values =~= skill_values_after(prev.skill_values, taken));
                assert(events_view(events@) =~= skill_events(prev, prev.skill_values, taken));
                assert(self@ =~= (PollerView { skill_values: skill_values_after(prev.skill_values, taken), ..prev }));
            }
            i = i + 1;
        }
        proof {
            assert(rows@.take(n as int) =~= rows@);
        }
        events
    }
}

} // verus!
