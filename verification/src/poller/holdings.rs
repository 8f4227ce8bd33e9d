//! Quest completions and notable items found: the known-set diff over the
//! rows, narrated with the character's name and the quest's or item's name.

use vstd::prelude::*;

use crate::db::{LootRow, QuestCompletionRow};
use crate::events::{Event, EventView, events_view};
use crate::poller::known::{diff_known_keys, known_keys_after, new_key_positions, seeded_after};
use crate::poller::{character_label, PollerState, PollerView};
use crate::text::{numbered, numbered_label};

verus! {

broadcast use vstd::std_specs::hash::group_hash_axioms;

/// A title from the database, or `prefix` and the id when it is missing or
/// empty.
pub open spec fn title_or_numbered(title: Option<String>, prefix: Seq<char>, id: u32) -> Seq<char> {
    match title {
        Some(s) if s@.len() > 0 => s@,
        _ => numbered(prefix, id as nat),
    }
}

fn title_or_numbered_label(title: &Option<String>, prefix: &str, id: u32) -> (label: String)
    ensures
        label@ == title_or_numbered(*title, prefix@, id),
{
    match title {
        Some(s) if !s.as_str().is_empty() => s.clone(),
        _ => numbered_label(prefix, id as u64),
    }
}

pub open spec fn quest_pairs(rows: Seq<QuestCompletionRow>) -> Seq<(u32, u32)> {
    rows.map_values(|r: QuestCompletionRow| (r.guid, r.quest))
}

pub open spec fn quest_event(prev: PollerView, r: QuestCompletionRow) -> EventView {
    EventView::QuestCompleted {
        guid: r.guid,
        name: character_label(prev.characters, r.guid, r.guid as nat),
        quest_name: title_or_numbered(r.quest_name, "Quest #"@, r.quest),
    }
}

/// The `QuestCompleted` events of the rows at `idxs`.
pub open spec fn quest_events_at(prev: PollerView, rows: Seq<QuestCompletionRow>, idxs: Seq<usize>) -> Seq<EventView> {
    idxs.map_values(|i: usize| quest_event(prev, rows[i as int]))
}

/// A `QuestCompleted` for each newly rewarded quest of an already seeded
/// bot.
pub open spec fn quest_events(prev: PollerView, rows: Seq<QuestCompletionRow>) -> Seq<EventView> {
    quest_events_at(prev, rows, new_key_positions(prev.known_quests, prev.seeded_quest_guids, quest_pairs(rows)))
}

pub open spec fn loot_pairs(rows: Seq<LootRow>) -> Seq<(u32, u32)> {
    rows.map_values(|r: LootRow| (r.guid, r.item_guid))
}

pub open spec fn loot_event(prev: PollerView, r: LootRow) -> EventView {
    EventView::ItemFound {
        guid: r.guid,
        name: character_label(prev.characters, r.guid, r.guid as nat),
        item_name: title_or_numbered(r.item_name, "Item #"@, r.item_guid),
        quality: r.quality,
    }
}

/// The `ItemFound` events of the rows at `idxs`.
pub open spec fn loot_events_at(prev: PollerView, rows: Seq<LootRow>, idxs: Seq<usize>) -> Seq<EventView> {
    idxs.map_values(|i: usize| loot_event(prev, rows[i as int]))
}

/// An `ItemFound` for each newly held item copy of an already seeded bot.
pub open spec fn loot_events(prev: PollerView, rows: Seq<LootRow>) -> Seq<EventView> {
    loot_events_at(prev, rows, new_key_positions(prev.known_items, prev.seeded_item_guids, loot_pairs(rows)))
}

impl PollerState {
    /// Narrates quests that seeded bots completed since they were last seen,
    /// and remembers every bot's rewarded quests.
    pub fn record_quest_completions(&mut self, rows: &Vec<QuestCompletionRow>) -> (events: Vec<Event>)
        ensures
            final(self)@ == (PollerView {
                known_quests: known_keys_after(old(self)@.known_quests, quest_pairs(rows@)),
                seeded_quest_guids: seeded_after(old(self)@.seeded_quest_guids, quest_pairs(rows@)),
                ..old(self)@
            }),
            events_view(events@) == quest_events(old(self)@, rows@),
    {
        let ghost prev = self@;
        let mut pairs: Vec<(u32, u32)> = Vec::new();
        let n = rows.len();
        let mut i: usize = 0;
        while i < n
            invariant
                n == rows.len(),
                0 <= i <= n,
                pairs@ == quest_pairs(rows@.take(i as int)),
            decreases n - i,
        {
            pairs.push((rows[i].guid, rows[i].quest));
            proof {
                assert(pairs@ =~= quest_pairs(rows@.take(i + 1)));
            }
            i = i + 1;
        }
        proof {
            assert(rows@.take(n as int) =~= rows@);
        }
        let fresh = diff_known_keys(&mut self.known_quests, &mut self.seeded_quest_guids, &pairs);
        let mut events: Vec<Event> = Vec::new();
        let m = fresh.len();
        let mut k: usize = 0;
        while k < m
            invariant
                n == rows.len(),
                m == fresh.len(),
                0 <= k <= m,
                forall|t: int| 0 <= t < fresh@.len() ==> fresh@[t] < n,
                self@.characters == prev.characters,
                events_view(events@) == quest_events_at(prev, rows@, fresh@.take(k as int)),
            decreases m - k,
        {
            let row = &rows[fresh[k]];
            let name = self.character_name(row.guid, row.guid as u64);
            let quest_name = title_or_numbered_label(&row.quest_name, "Quest #", row.quest);
            let e = Event::QuestCompleted { guid: row.guid, name, quest_name };
            let ghost before = events@;
            events.push(e);
            proof {
                assert(e@ == quest_event(prev, rows@[fresh@[k as int] as int]));
                assert(events_view(events@) =~= events_view(before).push(e@));
                assert(events_view(events@) =~= quest_events_at(prev, rows@, fresh@.take(k + 1)));
            }
            k = k + 1;
        }
        proof {
            assert(fresh@.take(m as int) =~= fresh@);
            assert(self@ =~= (PollerView {
                known_quests: known_keys_after(prev.known_quests, quest_pairs(rows@)),
                seeded_quest_guids: seeded_after(prev.seeded_quest_guids, quest_pairs(rows@)),
                ..prev
            }));
        }
        events
    }

    /// Narrates notable items that seeded bots came to hold since they were
    /// last seen, and remembers every bot's held item copies.
    pub fn record_loot(&mut self, rows: &Vec<LootRow>) -> (events: Vec<Event>)
        ensures
            final(self)@ == (PollerView {
                known_items: known_keys_after(old(self)@.known_items, loot_pairs(rows@)),
                seeded_item_guids: seeded_after(old(self)@.seeded_item_guids, loot_pairs(rows@)),
                ..old(self)@
            }),
            events_view(events@) == loot_events(old(self)@, rows@),
    {
        let ghost prev = self@;
        let mut pairs: Vec<(u32, u32)> = Vec::new();
        let n = rows.len();
        let mut i: usize = 0;
        while i < n
            invariant
                n == rows.len(),
                0 <= i <= n,
                pairs@ == loot_pairs(rows@.take(i as int)),
            decreases n - i,
        {
            pairs.push((rows[i].guid, rows[i].item_guid));
            proof {
                assert(pairs@ =~= loot_pairs(rows@.take(i + 1)));
            }
            i = i + 1;
        }
        proof {
            assert(rows@.take(n as int) =~= rows@);
        }
        let fresh = diff_known_keys(&mut self.known_items, &mut self.seeded_item_guids, &pairs);
        let mut events: Vec<Event> = Vec::new();
        let m = fresh.len();
        let mut k: usize = 0;
        while k < m
            invariant
                n == rows.len(),
                m == fresh.len(),
                0 <= k <= m,
                forall|t: int| 0 <= t < fresh@.len() ==> fresh@[t] < n,
                self@.characters == prev.characters,
                events_view(events@) == loot_events_at(prev, rows@, fresh@.take(k as int)),
            decreases m - k,
        {
            let row = &rows[fresh[k]];
            let name = self.character_name(row.guid, row.guid as u64);
            let item_name = title_or_numbered_label(&row.item_name, "Item #", row.item_guid);
            let e = Event::ItemFound { guid: row.guid, name, item_name, quality: row.quality };
            let ghost before = events@;
            events.push(e);
            proof {
                assert(e@ == loot_event(prev, rows@[fresh@[k as int] as int]));
                assert(events_view(events@) =~= events_view(before).push(e@));
                assert(events_view(events@) =~= loot_events_at(prev, rows@, fresh@.take(k + 1)));
            }
            k = k + 1;
        }
        proof {
            assert(fresh@.take(m as int) =~= fresh@);
            assert(self@ =~= (PollerView {
                known_items: known_keys_after(prev.known_items, loot_pairs(rows@)),
                seeded_item_guids: seeded_after(prev.seeded_item_guids, loot_pairs(rows@)),
                ..prev
            }));
        }
        events
    }
}

} // verus!
