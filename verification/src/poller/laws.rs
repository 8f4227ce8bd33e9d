//! What the poll tick promises across calls: narrating is a diff, so the
//! same database state read twice in a row is narrated once; a bot's first
//! sighting is remembered silently; the first tick narrates no arrivals,
//! departures or groups; quests and items are remembered per bot by their
//! ids and each new one is narrated once; skill values are remembered per
//! character and skill; the roster lists every online character once, as
//! its row was read.

use vstd::prelude::*;

use crate::character_info::{class_label, race_label};
use crate::db::{CharacterRow, GroupMemberRow, LootRow, QuestCompletionRow, SkillRow};
use crate::events::EventView;
use crate::names::NameTablesView;
use crate::poller::characters::{
    after_characters, character_events, departure_events, first_seen, row_events, row_guids, rows_events,
    snapshot_map, snapshot_of,
};
use crate::poller::groups::{disbanded_events, formed_events, group_events, group_ids, groups_of_rows};
use crate::poller::known::{
    lemma_known_after_other,
    fresh_in_group, indices_of, keys_after, known_after, known_keys_after, known_of, lemma_first_seen_lists,
    new_key_positions, pair_guids, reported, seeded_after,
};
use crate::poller::holdings::{loot_event, loot_events, loot_pairs, quest_event, quest_events, quest_pairs};
use crate::poller::roster::{roster, roster_entry};
use crate::poller::skills::{skill_events, skill_values_after};
use crate::poller::describe::gathering_skill_label;
use crate::poller::{character_label, skill_key, PollerView};

verus! {

// ---------------------------------------------------------------------
// Characters
proof fn lemma_snapshot_map_dom(rows: Seq<CharacterRow>)
    ensures
        snapshot_map(rows).dom() == row_guids(rows).to_set(),
    decreases rows.len(),
{
    if rows.len() > 0 {
        lemma_snapshot_map_dom(rows.drop_last());
        assert(row_guids(rows) =~= row_guids(rows.drop_last()).push(rows.last().guid));
        assert forall|g: u32| row_guids(rows).contains(g) <==> row_guids(rows.drop_last()).contains(g)
            || g == rows.last().guid by {
            let s = row_guids(rows);
            let t = row_guids(rows.drop_last());
            if s.contains(g) {
                let k = choose|k: int| 0 <= k < s.len() && s[k] == g;
                if k < t.len() {
                    assert(t[k] == g);
                }
            }
            if t.contains(g) {
                let k = choose|k: int| 0 <= k < t.len() && t[k] == g;
                assert(s[k] == g);
            }
            assert(s[s.len() - 1] == rows.last().guid);
        }
        assert(snapshot_map(rows).dom() =~= row_guids(rows).to_set());
    } else {
        assert(snapshot_map(rows).dom() =~= row_guids(rows).to_set());
    }
}

proof fn lemma_snapshot_map_at(rows: Seq<CharacterRow>, i: int)
    requires
        row_guids(rows).no_duplicates(),
        0 <= i < rows.len(),
    ensures
        snapshot_map(rows).contains_key(rows[i].guid),
        snapshot_map(rows)[rows[i].guid] == snapshot_of(rows[i]),
    decreases rows.len(),
{
    let front = rows.drop_last();
    assert(row_guids(front) =~= row_guids(rows).drop_last());
    if i < rows.len() - 1 {
        assert(row_guids(front).no_duplicates()) by {
            assert forall|a: int, b: int| 0 <= a < b < row_guids(front).len() implies row_guids(front)[a]
                != row_guids(front)[b] by {
                assert(row_guids(front)[a] == row_guids(rows)[a]);
                assert(row_guids(front)[b] == row_guids(rows)[b]);
            }
        }
        lemma_snapshot_map_at(front, i);
        assert(front[i] == rows[i]);
        assert(row_guids(rows)[i] != row_guids(rows)[rows.len() - 1]);
    }
}

proof fn lemma_rows_events_settled(s: PollerView, names: NameTablesView, rows: Seq<CharacterRow>, all: Seq<CharacterRow>)
    requires
        row_guids(all).no_duplicates(),
        rows.len() <= all.len(),
        rows == all.take(rows.len() as int),
        s.characters == snapshot_map(all),
    ensures
        rows_events(s, names, rows) == Seq::<EventView>::empty(),
    decreases rows.len(),
{
    if rows.len() > 0 {
        let front = rows.drop_last();
        assert(front =~= all.take(front.len() as int));
        lemma_rows_events_settled(s, names, front, all);
        let i = rows.len() - 1;
        assert(rows.last() == all[i]);
        lemma_snapshot_map_at(all, i);
        assert(row_events(s, names, rows.last()) =~= Seq::<EventView>::empty());
        assert(rows_events(s, names, rows) =~= Seq::<EventView>::empty());
    }
}

proof fn lemma_departures_settled(s: PollerView, order: Seq<u32>, now: Map<u32, crate::poller::SnapshotView>)
    requires
        forall|k: int| 0 <= k < order.len() ==> now.contains_key(#[trigger] order[k]),
    ensures
        departure_events(s, order, now) == Seq::<EventView>::empty(),
    decreases order.len(),
{
    if order.len() > 0 {
        lemma_departures_settled(s, order.drop_last(), now);
        assert(now.contains_key(order[order.len() - 1]));
        assert(departure_events(s, order, now) =~= Seq::<EventView>::empty());
    }
}

/// Diffing the same online characters twice in a row narrates nothing the
/// second time (no level-up, zone change, death, arrival or departure),
/// when no character is listed twice.
pub proof fn law_character_diff_settles(s: PollerView, names: NameTablesView, rows: Seq<CharacterRow>)
    requires
        row_guids(rows).no_duplicates(),
    ensures
        character_events(after_characters(s, rows), names, rows) == Seq::<EventView>::empty(),
{
    let t = after_characters(s, rows);
    assert(rows =~= rows.take(rows.len() as int));
    lemma_rows_events_settled(t, names, rows, rows);
    lemma_snapshot_map_dom(rows);
    lemma_first_seen_lists(row_guids(rows));
    assert forall|k: int| 0 <= k < t.online.len() implies snapshot_map(rows).contains_key(#[trigger] t.online[k]) by {
        assert(t.online.contains(t.online[k]));
        assert(t.online.to_set().contains(t.online[k]));
    }
    lemma_departures_settled(t, t.online, snapshot_map(rows));
    assert(character_events(t, names, rows) =~= Seq::<EventView>::empty());
}

proof fn lemma_rows_events_first_tick(s: PollerView, names: NameTablesView, rows: Seq<CharacterRow>)
    requires
        s.first_tick,
    ensures
        forall|k: int| 0 <= k < rows_events(s, names, rows).len() ==> !(#[trigger] rows_events(s, names, rows)[k] is WentOnline),
    decreases rows.len(),
{
    if rows.len() > 0 {
        lemma_rows_events_first_tick(s, names, rows.drop_last());
        let front = rows_events(s, names, rows.drop_last());
        let last = row_events(s, names, rows.last());
        assert(rows_events(s, names, rows) == front + last);
        assert forall|k: int| 0 <= k < rows_events(s, names, rows).len() implies !(
        #[trigger] rows_events(s, names, rows)[k] is WentOnline) by {
            if k < front.len() {
                assert(rows_events(s, names, rows)[k] == front[k]);
            } else {
                assert(rows_events(s, names, rows)[k] == last[k - front.len()]);
            }
        }
    }
}

/// The first tick narrates no one coming online or going offline, and no
/// group forming or disbanding: it only learns the current population.
pub proof fn law_first_tick_is_silent_on_presence(
    s: PollerView,
    names: NameTablesView,
    rows: Seq<CharacterRow>,
    now: Map<u32, Seq<u32>>,
    now_order: Seq<u32>,
)
    requires
        s.first_tick,
    ensures
        forall|k: int| 0 <= k < character_events(s, names, rows).len() ==> !(#[trigger] character_events(s, names, rows)[k] is WentOnline)
            && !(character_events(s, names, rows)[k] is WentOffline),
        group_events(s, now, now_order) == Seq::<EventView>::empty(),
{
    lemma_rows_events_first_tick(s, names, rows);
    assert(character_events(s, names, rows) =~= rows_events(s, names, rows));
    assert forall|k: int| 0 <= k < character_events(s, names, rows).len() implies !(
    #[trigger] character_events(s, names, rows)[k] is WentOnline) && !(character_events(s, names, rows)[k] is WentOffline) by {
        assert(character_events(s, names, rows)[k] == rows_events(s, names, rows)[k]);
        if rows.len() > 0 {
            assert(!(rows_events(s, names, rows)[k] is WentOffline)) by {
                lemma_no_offline_in_rows_events(s, names, rows);
            }
        }
    }
}

proof fn lemma_no_offline_in_rows_events(s: PollerView, names: NameTablesView, rows: Seq<CharacterRow>)
    ensures
        forall|k: int| 0 <= k < rows_events(s, names, rows).len() ==> !(#[trigger] rows_events(s, names, rows)[k] is WentOffline),
    decreases rows.len(),
{
    if rows.len() > 0 {
        lemma_no_offline_in_rows_events(s, names, rows.drop_last());
        let front = rows_events(s, names, rows.drop_last());
        let last = row_events(s, names, rows.last());
        assert forall|k: int| 0 <= k < rows_events(s, names, rows).len() implies !(
        #[trigger] rows_events(s, names, rows)[k] is WentOffline) by {
            if k < front.len() {
                assert(rows_events(s, names, rows)[k] == front[k]);
            } else {
                assert(rows_events(s, names, rows)[k] == last[k - front.len()]);
            }
        }
    }
}

// ---------------------------------------------------------------------
// Known-set diffing (quests, items)
proof fn lemma_keys_after_grows(known: Set<u32>, pairs: Seq<(u32, u32)>, idxs: Seq<usize>)
    ensures
        known.subset_of(keys_after(known, pairs, idxs)),
        forall|k: int| 0 <= k < idxs.len() ==> keys_after(known, pairs, idxs).contains(pairs[#[trigger] idxs[k] as int].1),
    decreases idxs.len(),
{
    if idxs.len() > 0 {
        lemma_keys_after_grows(known, pairs, idxs.drop_last());
        assert forall|k: int| 0 <= k < idxs.len() implies keys_after(known, pairs, idxs).contains(
            pairs[#[trigger] idxs[k] as int].1,
        ) by {
            if k < idxs.len() - 1 {
                assert(idxs.drop_last()[k] == idxs[k]);
            }
        }
    }
}

proof fn lemma_keys_after_mono(a: Set<u32>, b: Set<u32>, pairs: Seq<(u32, u32)>, idxs: Seq<usize>)
    requires
        a.subset_of(b),
    ensures
        keys_after(a, pairs, idxs).subset_of(keys_after(b, pairs, idxs)),
    decreases idxs.len(),
{
    if idxs.len() > 0 {
        lemma_keys_after_mono(a, b, pairs, idxs.drop_last());
    }
}

proof fn lemma_fresh_empty_when_known(known: Set<u32>, pairs: Seq<(u32, u32)>, idxs: Seq<usize>)
    requires
        forall|k: int| 0 <= k < idxs.len() ==> known.contains(pairs[#[trigger] idxs[k] as int].1),
    ensures
        fresh_in_group(known, pairs, idxs) == Seq::<usize>::empty(),
    decreases idxs.len(),
{
    if idxs.len() > 0 {
        let front = idxs.drop_last();
        assert forall|k: int| 0 <= k < front.len() implies known.contains(pairs[#[trigger] front[k] as int].1) by {
            assert(front[k] == idxs[k]);
        }
        lemma_fresh_empty_when_known(known, pairs, front);
        lemma_keys_after_grows(known, pairs, front);
        assert(known.contains(pairs[idxs[idxs.len() - 1] as int].1));
        assert(fresh_in_group(known, pairs, idxs) =~= Seq::<usize>::empty());
    }
}

proof fn lemma_known_after_at(known: Map<u32, Set<u32>>, pairs: Seq<(u32, u32)>, order: Seq<u32>, g: u32)
    requires
        order.no_duplicates(),
        order.contains(g),
    ensures
        known_after(known, pairs, order).contains_key(g),
        known_after(known, pairs, order)[g] == keys_after(known_of(known, g), pairs, indices_of(pairs, g, pairs.len())),
    decreases order.len(),
{
    if order.last() != g {
        let front = order.drop_last();
        let k = choose|k: int| 0 <= k < order.len() && order[k] == g;
        assert(k < order.len() - 1);
        assert(front[k] == g);
        assert(front.no_duplicates()) by {
            assert forall|a: int, b: int| 0 <= a < b < front.len() implies front[a] != front[b] by {
                assert(front[a] == order[a]);
                assert(front[b] == order[b]);
            }
        }
        lemma_known_after_at(known, pairs, front, g);
    }
}

proof fn lemma_reported_empty(
    known: Map<u32, Set<u32>>,
    seeded: Set<u32>,
    pairs: Seq<(u32, u32)>,
    order: Seq<u32>,
)
    requires
        forall|k: int| #![trigger order[k]] 0 <= k < order.len() ==> fresh_in_group(
            known_of(known, order[k]),
            pairs,
            indices_of(pairs, order[k], pairs.len()),
        ) == Seq::<usize>::empty(),
    ensures
        reported(known, seeded, pairs, order) == Seq::<usize>::empty(),
    decreases order.len(),
{
    if order.len() > 0 {
        let front = order.drop_last();
        assert forall|k: int| #![trigger front[k]] 0 <= k < front.len() implies fresh_in_group(
            known_of(known, front[k]),
            pairs,
            indices_of(pairs, front[k], pairs.len()),
        ) == Seq::<usize>::empty() by {
            assert(front[k] == order[k]);
        }
        lemma_reported_empty(known, seeded, pairs, front);
        assert(order[order.len() - 1] == order.last());
        assert(reported(known, seeded, pairs, order) =~= Seq::<usize>::empty());
    }
}

proof fn lemma_indices_of_bot(pairs: Seq<(u32, u32)>, g: u32, n: nat)
    requires
        n <= pairs.len(),
        pairs.len() <= usize::MAX,
    ensures
        forall|k: int| 0 <= k < indices_of(pairs, g, n).len() ==> (#[trigger] indices_of(pairs, g, n)[k]) < n
            && pairs[indices_of(pairs, g, n)[k] as int].0 == g,
    decreases n,
{
    if n > 0 {
        lemma_indices_of_bot(pairs, g, (n - 1) as nat);
        let front = indices_of(pairs, g, (n - 1) as nat);
        assert forall|k: int| 0 <= k < indices_of(pairs, g, n).len() implies (#[trigger] indices_of(pairs, g, n)[k]) < n
            && pairs[indices_of(pairs, g, n)[k] as int].0 == g by {
            if k < front.len() {
                assert(indices_of(pairs, g, n)[k] == front[k]);
            } else {
                assert(indices_of(pairs, g, n)[k] == (n - 1) as usize);
                assert(pairs[n - 1].0 == g);
            }
        }
    }
}

/// Reading the same (bot, key) rows twice in a row reports nothing the
/// second time: every key has become known and every bot seeded.
pub proof fn law_known_keys_settle(known: Map<u32, Set<u32>>, seeded: Set<u32>, pairs: Seq<(u32, u32)>)
    ensures
        new_key_positions(known_keys_after(known, pairs), seeded_after(seeded, pairs), pairs) == Seq::<usize>::empty(),
{
    let order = first_seen(pair_guids(pairs));
    let k2 = known_keys_after(known, pairs);
    lemma_first_seen_lists(pair_guids(pairs));
    assert forall|k: int| #![trigger order[k]] 0 <= k < order.len() implies fresh_in_group(
        known_of(k2, order[k]),
        pairs,
        indices_of(pairs, order[k], pairs.len()),
    ) == Seq::<usize>::empty() by {
        let g = order[k];
        let idxs = indices_of(pairs, g, pairs.len());
        assert(order.contains(g));
        lemma_known_after_at(known, pairs, order, g);
        lemma_keys_after_grows(known_of(known, g), pairs, idxs);
        assert(known_of(k2, g) == keys_after(known_of(known, g), pairs, idxs));
        lemma_fresh_empty_when_known(known_of(k2, g), pairs, idxs);
    }
    lemma_reported_empty(k2, seeded_after(seeded, pairs), pairs, order);
}

proof fn lemma_fresh_within(known: Set<u32>, pairs: Seq<(u32, u32)>, idxs: Seq<usize>)
    ensures
        forall|k: int| 0 <= k < fresh_in_group(known, pairs, idxs).len() ==> idxs.contains(
            #[trigger] fresh_in_group(known, pairs, idxs)[k],
        ),
    decreases idxs.len(),
{
    if idxs.len() > 0 {
        let front = idxs.drop_last();
        lemma_fresh_within(known, pairs, front);
        let f = fresh_in_group(known, pairs, idxs);
        let ff = fresh_in_group(known, pairs, front);
        assert forall|k: int| 0 <= k < f.len() implies idxs.contains(#[trigger] f[k]) by {
            if k < ff.len() {
                assert(f[k] == ff[k]);
                let q = choose|q: int| 0 <= q < front.len() && front[q] == ff[k];
                assert(idxs[q] == ff[k]);
            } else {
                assert(f[k] == idxs[idxs.len() - 1]);
            }
        }
    }
}

proof fn lemma_reported_seeded(
    known: Map<u32, Set<u32>>,
    seeded: Set<u32>,
    pairs: Seq<(u32, u32)>,
    order: Seq<u32>,
)
    requires
        pairs.len() <= usize::MAX,
    ensures
        forall|k: int| 0 <= k < reported(known, seeded, pairs, order).len() ==> {
            let i = #[trigger] reported(known, seeded, pairs, order)[k];
            i < pairs.len() && seeded.contains(pairs[i as int].0)
        },
    decreases order.len(),
{
    if order.len() > 0 {
        let g = order.last();
        lemma_reported_seeded(known, seeded, pairs, order.drop_last());
        let r = reported(known, seeded, pairs, order);
        let front = reported(known, seeded, pairs, order.drop_last());
        let idxs = indices_of(pairs, g, pairs.len());
        lemma_fresh_within(known_of(known, g), pairs, idxs);
        lemma_indices_of_bot(pairs, g, pairs.len());
        assert forall|k: int| 0 <= k < r.len() implies {
            let i = #[trigger] r[k];
            i < pairs.len() && seeded.contains(pairs[i as int].0)
        } by {
            if k < front.len() {
                assert(r[k] == front[k]);
            } else {
                let f = fresh_in_group(known_of(known, g), pairs, idxs);
                assert(seeded.contains(g));
                assert(r[k] == f[k - front.len()]);
                assert(idxs.contains(f[k - front.len()]));
                let q = choose|q: int| 0 <= q < idxs.len() && idxs[q] == f[k - front.len()];
                assert(pairs[idxs[q] as int].0 == g);
            }
        }
    }
}

/// Only bots that were already seeded are reported: a bot's first sighting
/// is remembered silently, however many keys it brings.
pub proof fn law_first_sighting_is_silent(known: Map<u32, Set<u32>>, seeded: Set<u32>, pairs: Seq<(u32, u32)>)
    requires
        pairs.len() <= usize::MAX,
    ensures
        forall|k: int| 0 <= k < new_key_positions(known, seeded, pairs).len() ==> {
            let i = #[trigger] new_key_positions(known, seeded, pairs)[k];
            i < pairs.len() && seeded.contains(pairs[i as int].0)
        },
{
    lemma_reported_seeded(known, seeded, pairs, first_seen(pair_guids(pairs)));
}

/// Positions listed in increasing order.
pub open spec fn increasing(idxs: Seq<usize>) -> bool {
    forall|a: int, b: int| 0 <= a < b < idxs.len() ==> idxs[a] < idxs[b]
}

proof fn lemma_keys_after_members(known: Set<u32>, pairs: Seq<(u32, u32)>, idxs: Seq<usize>, x: u32)
    ensures
        keys_after(known, pairs, idxs).contains(x) <==> known.contains(x) || exists|k: int|
            0 <= k < idxs.len() && pairs[idxs[k] as int].1 == x,
    decreases idxs.len(),
{
    if idxs.len() > 0 {
        let front = idxs.drop_last();
        lemma_keys_after_members(known, pairs, front, x);
        if exists|k: int| 0 <= k < front.len() && pairs[front[k] as int].1 == x {
            let k = choose|k: int| 0 <= k < front.len() && pairs[front[k] as int].1 == x;
            assert(idxs[k] == front[k]);
        }
        if exists|k: int| 0 <= k < idxs.len() && pairs[idxs[k] as int].1 == x {
            let k = choose|k: int| 0 <= k < idxs.len() && pairs[idxs[k] as int].1 == x;
            if k < front.len() {
                assert(front[k] == idxs[k]);
            }
        }
    }
}

proof fn lemma_fresh_members(known: Set<u32>, pairs: Seq<(u32, u32)>, idxs: Seq<usize>, i: usize)
    requires
        increasing(idxs),
    ensures
        fresh_in_group(known, pairs, idxs).contains(i) <==> {
            &&& idxs.contains(i)
            &&& !known.contains(pairs[i as int].1)
            &&& forall|k: int| 0 <= k < idxs.len() && idxs[k] < i ==> pairs[idxs[k] as int].1 != pairs[i as int].1
        },
        increasing(fresh_in_group(known, pairs, idxs)),
    decreases idxs.len(),
{
    if idxs.len() > 0 {
        let front = idxs.drop_last();
        let l = idxs.last();
        let ff = fresh_in_group(known, pairs, front);
        let f = fresh_in_group(known, pairs, idxs);
        assert(increasing(front)) by {
            assert forall|a: int, b: int| 0 <= a < b < front.len() implies front[a] < front[b] by {
                assert(front[a] == idxs[a] && front[b] == idxs[b]);
            }
        }
        lemma_fresh_members(known, pairs, front, i);
        lemma_fresh_members(known, pairs, front, l);
        lemma_fresh_within(known, pairs, front);
        assert forall|k: int| 0 <= k < front.len() implies front[k] < l by {
            assert(front[k] == idxs[k]);
            assert(idxs[idxs.len() - 1] == l);
        }
        assert forall|k: int| 0 <= k < ff.len() implies ff[k] < l by {
            let q = choose|q: int| 0 <= q < front.len() && front[q] == ff[k];
        }
        assert(!ff.contains(l)) by {
            if ff.contains(l) {
                let k = choose|k: int| 0 <= k < ff.len() && ff[k] == l;
            }
        }
        lemma_keys_after_members(known, pairs, front, pairs[l as int].1);
        assert(idxs =~= front.push(l));
        assert(forall|k: int| 0 <= k < front.len() ==> idxs[k] == front[k]);
        if keys_after(known, pairs, front).contains(pairs[l as int].1) {
            assert(f =~= ff);
        } else {
            assert(f =~= ff.push(l));
        }
        if i == l {
            assert(idxs[idxs.len() - 1] == l);
            assert(idxs.contains(i));
            if keys_after(known, pairs, front).contains(pairs[l as int].1) {
                assert(!f.contains(i));
                if !known.contains(pairs[l as int].1) {
                    let k = choose|k: int| 0 <= k < front.len() && pairs[front[k] as int].1 == pairs[l as int].1;
                    assert(idxs[k] < i && pairs[idxs[k] as int].1 == pairs[i as int].1);
                }
            } else {
                assert(f[ff.len() as int] == l);
                assert(f.contains(i));
                assert forall|k: int| 0 <= k < idxs.len() && idxs[k] < i implies pairs[idxs[k] as int].1 != pairs[
                    i as int].1 by {
                    if k == idxs.len() - 1 {
                        assert(idxs[k] == l);
                    } else {
                        assert(idxs[k] == front[k]);
                        if pairs[front[k] as int].1 == pairs[l as int].1 {
                            assert(exists|k2: int| 0 <= k2 < front.len() && pairs[front[k2] as int].1 == pairs[l as int].1);
                        }
                    }
                }
            }
        } else {
            assert(idxs.contains(i) <==> front.contains(i)) by {
                if idxs.contains(i) {
                    let k = choose|k: int| 0 <= k < idxs.len() && idxs[k] == i;
                    assert(k < front.len());
                    assert(front[k] == i);
                }
                if front.contains(i) {
                    let k = choose|k: int| 0 <= k < front.len() && front[k] == i;
                    assert(idxs[k] == i);
                }
            }
            if front.contains(i) {
                assert(i < l);
            }
            if f.contains(i) {
                let k = choose|k: int| 0 <= k < f.len() && f[k] == i;
                assert(k < ff.len());
                assert(ff[k] == i);
            }
            if ff.contains(i) {
                let k = choose|k: int| 0 <= k < ff.len() && ff[k] == i;
                assert(f[k] == i);
            }
        }
    }
}

proof fn lemma_indices_of_members(pairs: Seq<(u32, u32)>, g: u32, n: nat)
    requires
        n <= pairs.len(),
        pairs.len() <= usize::MAX,
    ensures
        increasing(indices_of(pairs, g, n)),
        forall|j: int| 0 <= j < pairs.len() ==> (indices_of(pairs, g, n).contains(j as usize) <==> (j < n && pairs[j].0 == g)),
    decreases n,
{
    if n > 0 {
        let m = (n - 1) as nat;
        lemma_indices_of_members(pairs, g, m);
        lemma_indices_of_bot(pairs, g, m);
        let front = indices_of(pairs, g, m);
        let idx = indices_of(pairs, g, n);
        if pairs[m as int].0 == g {
            assert(idx =~= front.push(m as usize));
        } else {
            assert(idx =~= front);
        }
        assert forall|j: int| 0 <= j < pairs.len() implies (idx.contains(j as usize) <==> (j < n && pairs[j].0 == g)) by {
            if idx.contains(j as usize) {
                let k = choose|k: int| 0 <= k < idx.len() && idx[k] == j as usize;
                if k < front.len() {
                    assert(front[k] == idx[k]);
                    assert(front.contains(j as usize));
                }
            }
            if j < n && pairs[j].0 == g {
                if j < m {
                    assert(front.contains(j as usize));
                    let k = choose|k: int| 0 <= k < front.len() && front[k] == j as usize;
                    assert(idx[k] == front[k]);
                } else {
                    assert(idx[idx.len() - 1] == j as usize);
                }
            }
        }
    }
}

/// The position `i` of the pairs holds a key that its bot had not known:
/// a bot already seeded, a key neither remembered for it nor in an earlier
/// pair of the same bot.
pub open spec fn newly_keyed(known: Map<u32, Set<u32>>, seeded: Set<u32>, pairs: Seq<(u32, u32)>, i: int) -> bool {
    &&& 0 <= i < pairs.len()
    &&& seeded.contains(pairs[i].0)
    &&& !known_of(known, pairs[i].0).contains(pairs[i].1)
    &&& forall|j: int| 0 <= j < i && pairs[j].0 == pairs[i].0 ==> pairs[j].1 != pairs[i].1
}

proof fn lemma_group_fresh_members(known: Set<u32>, pairs: Seq<(u32, u32)>, g: u32, i: usize)
    requires
        pairs.len() <= usize::MAX,
    ensures
        fresh_in_group(known, pairs, indices_of(pairs, g, pairs.len())).contains(i) <==> {
            &&& i < pairs.len()
            &&& pairs[i as int].0 == g
            &&& !known.contains(pairs[i as int].1)
            &&& forall|j: int| 0 <= j < i && pairs[j].0 == g ==> pairs[j].1 != pairs[i as int].1
        },
        increasing(fresh_in_group(known, pairs, indices_of(pairs, g, pairs.len()))),
{
    let idxs = indices_of(pairs, g, pairs.len());
    lemma_indices_of_members(pairs, g, pairs.len());
    lemma_indices_of_bot(pairs, g, pairs.len());
    lemma_fresh_members(known, pairs, idxs, i);
    if idxs.contains(i) {
        let q = choose|q: int| 0 <= q < idxs.len() && idxs[q] == i;
        assert(i < pairs.len() && pairs[i as int].0 == g);
        let over_idxs = forall|k: int| 0 <= k < idxs.len() && idxs[k] < i ==> pairs[idxs[k] as int].1 != pairs[i as int].1;
        let over_pairs = forall|j: int| 0 <= j < i && pairs[j].0 == g ==> pairs[j].1 != pairs[i as int].1;
        assert(over_idxs ==> over_pairs) by {
            if over_idxs {
                assert forall|j: int| 0 <= j < i && pairs[j].0 == g implies pairs[j].1 != pairs[i as int].1 by {
                    assert(idxs.contains(j as usize));
                    let k = choose|k: int| 0 <= k < idxs.len() && idxs[k] == j as usize;
                }
            }
        }
        assert(over_pairs ==> over_idxs) by {
            if over_pairs {
                assert forall|k: int| 0 <= k < idxs.len() && idxs[k] < i implies pairs[idxs[k] as int].1 != pairs[i as int].1 by {
                    assert(pairs[idxs[k] as int].0 == g);
                }
            }
        }
    } else if i < pairs.len() {
        assert(pairs[i as int].0 != g);
    }
}

proof fn lemma_reported_members(
    known: Map<u32, Set<u32>>,
    seeded: Set<u32>,
    pairs: Seq<(u32, u32)>,
    order: Seq<u32>,
    i: usize,
)
    requires
        pairs.len() <= usize::MAX,
    ensures
        reported(known, seeded, pairs, order).contains(i) <==> {
            &&& i < pairs.len()
            &&& order.contains(pairs[i as int].0)
            &&& newly_keyed(known, seeded, pairs, i as int)
        },
    decreases order.len(),
{
    if order.len() > 0 {
        let front = order.drop_last();
        let g = order.last();
        lemma_reported_members(known, seeded, pairs, front, i);
        lemma_group_fresh_members(known_of(known, g), pairs, g, i);
        let r = reported(known, seeded, pairs, order);
        let rf = reported(known, seeded, pairs, front);
        let f = if seeded.contains(g) {
            fresh_in_group(known_of(known, g), pairs, indices_of(pairs, g, pairs.len()))
        } else {
            seq![]
        };
        assert(r == rf + f);
        assert(r.contains(i) <==> rf.contains(i) || f.contains(i)) by {
            if r.contains(i) {
                let k = choose|k: int| 0 <= k < r.len() && r[k] == i;
                if k < rf.len() {
                    assert(rf[k] == i);
                } else {
                    assert(f[k - rf.len()] == i);
                }
            }
            if rf.contains(i) {
                let k = choose|k: int| 0 <= k < rf.len() && rf[k] == i;
                assert(r[k] == i);
            }
            if f.contains(i) {
                let k = choose|k: int| 0 <= k < f.len() && f[k] == i;
                assert(r[rf.len() + k] == i);
            }
        }
        if i < pairs.len() {
            assert(order.contains(pairs[i as int].0) <==> front.contains(pairs[i as int].0) || pairs[i as int].0 == g)
                by {
                if order.contains(pairs[i as int].0) {
                    let k = choose|k: int| 0 <= k < order.len() && order[k] == pairs[i as int].0;
                    if k < front.len() {
                        assert(front[k] == order[k]);
                    }
                }
                if front.contains(pairs[i as int].0) {
                    let k = choose|k: int| 0 <= k < front.len() && front[k] == pairs[i as int].0;
                    assert(order[k] == front[k]);
                }
                assert(order[order.len() - 1] == g);
            }
        }
    }
}

proof fn lemma_reported_distinct(known: Map<u32, Set<u32>>, seeded: Set<u32>, pairs: Seq<(u32, u32)>, order: Seq<u32>)
    requires
        pairs.len() <= usize::MAX,
        order.no_duplicates(),
    ensures
        reported(known, seeded, pairs, order).no_duplicates(),
        forall|k: int| 0 <= k < reported(known, seeded, pairs, order).len() ==> {
            let i = #[trigger] reported(known, seeded, pairs, order)[k];
            i < pairs.len() && order.contains(pairs[i as int].0)
        },
    decreases order.len(),
{
    if order.len() > 0 {
        let front = order.drop_last();
        let g = order.last();
        assert(front.no_duplicates()) by {
            assert forall|a: int, b: int| 0 <= a < b < front.len() implies front[a] != front[b] by {
                assert(front[a] == order[a] && front[b] == order[b]);
            }
        }
        assert(!front.contains(g)) by {
            if front.contains(g) {
                let k = choose|k: int| 0 <= k < front.len() && front[k] == g;
                assert(order[k] == order[order.len() - 1]);
            }
        }
        lemma_reported_distinct(known, seeded, pairs, front);
        let idxs = indices_of(pairs, g, pairs.len());
        lemma_fresh_within(known_of(known, g), pairs, idxs);
        lemma_indices_of_bot(pairs, g, pairs.len());
        lemma_group_fresh_members(known_of(known, g), pairs, g, 0);
        let r = reported(known, seeded, pairs, order);
        let rf = reported(known, seeded, pairs, front);
        let f = if seeded.contains(g) {
            fresh_in_group(known_of(known, g), pairs, idxs)
        } else {
            seq![]
        };
        assert(r == rf + f);
        assert(increasing(f));
        assert forall|k: int| 0 <= k < f.len() implies f[k] < pairs.len() && pairs[f[k] as int].0 == g by {
            let q = choose|q: int| 0 <= q < idxs.len() && idxs[q] == f[k];
        }
        assert forall|k: int| 0 <= k < r.len() implies {
            let i = #[trigger] r[k];
            i < pairs.len() && order.contains(pairs[i as int].0)
        } by {
            if k < rf.len() {
                assert(r[k] == rf[k]);
                let i = rf[k];
                let q = choose|q: int| 0 <= q < front.len() && front[q] == pairs[i as int].0;
                assert(order[q] == front[q]);
            } else {
                assert(r[k] == f[k - rf.len()]);
                assert(order[order.len() - 1] == g);
            }
        }
        assert forall|a: int, b: int| 0 <= a < b < r.len() implies r[a] != r[b] by {
            if b < rf.len() {
                assert(r[a] == rf[a] && r[b] == rf[b]);
            } else if a >= rf.len() {
                assert(r[a] == f[a - rf.len()] && r[b] == f[b - rf.len()]);
            } else {
                assert(r[a] == rf[a] && r[b] == f[b - rf.len()]);
                assert(pairs[r[b] as int].0 == g);
                assert(front.contains(pairs[rf[a] as int].0));
            }
        }
    }
}

/// The known-set diff reports each new key once: the positions it reports
/// are, each once, the pairs whose bot was already seeded and whose key
/// that bot neither remembered nor had in an earlier pair.
pub proof fn law_new_keys_reported_once(known: Map<u32, Set<u32>>, seeded: Set<u32>, pairs: Seq<(u32, u32)>)
    requires
        pairs.len() <= usize::MAX,
    ensures
        new_key_positions(known, seeded, pairs).no_duplicates(),
        forall|k: int| 0 <= k < new_key_positions(known, seeded, pairs).len() ==> (#[trigger] new_key_positions(
            known,
            seeded,
            pairs,
        )[k]) < pairs.len(),
        forall|i: int| 0 <= i < pairs.len() ==> (#[trigger] new_key_positions(known, seeded, pairs).contains(i as usize)
            <==> newly_keyed(known, seeded, pairs, i)),
{
    let order = first_seen(pair_guids(pairs));
    lemma_first_seen_lists(pair_guids(pairs));
    lemma_reported_distinct(known, seeded, pairs, order);
    assert forall|i: int| 0 <= i < pairs.len() implies (#[trigger] new_key_positions(known, seeded, pairs).contains(
        i as usize,
    ) <==> newly_keyed(known, seeded, pairs, i)) by {
        lemma_reported_members(known, seeded, pairs, order, i as usize);
        assert(pair_guids(pairs)[i] == pairs[i].0);
        assert(pair_guids(pairs).to_set().contains(pairs[i].0));
        assert(order.to_set().contains(pairs[i].0));
    }
}

/// After the known-set diff, a bot knows exactly the keys it knew before
/// and the keys of its pairs.
pub proof fn law_known_keys_are_the_pairs_keys(known: Map<u32, Set<u32>>, pairs: Seq<(u32, u32)>, g: u32, x: u32)
    requires
        pairs.len() <= usize::MAX,
    ensures
        known_of(known_keys_after(known, pairs), g).contains(x) <==> known_of(known, g).contains(x) || exists|i: int|
            0 <= i < pairs.len() && pairs[i].0 == g && pairs[i].1 == x,
{
    let order = first_seen(pair_guids(pairs));
    lemma_first_seen_lists(pair_guids(pairs));
    if order.contains(g) {
        let idxs = indices_of(pairs, g, pairs.len());
        lemma_known_after_at(known, pairs, order, g);
        lemma_keys_after_members(known_of(known, g), pairs, idxs, x);
        lemma_indices_of_members(pairs, g, pairs.len());
        lemma_indices_of_bot(pairs, g, pairs.len());
        if exists|k: int| 0 <= k < idxs.len() && pairs[idxs[k] as int].1 == x {
            let k = choose|k: int| 0 <= k < idxs.len() && pairs[idxs[k] as int].1 == x;
            let i = idxs[k] as int;
            assert(0 <= i < pairs.len() && pairs[i].0 == g && pairs[i].1 == x);
        }
        if exists|i: int| 0 <= i < pairs.len() && pairs[i].0 == g && pairs[i].1 == x {
            let i = choose|i: int| 0 <= i < pairs.len() && pairs[i].0 == g && pairs[i].1 == x;
            assert(idxs.contains(i as usize));
            let k = choose|k: int| 0 <= k < idxs.len() && idxs[k] == i as usize;
            assert(pairs[idxs[k] as int].1 == x);
        }
    } else {
        lemma_known_after_other(known, pairs, order, g);
        assert(!order.to_set().contains(g));
        if exists|i: int| 0 <= i < pairs.len() && pairs[i].0 == g && pairs[i].1 == x {
            let i = choose|i: int| 0 <= i < pairs.len() && pairs[i].0 == g && pairs[i].1 == x;
            assert(pair_guids(pairs)[i] == g);
            assert(pair_guids(pairs).to_set().contains(g));
        }
    }
}

/// Notable items are remembered by item copy (`item_guid`), whatever their
/// quality or name: of the rows of one read, each row whose bot was already
/// seeded and whose item copy that bot neither held before nor had in an
/// earlier row is narrated once, as an `ItemFound` of that row, and no
/// other row is; afterwards each bot holds exactly the copies it held and
/// those of its rows.
pub proof fn law_new_item_copies_are_narrated_once(prev: PollerView, rows: Seq<LootRow>)
    requires
        rows.len() <= usize::MAX,
    ensures
        ({
            let found = new_key_positions(prev.known_items, prev.seeded_item_guids, loot_pairs(rows));
            &&& loot_events(prev, rows).len() == found.len()
            &&& forall|k: int| 0 <= k < found.len() ==> found[k] < rows.len() && #[trigger] loot_events(prev, rows)[k]
                == loot_event(prev, rows[found[k] as int])
            &&& found.no_duplicates()
            &&& forall|i: int| 0 <= i < rows.len() ==> (#[trigger] found.contains(i as usize) <==> {
                &&& prev.seeded_item_guids.contains(rows[i].guid)
                &&& !known_of(prev.known_items, rows[i].guid).contains(rows[i].item_guid)
                &&& forall|j: int| 0 <= j < i && rows[j].guid == rows[i].guid ==> rows[j].item_guid != rows[i].item_guid
            })
        }),
        forall|g: u32, x: u32| #[trigger] known_of(known_keys_after(prev.known_items, loot_pairs(rows)), g).contains(x) <==> (
        known_of(prev.known_items, g).contains(x) || exists|i: int| 0 <= i < rows.len() && rows[i].guid == g && rows[i].item_guid == x),
{
    let pairs = loot_pairs(rows);
    let found = new_key_positions(prev.known_items, prev.seeded_item_guids, pairs);
    law_new_keys_reported_once(prev.known_items, prev.seeded_item_guids, pairs);
    assert forall|i: int| 0 <= i < rows.len() implies pairs[i] == (rows[i].guid, rows[i].item_guid) by {}
    assert forall|i: int| 0 <= i < rows.len() implies (#[trigger] found.contains(i as usize) <==> {
        &&& prev.seeded_item_guids.contains(rows[i].guid)
        &&& !known_of(prev.known_items, rows[i].guid).contains(rows[i].item_guid)
        &&& forall|j: int| 0 <= j < i && rows[j].guid == rows[i].guid ==> rows[j].item_guid != rows[i].item_guid
    }) by {
        assert(newly_keyed(prev.known_items, prev.seeded_item_guids, pairs, i) <==> {
            &&& prev.seeded_item_guids.contains(rows[i].guid)
            &&& !known_of(prev.known_items, rows[i].guid).contains(rows[i].item_guid)
            &&& forall|j: int| 0 <= j < i && rows[j].guid == rows[i].guid ==> rows[j].item_guid != rows[i].item_guid
        }) by {
            let by_pairs = forall|j: int| 0 <= j < i && pairs[j].0 == pairs[i].0 ==> pairs[j].1 != pairs[i].1;
            let by_rows = forall|j: int| 0 <= j < i && rows[j].guid == rows[i].guid ==> rows[j].item_guid != rows[i].item_guid;
            if by_pairs {
                assert forall|j: int| 0 <= j < i && rows[j].guid == rows[i].guid implies rows[j].item_guid != rows[i].item_guid by {
                    assert(pairs[j] == (rows[j].guid, rows[j].item_guid));
                }
            }
            if by_rows {
                assert forall|j: int| 0 <= j < i && pairs[j].0 == pairs[i].0 implies pairs[j].1 != pairs[i].1 by {
                    assert(pairs[j] == (rows[j].guid, rows[j].item_guid));
                }
            }
            assert(pairs[i] == (rows[i].guid, rows[i].item_guid));
        }
    }
    assert forall|g: u32, x: u32| #[trigger] known_of(known_keys_after(prev.known_items, pairs), g).contains(x) <==> (
    known_of(prev.known_items, g).contains(x) || exists|i: int| 0 <= i < rows.len() && rows[i].guid == g && rows[i].item_guid == x) by {
        law_known_keys_are_the_pairs_keys(prev.known_items, pairs, g, x);
        if exists|i: int| 0 <= i < pairs.len() && pairs[i].0 == g && pairs[i].1 == x {
            let i = choose|i: int| 0 <= i < pairs.len() && pairs[i].0 == g && pairs[i].1 == x;
            assert(rows[i].guid == g && rows[i].item_guid == x);
        }
        if exists|i: int| 0 <= i < rows.len() && rows[i].guid == g && rows[i].item_guid == x {
            let i = choose|i: int| 0 <= i < rows.len() && rows[i].guid == g && rows[i].item_guid == x;
            assert(pairs[i].0 == g && pairs[i].1 == x);
        }
    }
}

/// Rewarded quests are remembered by quest id: of the rows of one read, each
/// row whose bot was already seeded and whose quest that bot neither had
/// before nor had in an earlier row is narrated once, as a
/// `QuestCompleted` of that row, and no other row is; afterwards each bot
/// has exactly the quests it had and those of its rows.
pub proof fn law_new_quests_are_narrated_once(prev: PollerView, rows: Seq<QuestCompletionRow>)
    requires
        rows.len() <= usize::MAX,
    ensures
        ({
            let found = new_key_positions(prev.known_quests, prev.seeded_quest_guids, quest_pairs(rows));
            &&& quest_events(prev, rows).len() == found.len()
            &&& forall|k: int| 0 <= k < found.len() ==> found[k] < rows.len() && #[trigger] quest_events(prev, rows)[k]
                == quest_event(prev, rows[found[k] as int])
            &&& found.no_duplicates()
            &&& forall|i: int| 0 <= i < rows.len() ==> (#[trigger] found.contains(i as usize) <==> {
                &&& prev.seeded_quest_guids.contains(rows[i].guid)
                &&& !known_of(prev.known_quests, rows[i].guid).contains(rows[i].quest)
                &&& forall|j: int| 0 <= j < i && rows[j].guid == rows[i].guid ==> rows[j].quest != rows[i].quest
            })
        }),
        forall|g: u32, x: u32| #[trigger] known_of(known_keys_after(prev.known_quests, quest_pairs(rows)), g).contains(x) <==> (
        known_of(prev.known_quests, g).contains(x) || exists|i: int| 0 <= i < rows.len() && rows[i].guid == g && rows[i].quest == x),
{
    let pairs = quest_pairs(rows);
    let found = new_key_positions(prev.known_quests, prev.seeded_quest_guids, pairs);
    law_new_keys_reported_once(prev.known_quests, prev.seeded_quest_guids, pairs);
    assert forall|i: int| 0 <= i < rows.len() implies pairs[i] == (rows[i].guid, rows[i].quest) by {}
    assert forall|i: int| 0 <= i < rows.len() implies (#[trigger] found.contains(i as usize) <==> {
        &&& prev.seeded_quest_guids.contains(rows[i].guid)
        &&& !known_of(prev.known_quests, rows[i].guid).contains(rows[i].quest)
        &&& forall|j: int| 0 <= j < i && rows[j].guid == rows[i].guid ==> rows[j].quest != rows[i].quest
    }) by {
        assert(newly_keyed(prev.known_quests, prev.seeded_quest_guids, pairs, i) <==> {
            &&& prev.seeded_quest_guids.contains(rows[i].guid)
            &&& !known_of(prev.known_quests, rows[i].guid).contains(rows[i].quest)
            &&& forall|j: int| 0 <= j < i && rows[j].guid == rows[i].guid ==> rows[j].quest != rows[i].quest
        }) by {
            let by_pairs = forall|j: int| 0 <= j < i && pairs[j].0 == pairs[i].0 ==> pairs[j].1 != pairs[i].1;
            let by_rows = forall|j: int| 0 <= j < i && rows[j].guid == rows[i].guid ==> rows[j].quest != rows[i].quest;
            if by_pairs {
                assert forall|j: int| 0 <= j < i && rows[j].guid == rows[i].guid implies rows[j].quest != rows[i].quest by {
                    assert(pairs[j] == (rows[j].guid, rows[j].quest));
                }
            }
            if by_rows {
                assert forall|j: int| 0 <= j < i && pairs[j].0 == pairs[i].0 implies pairs[j].1 != pairs[i].1 by {
                    assert(pairs[j] == (rows[j].guid, rows[j].quest));
                }
            }
            assert(pairs[i] == (rows[i].guid, rows[i].quest));
        }
    }
    assert forall|g: u32, x: u32| #[trigger] known_of(known_keys_after(prev.known_quests, pairs), g).contains(x) <==> (
    known_of(prev.known_quests, g).contains(x) || exists|i: int| 0 <= i < rows.len() && rows[i].guid == g && rows[i].quest == x) by {
        law_known_keys_are_the_pairs_keys(prev.known_quests, pairs, g, x);
        if exists|i: int| 0 <= i < pairs.len() && pairs[i].0 == g && pairs[i].1 == x {
            let i = choose|i: int| 0 <= i < pairs.len() && pairs[i].0 == g && pairs[i].1 == x;
            assert(rows[i].guid == g && rows[i].quest == x);
        }
        if exists|i: int| 0 <= i < rows.len() && rows[i].guid == g && rows[i].quest == x {
            let i = choose|i: int| 0 <= i < rows.len() && rows[i].guid == g && rows[i].quest == x;
            assert(pairs[i].0 == g && pairs[i].1 == x);
        }
    }
}

// ---------------------------------------------------------------------
// Gathering skills
pub open spec fn dominates(values: Map<u64, u16>, rows: Seq<SkillRow>) -> bool {
    forall|i: int| #![trigger rows[i]] 0 <= i < rows.len() ==> values.contains_key(skill_key(rows[i].guid, rows[i].skill))
        && values[skill_key(rows[i].guid, rows[i].skill)] >= rows[i].value
}

proof fn lemma_skill_values_dominate(values: Map<u64, u16>, rows: Seq<SkillRow>)
    ensures
        dominates(skill_values_after(values, rows), rows),
        forall|k: u64| #[trigger] values.contains_key(k) ==> skill_values_after(values, rows).contains_key(k)
            && skill_values_after(values, rows)[k] >= values[k],
    decreases rows.len(),
{
    if rows.len() > 0 {
        let front = rows.drop_last();
        lemma_skill_values_dominate(values, front);
        let before = skill_values_after(values, front);
        let after = skill_values_after(values, rows);
        assert(forall|k: u64| #[trigger] before.contains_key(k) ==> after.contains_key(k) && after[k] >= before[k]);
        assert forall|i: int| #![trigger rows[i]] 0 <= i < rows.len() implies after.contains_key(
            skill_key(rows[i].guid, rows[i].skill),
        ) && after[skill_key(rows[i].guid, rows[i].skill)] >= rows[i].value by {
            if i < rows.len() - 1 {
                assert(front[i] == rows[i]);
            }
        }
    }
}

proof fn lemma_skill_settled(prev: PollerView, values: Map<u64, u16>, rows: Seq<SkillRow>, all: Seq<SkillRow>)
    requires
        dominates(values, all),
        rows.len() <= all.len(),
        rows == all.take(rows.len() as int),
    ensures
        skill_values_after(values, rows) == values,
        skill_events(prev, values, rows) == Seq::<EventView>::empty(),
    decreases rows.len(),
{
    if rows.len() > 0 {
        let front = rows.drop_last();
        assert(front =~= all.take(front.len() as int));
        lemma_skill_settled(prev, values, front, all);
        assert(rows.last() == all[rows.len() - 1]);
        assert(skill_events(prev, values, rows) =~= Seq::<EventView>::empty());
    }
}

/// Reading the same skill rows twice in a row narrates no skill-up the
/// second time.
pub proof fn law_skill_ups_settle(prev: PollerView, values: Map<u64, u16>, rows: Seq<SkillRow>)
    ensures
        skill_events(prev, skill_values_after(values, rows), rows) == Seq::<EventView>::empty(),
{
    lemma_skill_values_dominate(values, rows);
    assert(rows =~= rows.take(rows.len() as int));
    lemma_skill_settled(prev, skill_values_after(values, rows), rows, rows);
}

/// Skill values are remembered per character and per skill: two
/// characters, or two skills of one character, never share a key.
pub proof fn law_skill_keys_are_per_character(g1: u32, s1: u16, g2: u32, s2: u16)
    ensures
        skill_key(g1, s1) == skill_key(g2, s2) <==> (g1 == g2 && s1 == s2),
{
    let a: int = g1 as int * 65536 + s1 as int;
    let b: int = g2 as int * 65536 + s2 as int;
    assert(0 <= a <= u64::MAX && 0 <= b <= u64::MAX) by (nonlinear_arith)
        requires
            a == g1 as int * 65536 + s1 as int,
            b == g2 as int * 65536 + s2 as int,
            g1 <= u32::MAX,
            g2 <= u32::MAX,
            s1 <= u16::MAX,
            s2 <= u16::MAX,
    ;
    assert(a == b ==> g1 == g2 && s1 == s2) by (nonlinear_arith)
        requires
            a == g1 as int * 65536 + s1 as int,
            b == g2 as int * 65536 + s2 as int,
            0 <= s1 < 65536,
            0 <= s2 < 65536,
    ;
}

proof fn lemma_skill_values_keys(values: Map<u64, u16>, rows: Seq<SkillRow>, k: u64)
    requires
        skill_values_after(values, rows).contains_key(k),
    ensures
        values.contains_key(k) || exists|i: int| 0 <= i < rows.len() && skill_key(rows[i].guid, rows[i].skill) == k,
    decreases rows.len(),
{
    if rows.len() > 0 {
        let front = rows.drop_last();
        let r = rows.last();
        if skill_key(r.guid, r.skill) != k {
            lemma_skill_values_keys(values, front, k);
            if !values.contains_key(k) {
                let i = choose|i: int| 0 <= i < front.len() && skill_key(front[i].guid, front[i].skill) == k;
                assert(rows[i] == front[i]);
            }
        } else {
            assert(skill_key(rows[rows.len() - 1].guid, rows[rows.len() - 1].skill) == k);
        }
    }
}

/// A character's first reading of a skill is remembered silently: starting
/// from no remembered value, rows that each name another (character, skill)
/// narrate no skill-up, whatever values they carry.
pub proof fn law_first_skill_readings_are_silent(prev: PollerView, rows: Seq<SkillRow>)
    requires
        forall|i: int, j: int|
            #![trigger rows[i], rows[j]]
            0 <= i < j < rows.len() ==> !(rows[i].guid == rows[j].guid && rows[i].skill == rows[j].skill),
    ensures
        skill_events(prev, Map::empty(), rows) == Seq::<EventView>::empty(),
    decreases rows.len(),
{
    if rows.len() > 0 {
        let front = rows.drop_last();
        let r = rows.last();
        assert forall|i: int, j: int| #![trigger front[i], front[j]] 0 <= i < j < front.len() implies !(front[i].guid
            == front[j].guid && front[i].skill == front[j].skill) by {
            assert(front[i] == rows[i] && front[j] == rows[j]);
        }
        law_first_skill_readings_are_silent(prev, front);
        let k = skill_key(r.guid, r.skill);
        if skill_values_after(Map::empty(), front).contains_key(k) {
            lemma_skill_values_keys(Map::empty(), front, k);
            let i = choose|i: int| 0 <= i < front.len() && skill_key(front[i].guid, front[i].skill) == k;
            law_skill_keys_are_per_character(front[i].guid, front[i].skill, r.guid, r.skill);
            assert(front[i] == rows[i]);
            assert(rows[rows.len() - 1] == r);
            assert(false);
        }
        assert(skill_events(prev, Map::empty(), rows) =~= Seq::<EventView>::empty());
    }
}

/// One skill reading against what is remembered: it narrates a skill-up
/// exactly when the same character's value for the same skill is
/// remembered and the reading is higher, and the reading is remembered when
/// it is the first for that character and skill or a rise.
pub proof fn law_skill_up_only_on_a_rise(prev: PollerView, values: Map<u64, u16>, r: SkillRow)
    ensures
        ({
            let k = skill_key(r.guid, r.skill);
            let rose = values.contains_key(k) && r.value > values[k];
            &&& skill_events(prev, values, seq![r]) == if rose {
                seq![EventView::SkillUp {
                    guid: r.guid,
                    name: character_label(prev.characters, r.guid, r.guid as nat),
                    skill_name: gathering_skill_label(r.skill),
                    new_value: r.value,
                }]
            } else {
                Seq::<EventView>::empty()
            }
            &&& skill_values_after(values, seq![r]) == if !values.contains_key(k) || rose {
                values.insert(k, r.value)
            } else {
                values
            }
        }),
{
    let rows = seq![r];
    assert(rows.drop_last() =~= Seq::<SkillRow>::empty());
    assert(rows.last() == r);
    assert(skill_events(prev, values, rows.drop_last()) == Seq::<EventView>::empty());
    assert(skill_events(prev, values, rows) =~= skill_events(prev, values, rows.drop_last()) + if values.contains_key(
        skill_key(r.guid, r.skill),
    ) && r.value > values[skill_key(r.guid, r.skill)] {
        seq![EventView::SkillUp {
            guid: r.guid,
            name: character_label(prev.characters, r.guid, r.guid as nat),
            skill_name: gathering_skill_label(r.skill),
            new_value: r.value,
        }]
    } else {
        Seq::<EventView>::empty()
    });
}

// ---------------------------------------------------------------------
// Groups
proof fn lemma_formed_none(prev: PollerView, now: Map<u32, Seq<u32>>, order: Seq<u32>)
    requires
        forall|k: int| 0 <= k < order.len() ==> prev.groups.contains_key(#[trigger] order[k]),
    ensures
        formed_events(prev, now, order) == Seq::<EventView>::empty(),
    decreases order.len(),
{
    if order.len() > 0 {
        lemma_formed_none(prev, now, order.drop_last());
        assert(prev.groups.contains_key(order[order.len() - 1]));
        assert(formed_events(prev, now, order) =~= Seq::<EventView>::empty());
    }
}

proof fn lemma_disbanded_none(prev: PollerView, now: Map<u32, Seq<u32>>, order: Seq<u32>)
    requires
        forall|k: int| 0 <= k < order.len() ==> now.contains_key(#[trigger] order[k]),
    ensures
        disbanded_events(prev, now, order) == Seq::<EventView>::empty(),
    decreases order.len(),
{
    if order.len() > 0 {
        lemma_disbanded_none(prev, now, order.drop_last());
        assert(now.contains_key(order[order.len() - 1]));
        assert(disbanded_events(prev, now, order) =~= Seq::<EventView>::empty());
    }
}

/// Reading the same group memberships twice in a row narrates no group
/// forming or disbanding the second time.
pub proof fn law_groups_settle(prev: PollerView, now: Map<u32, Seq<u32>>, rows: Seq<GroupMemberRow>)
    requires
        groups_of_rows(prev.groups, rows),
        prev.group_order == first_seen(group_ids(rows)),
        groups_of_rows(now, rows),
    ensures
        group_events(prev, now, first_seen(group_ids(rows))) == Seq::<EventView>::empty(),
{
    let order = first_seen(group_ids(rows));
    lemma_first_seen_lists(group_ids(rows));
    assert forall|k: int| 0 <= k < order.len() implies prev.groups.contains_key(#[trigger] order[k]) && now.contains_key(
        order[k],
    ) by {
        assert(order.contains(order[k]));
        assert(order.to_set().contains(order[k]));
    }
    lemma_formed_none(prev, now, order);
    lemma_disbanded_none(prev, now, order);
    assert(group_events(prev, now, order) =~= Seq::<EventView>::empty());
}

// ---------------------------------------------------------------------
// Roster
/// The roster lists every remembered (online) character exactly once, in
/// snapshot order.
pub proof fn law_roster_lists_each_character_once(s: PollerView, names: NameTablesView)
    requires
        s.wf(),
    ensures
        roster(s, names).len() == s.online.len(),
        forall|k: int| 0 <= k < s.online.len() ==> (#[trigger] roster(s, names)[k]).guid == s.online[k]
            && s.characters.contains_key(s.online[k]),
        s.online.no_duplicates(),
        s.online.to_set() == s.characters.dom(),
{
    assert forall|k: int| 0 <= k < s.online.len() implies (#[trigger] roster(s, names)[k]).guid == s.online[k]
        && s.characters.contains_key(s.online[k]) by {
        assert(roster(s, names)[k] == roster_entry(s, names, s.online[k]));
        assert(s.online.contains(s.online[k]));
        assert(s.online.to_set().contains(s.online[k]));
    }
}

proof fn lemma_first_seen_of_distinct(ids: Seq<u32>)
    requires
        ids.no_duplicates(),
    ensures
        first_seen(ids) == ids,
    decreases ids.len(),
{
    if ids.len() > 0 {
        let front = ids.drop_last();
        assert(front.no_duplicates()) by {
            assert forall|a: int, b: int| 0 <= a < b < front.len() implies front[a] != front[b] by {
                assert(front[a] == ids[a] && front[b] == ids[b]);
            }
        }
        lemma_first_seen_of_distinct(front);
        assert(!front.contains(ids.last())) by {
            if front.contains(ids.last()) {
                let k = choose|k: int| 0 <= k < front.len() && front[k] == ids.last();
                assert(ids[k] == ids[ids.len() - 1]);
            }
        }
        assert(front.push(ids.last()) =~= ids);
    }
}

/// After a character diff, the roster shows each character as its row was
/// read, in row order: its name, race, class and level, the continent it is on (`map`,
/// with that map's name), the zone's name and its position, when no
/// character is listed twice.
pub proof fn law_roster_shows_characters_as_read(s: PollerView, names: NameTablesView, rows: Seq<CharacterRow>)
    requires
        row_guids(rows).no_duplicates(),
    ensures
        roster(after_characters(s, rows), names).len() == rows.len(),
        forall|k: int| 0 <= k < rows.len() ==> {
            let e = #[trigger] roster(after_characters(s, rows), names)[k];
            &&& e.guid == rows[k].guid
            &&& e.name == rows[k].name@
            &&& e.race == race_label(rows[k].race)
            &&& e.class == class_label(rows[k].class)
            &&& e.level == rows[k].level
            &&& e.map == rows[k].map
            &&& e.map_name == names.map_label(rows[k].map as u32)
            &&& e.zone_name == names.zone_label(rows[k].zone as u32)
            &&& e.position_x_bits == rows[k].position_x_bits
            &&& e.position_y_bits == rows[k].position_y_bits
        },
{
    let t = after_characters(s, rows);
    lemma_first_seen_of_distinct(row_guids(rows));
    assert forall|k: int| 0 <= k < rows.len() implies {
        let e = #[trigger] roster(t, names)[k];
        &&& e.guid == rows[k].guid
        &&& e.name == rows[k].name@
        &&& e.race == race_label(rows[k].race)
        &&& e.class == class_label(rows[k].class)
        &&& e.level == rows[k].level
        &&& e.map == rows[k].map
        &&& e.map_name == names.map_label(rows[k].map as u32)
        &&& e.zone_name == names.zone_label(rows[k].zone as u32)
        &&& e.position_x_bits == rows[k].position_x_bits
        &&& e.position_y_bits == rows[k].position_y_bits
    } by {
        assert(t.online[k] == rows[k].guid);
        assert(roster(t, names)[k] == roster_entry(t, names, rows[k].guid));
        lemma_snapshot_map_at(rows, k);
    }
}

} // verus!
