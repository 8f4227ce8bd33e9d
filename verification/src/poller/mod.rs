//! The poller's memory between ticks and the decisions of one poll tick:
//! each stage takes what one query returned and gives the events it
//! narrates, updating the state it diffs against.

use std::collections::{HashMap, HashSet};
use vstd::prelude::*;

pub mod describe;
pub mod guilds;
pub mod characters;
pub mod feeds;
pub mod skills;
pub mod known;
pub mod holdings;
pub mod groups;
pub mod roster;
pub mod laws;
pub mod tick;

verus! {

broadcast use vstd::std_specs::hash::group_hash_axioms;

/// What the poller remembers of one online character.
#[derive(Debug, Clone)]
pub struct CharacterSnapshot {
    pub name: String,
    pub race: u8,
    pub class: u8,
    pub level: u8,
    pub zone: u16,
    pub health: u32,
    pub map: u16,
    pub position_x_bits: u32,
    pub position_y_bits: u32,
}

/// A `CharacterSnapshot` with its name as a character sequence.
pub struct SnapshotView {
    pub name: Seq<char>,
    pub race: u8,
    pub class: u8,
    pub level: u8,
    pub zone: u16,
    pub health: u32,
    pub map: u16,
    pub position_x_bits: u32,
    pub position_y_bits: u32,
}

impl View for CharacterSnapshot {
    type V = SnapshotView;

    open spec fn view(&self) -> SnapshotView {
        SnapshotView {
            name: self.name@,
            race: self.race,
            class: self.class,
            level: self.level,
            zone: self.zone,
            health: self.health,
            map: self.map,
            position_x_bits: self.position_x_bits,
            position_y_bits: self.position_y_bits,
        }
    }
}

/// A map keyed by id, with the order in which its keys came.
struct Keyed<V> {
    map: HashMap<u32, V>,
    order: Vec<u32>,
}

impl<V> Keyed<V> {
    /// The order lists the map's keys, each once.
    #[verifier::type_invariant]
    spec fn order_lists_keys(self) -> bool {
        lists_keys(self.order@, self.map@.dom())
    }
}

/// The poller's memory between ticks.
pub struct PollerState {
    characters: Keyed<CharacterSnapshot>,
    last_achievement_epoch: i64,
    last_guild_event_epoch: i64,
    last_boss_kill_epoch: i64,
    last_chat_id: u64,
    groups: Keyed<Vec<u32>>,
    guild_names: HashMap<u32, String>,
    known_quests: HashMap<u32, HashSet<u32>>,
    seeded_quest_guids: HashSet<u32>,
    known_items: HashMap<u32, HashSet<u32>>,
    seeded_item_guids: HashSet<u32>,
    skill_values: HashMap<u64, u16>,
    first_tick: bool,
}

/// What the poller remembers, as mathematical values.
///
/// `online` lists the characters of the last snapshot in the order the
/// snapshot first listed them; `group_order` does the same for groups.
/// Gathering skill values are keyed by `skill_key(guid, skill)`.
pub struct PollerView {
    pub characters: Map<u32, SnapshotView>,
    pub online: Seq<u32>,
    pub last_achievement_epoch: i64,
    pub last_guild_event_epoch: i64,
    pub last_boss_kill_epoch: i64,
    pub last_chat_id: u64,
    pub groups: Map<u32, Seq<u32>>,
    pub group_order: Seq<u32>,
    pub guild_names: Map<u32, Seq<char>>,
    pub known_quests: Map<u32, Set<u32>>,
    pub seeded_quest_guids: Set<u32>,
    pub known_items: Map<u32, Set<u32>>,
    pub seeded_item_guids: Set<u32>,
    pub skill_values: Map<u64, u16>,
    pub first_tick: bool,
}

/// The key under which a character's gathering skill value is kept.
pub open spec fn skill_key(guid: u32, skill: u16) -> u64 {
    ((guid as int) * 65536 + (skill as int)) as u64
}

/// `order` lists the keys of `dom`, each once.
pub open spec fn lists_keys(order: Seq<u32>, dom: Set<u32>) -> bool {
    order.no_duplicates() && order.to_set() == dom
}

/// Appending a new key keeps `lists_keys`, with the key added.
pub proof fn lemma_lists_keys_push(order: Seq<u32>, dom: Set<u32>, x: u32)
    requires
        lists_keys(order, dom),
        !dom.contains(x),
    ensures
        lists_keys(order.push(x), dom.insert(x)),
{
    assert(!order.contains(x));
    assert forall|y: u32| order.push(x).contains(y) <==> dom.insert(x).contains(y) by {
        if order.push(x).contains(y) {
            let k = choose|k: int| 0 <= k < order.push(x).len() && order.push(x)[k] == y;
            if k < order.len() {
                assert(order[k] == y);
                assert(order.contains(y));
            }
        }
        if order.contains(y) {
            let k = choose|k: int| 0 <= k < order.len() && order[k] == y;
            assert(order.push(x)[k] == y);
        }
        assert(order.push(x)[order.len() as int] == x);
    }
    assert(order.push(x).to_set() =~= dom.insert(x));
}

/// The empty order lists the empty domain.
pub proof fn lemma_lists_keys_empty()
    ensures
        lists_keys(Seq::<u32>::empty(), Set::<u32>::empty()),
{
    assert(Seq::<u32>::empty().to_set() =~= Set::<u32>::empty());
}

pub open spec fn snapshots_view(m: Map<u32, CharacterSnapshot>) -> Map<u32, SnapshotView> {
    m.map_values(|c: CharacterSnapshot| c@)
}

pub open spec fn id_lists_view(m: Map<u32, Vec<u32>>) -> Map<u32, Seq<u32>> {
    m.map_values(|v: Vec<u32>| v@)
}

pub open spec fn id_sets_view(m: Map<u32, HashSet<u32>>) -> Map<u32, Set<u32>> {
    m.map_values(|s: HashSet<u32>| s@)
}

impl View for PollerState {
    type V = PollerView;

    closed spec fn view(&self) -> PollerView {
        PollerView {
            characters: snapshots_view(self.characters.map@),
            online: self.characters.order@,
            last_achievement_epoch: self.last_achievement_epoch,
            last_guild_event_epoch: self.last_guild_event_epoch,
            last_boss_kill_epoch: self.last_boss_kill_epoch,
            last_chat_id: self.last_chat_id,
            groups: id_lists_view(self.groups.map@),
            group_order: self.groups.order@,
            guild_names: crate::names::name_map_view(self.guild_names@),
            known_quests: id_sets_view(self.known_quests@),
            seeded_quest_guids: self.seeded_quest_guids@,
            known_items: id_sets_view(self.known_items@),
            seeded_item_guids: self.seeded_item_guids@,
            skill_values: self.skill_values@,
            first_tick: self.first_tick,
        }
    }
}

impl PollerView {
    /// The character and group orders list exactly the remembered
    /// characters and groups.
    pub open spec fn wf(self) -> bool {
        &&& lists_keys(self.online, self.characters.dom())
        &&& lists_keys(self.group_order, self.groups.dom())
    }
}

/// How a character is named in an event: by its remembered name, or as
/// "Character #" and `shown` when it is not in the snapshot.
pub open spec fn character_label(characters: Map<u32, SnapshotView>, guid: u32, shown: nat) -> Seq<char> {
    if characters.contains_key(guid) {
        characters[guid].name
    } else {
        crate::text::numbered("Character #"@, shown)
    }
}

impl PollerState {
    /// The remembered characters and groups are listed by their orders
    /// (the orders' type invariant, seen through the view).
    pub(crate) fn view_is_wf(&self)
        ensures
            self@.wf(),
    {
        proof {
            use_type_invariant(&self.characters);
            use_type_invariant(&self.groups);
            assert(self@.characters.dom() =~= self.characters.map@.dom());
            assert(self@.groups.dom() =~= self.groups.map@.dom());
        }
    }

    /// The remembered name of `guid`, or "Character #" and `shown`.
    pub(crate) fn character_name(&self, guid: u32, shown: u64) -> (name: String)
        ensures
            name@ == character_label(self@.characters, guid, shown as nat),
    {
        match self.characters.map.get(&guid) {
            Some(c) => c.name.clone(),
            None => crate::text::numbered_label("Character #", shown),
        }
    }

    /// A state from before the first tick. The achievement, guild-event and
    /// boss-kill cursors start at `now` (a Unix time), so that the first
    /// tick does not narrate the whole history; the chat cursor starts at 0.
    pub fn new(now: i64) -> (state: Self)
        ensures
            state@.wf(),
            state@.characters == Map::<u32, SnapshotView>::empty(),
            state@.online == Seq::<u32>::empty(),
            state@.last_achievement_epoch == now,
            state@.last_guild_event_epoch == now,
            state@.last_boss_kill_epoch == now,
            state@.last_chat_id == 0,
            state@.groups == Map::<u32, Seq<u32>>::empty(),
            state@.group_order == Seq::<u32>::empty(),
            state@.guild_names == Map::<u32, Seq<char>>::empty(),
            state@.known_quests == Map::<u32, Set<u32>>::empty(),
            state@.seeded_quest_guids == Set::<u32>::empty(),
            state@.known_items == Map::<u32, Set<u32>>::empty(),
            state@.seeded_item_guids == Set::<u32>::empty(),
            state@.skill_values == Map::<u64, u16>::empty(),
            state@.first_tick,
    {
        let characters_map: HashMap<u32, CharacterSnapshot> = HashMap::new();
        let groups_map: HashMap<u32, Vec<u32>> = HashMap::new();
        proof {
            lemma_lists_keys_empty();
            assert(characters_map@.dom() =~= Set::<u32>::empty());
            assert(groups_map@.dom() =~= Set::<u32>::empty());
        }
        let state = PollerState {
            characters: Keyed { map: characters_map, order: Vec::new() },
            last_achievement_epoch: now,
            last_guild_event_epoch: now,
            last_boss_kill_epoch: now,
            last_chat_id: 0,
            groups: Keyed { map: groups_map, order: Vec::new() },
            guild_names: HashMap::new(),
            known_quests: HashMap::new(),
            seeded_quest_guids: HashSet::new(),
            known_items: HashMap::new(),
            seeded_item_guids: HashSet::new(),
            skill_values: HashMap::new(),
            first_tick: true,
        };
        proof {
            assert(state@.characters =~= Map::<u32, SnapshotView>::empty());
            assert(state@.groups =~= Map::<u32, Seq<u32>>::empty());
            assert(state@.guild_names =~= Map::<u32, Seq<char>>::empty());
            assert(state@.known_quests =~= Map::<u32, Set<u32>>::empty());
            assert(state@.known_items =~= Map::<u32, Set<u32>>::empty());
            assert(state.characters.order@.to_set() =~= Set::<u32>::empty());
            assert(state.groups.order@.to_set() =~= Set::<u32>::empty());
        }
        state
    }

    /// The Unix time after which achievements are still to be narrated.
    pub fn last_achievement_epoch(&self) -> (epoch: i64)
        ensures
            epoch == self@.last_achievement_epoch,
    {
        self.last_achievement_epoch
    }

    /// The Unix time after which guild events are still to be narrated.
    pub fn last_guild_event_epoch(&self) -> (epoch: i64)
        ensures
            epoch == self@.last_guild_event_epoch,
    {
        self.last_guild_event_epoch
    }

    /// The Unix time after which boss kills are still to be narrated.
    pub fn last_boss_kill_epoch(&self) -> (epoch: i64)
        ensures
            epoch == self@.last_boss_kill_epoch,
    {
        self.last_boss_kill_epoch
    }

    /// The chat id after which exchanges are still to be narrated.
    pub fn last_chat_id(&self) -> (id: u64)
        ensures
            id == self@.last_chat_id,
    {
        self.last_chat_id
    }

    /// Whether no tick has completed yet.
    pub fn is_first_tick(&self) -> (first: bool)
        ensures
            first == self@.first_tick,
    {
        self.first_tick
    }
}

} // verus!
