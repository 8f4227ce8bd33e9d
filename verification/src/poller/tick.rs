//! One poll tick as a step machine: the tick says which query to run next
//! (with the cursors and online characters it depends on), takes that
//! query's rows, and hands them to the matching stage. Running the queries
//! is left to the caller; the order and what each query is asked are
//! decided here. A tick whose query fails is simply dropped: the stages it
//! already ran keep what they remembered.

use vstd::prelude::*;

use crate::db::{
    AchievementRow, BossKillRow, CharacterRow, ChatRow, GroupMemberRow, GuildEventRow, GuildNameRow, LootRow,
    QuestCompletionRow, SkillRow,
};
use crate::events::{events_view, roster_view, Event, EventView, RosterEntry};
use crate::names::{NameTables, NameTablesView};
use crate::poller::characters::{after_characters, character_events, first_seen, row_guids};
use crate::poller::feeds::{
    achievement_cursor, achievement_events, boss_kill_cursor, boss_kill_events, chat_cursor, chat_events,
    guild_event_cursor, guild_events,
};
use crate::poller::groups::{group_events, group_ids, groups_of_rows};
use crate::poller::guilds::guild_name_map;
use crate::poller::holdings::{loot_events, loot_pairs, quest_events, quest_pairs};
use crate::poller::known::{known_keys_after, seeded_after};
use crate::poller::roster::roster;
use crate::poller::skills::{skill_events, skill_values_after};
use crate::poller::{PollerState, PollerView};

verus! {

/// Where a tick stands: the query it runs next.
#[derive(Debug, Clone, Copy)]
pub enum TickStage {
    GuildNames,
    Characters,
    Achievements,
    GuildEvents,
    BossKills,
    Quests,
    Loot,
    Skills,
    Groups,
    Chat,
    Done,
}

/// The order of a tick's queries: guild names, the online characters (so
/// that every later stage names characters from this tick's snapshot),
/// achievements, guild events, boss kills, quests, items, skills, groups,
/// chat.
pub open spec fn stage_after(stage: TickStage) -> TickStage {
    match stage {
        TickStage::GuildNames => TickStage::Characters,
        TickStage::Characters => TickStage::Achievements,
        TickStage::Achievements => TickStage::GuildEvents,
        TickStage::GuildEvents => TickStage::BossKills,
        TickStage::BossKills => TickStage::Quests,
        TickStage::Quests => TickStage::Loot,
        TickStage::Loot => TickStage::Skills,
        TickStage::Skills => TickStage::Groups,
        TickStage::Groups => TickStage::Chat,
        TickStage::Chat => TickStage::Done,
        TickStage::Done => TickStage::Done,
    }
}

/// A tick runs its ten queries in the order above, each once, and is then
/// done: no stage comes back before `Done`, which is the only stage with no
/// query.
pub proof fn law_tick_runs_each_query_once()
    ensures
        stage_after(TickStage::GuildNames) == TickStage::Characters,
        stage_after(stage_after(stage_after(stage_after(stage_after(stage_after(stage_after(stage_after(
            stage_after(stage_after(TickStage::GuildNames)),
        )))))))) == TickStage::Done,
        stage_after(TickStage::Done) == TickStage::Done,
        forall|st: TickStage, rows: TickRows| #[trigger] rows_answer(st, rows) ==> !(st is Done),
{
}

/// A query for the caller to run.
#[derive(Debug, Clone)]
pub enum TickQuery {
    GuildNames,
    OnlineCharacters,
    /// Achievements earned after this Unix time.
    AchievementsSince(i64),
    /// Guild event-log entries after this Unix time.
    GuildEventsSince(i64),
    /// Boss kills after this Unix time.
    BossKillsSince(i64),
    /// Rewarded quests of these online characters.
    QuestCompletions(Vec<u32>),
    /// Notable items of these online characters.
    NotableLoot(Vec<u32>),
    /// Gathering skills of these online characters.
    GatheringSkills(Vec<u32>),
    GroupMembers,
    /// Chat exchanges with an id above this one.
    ChatSince(u64),
    /// The tick has run all its queries.
    Finished,
}

/// What a query returned.
#[derive(Debug, Clone)]
pub enum TickRows {
    GuildNames(Vec<GuildNameRow>),
    OnlineCharacters(Vec<CharacterRow>),
    Achievements(Vec<AchievementRow>),
    GuildEvents(Vec<GuildEventRow>),
    BossKills(Vec<BossKillRow>),
    QuestCompletions(Vec<QuestCompletionRow>),
    NotableLoot(Vec<LootRow>),
    GatheringSkills(Vec<SkillRow>),
    GroupMembers(Vec<GroupMemberRow>),
    Chat(Vec<ChatRow>),
}

/// The query the tick asks at `stage`.
pub open spec fn query_fits(stage: TickStage, state: PollerView, guids: Seq<u32>, q: TickQuery) -> bool {
    match stage {
        TickStage::GuildNames => q is GuildNames,
        TickStage::Characters => q is OnlineCharacters,
        TickStage::Achievements => q == TickQuery::AchievementsSince(state.last_achievement_epoch),
        TickStage::GuildEvents => q == TickQuery::GuildEventsSince(state.last_guild_event_epoch),
        TickStage::BossKills => q == TickQuery::BossKillsSince(state.last_boss_kill_epoch),
        TickStage::Quests => q matches TickQuery::QuestCompletions(g) && g@ == guids,
        TickStage::Loot => q matches TickQuery::NotableLoot(g) && g@ == guids,
        TickStage::Skills => q matches TickQuery::GatheringSkills(g) && g@ == guids,
        TickStage::Groups => q is GroupMembers,
        TickStage::Chat => q == TickQuery::ChatSince(state.last_chat_id),
        TickStage::Done => q is Finished,
    }
}

/// The rows answer the query of `stage`.
pub open spec fn rows_answer(stage: TickStage, rows: TickRows) -> bool {
    match stage {
        TickStage::GuildNames => rows is GuildNames,
        TickStage::Characters => rows is OnlineCharacters,
        TickStage::Achievements => rows is Achievements,
        TickStage::GuildEvents => rows is GuildEvents,
        TickStage::BossKills => rows is BossKills,
        TickStage::Quests => rows is QuestCompletions,
        TickStage::Loot => rows is NotableLoot,
        TickStage::Skills => rows is GatheringSkills,
        TickStage::Groups => rows is GroupMembers,
        TickStage::Chat => rows is Chat,
        TickStage::Done => false,
    }
}

/// A tick under way.
pub struct PollTick {
    stage: TickStage,
    online_guids: Vec<u32>,
    events: Vec<Event>,
}

/// A tick: its stage, the ids of this tick's online characters (in row
/// order) and the events narrated so far.
pub struct PollTickView {
    pub stage: TickStage,
    pub online_guids: Seq<u32>,
    pub events: Seq<EventView>,
}

impl View for PollTick {
    type V = PollTickView;

    closed spec fn view(&self) -> PollTickView {
        PollTickView { stage: self.stage, online_guids: self.online_guids@, events: events_view(self.events@) }
    }
}

/// One accepted step: the stage the rows answer runs on the state, its
/// events are appended, and the tick moves to the next stage.
pub open spec fn step(
    t: PollTickView,
    s: PollerView,
    names: NameTablesView,
    rows: TickRows,
    t2: PollTickView,
    s2: PollerView,
) -> bool {
    &&& t2.stage == stage_after(t.stage)
    &&& match rows {
        TickRows::OnlineCharacters(r) => t2.online_guids == row_guids(r@),
        _ => t2.online_guids == t.online_guids,
    }
    &&& match rows {
        TickRows::GuildNames(r) => s2 == (PollerView { guild_names: guild_name_map(r@), ..s }) && t2.events == t.events,
        TickRows::OnlineCharacters(r) => s2 == after_characters(s, r@) && t2.events == t.events + character_events(
            s,
            names,
            r@,
        ),
        TickRows::Achievements(r) => s2 == (PollerView {
            last_achievement_epoch: achievement_cursor(s.last_achievement_epoch, r@),
            ..s
        }) && t2.events == t.events + achievement_events(s, names, r@),
        TickRows::GuildEvents(r) => s2 == (PollerView {
            last_guild_event_epoch: guild_event_cursor(s.last_guild_event_epoch, r@),
            ..s
        }) && t2.events == t.events + guild_events(s, r@),
        TickRows::BossKills(r) => s2 == (PollerView {
            last_boss_kill_epoch: boss_kill_cursor(s.last_boss_kill_epoch, r@),
            ..s
        }) && t2.events == t.events + boss_kill_events(names, r@),
        TickRows::QuestCompletions(r) => s2 == (PollerView {
            known_quests: known_keys_after(s.known_quests, quest_pairs(r@)),
            seeded_quest_guids: seeded_after(s.seeded_quest_guids, quest_pairs(r@)),
            ..s
        }) && t2.events == t.events + quest_events(s, r@),
        TickRows::NotableLoot(r) => s2 == (PollerView {
            known_items: known_keys_after(s.known_items, loot_pairs(r@)),
            seeded_item_guids: seeded_after(s.seeded_item_guids, loot_pairs(r@)),
            ..s
        }) && t2.events == t.events + loot_events(s, r@),
        TickRows::GatheringSkills(r) => s2 == (PollerView {
            skill_values: skill_values_after(s.skill_values, r@),
            ..s
        }) && t2.events == t.events + skill_events(s, s.skill_values, r@),
        TickRows::GroupMembers(r) => groups_of_rows(s2.groups, r@) && s2 == (PollerView {
            groups: s2.groups,
            group_order: first_seen(group_ids(r@)),
            ..s
        }) && t2.events == t.events + group_events(s, s2.groups, first_seen(group_ids(r@))),
        TickRows::Chat(r) => s2 == (PollerView { last_chat_id: chat_cursor(s.last_chat_id, r@), ..s })
            && t2.events == t.events + chat_events(s, r@),
    }
}

/// The characters a query asks about: the online characters it names for
/// the quest, item and gathering-skill queries; none for the others.
pub open spec fn asked_guids(q: TickQuery) -> Seq<u32> {
    match q {
        TickQuery::QuestCompletions(g) => g@,
        TickQuery::NotableLoot(g) => g@,
        TickQuery::GatheringSkills(g) => g@,
        _ => seq![],
    }
}

/// The character rows of a tick set the characters it asks about, in row
/// order; every other step keeps them.
pub proof fn law_tick_remembers_the_characters_read(
    t: PollTickView,
    s: PollerView,
    names: NameTablesView,
    rows: TickRows,
    t2: PollTickView,
    s2: PollerView,
)
    requires
        step(t, s, names, rows, t2, s2),
    ensures
        rows matches TickRows::OnlineCharacters(r) ==> {
            &&& t2.online_guids.len() == r@.len()
            &&& forall|i: int| 0 <= i < r@.len() ==> t2.online_guids[i] == #[trigger] r@[i].guid
        },
        !(rows is OnlineCharacters) ==> t2.online_guids == t.online_guids,
{
}

/// The quest, item and gathering-skill queries of a tick each ask about
/// exactly the characters that the tick read, in row order: the skills of
/// every online character are read, as are its quests and items.
pub proof fn law_per_character_queries_ask_for_everyone_online(
    t: PollTickView,
    s: PollerView,
    names: NameTablesView,
    r: Vec<CharacterRow>,
    t2: PollTickView,
    s2: PollerView,
    now: PollerView,
    stage: TickStage,
    q: TickQuery,
)
    requires
        step(t, s, names, TickRows::OnlineCharacters(r), t2, s2),
        stage is Quests || stage is Loot || stage is Skills,
        query_fits(stage, now, t2.online_guids, q),
    ensures
        stage is Quests ==> q is QuestCompletions,
        stage is Loot ==> q is NotableLoot,
        stage is Skills ==> q is GatheringSkills,
        asked_guids(q).len() == r@.len(),
        forall|i: int| 0 <= i < r@.len() ==> asked_guids(q)[i] == #[trigger] r@[i].guid,
{
}

fn append_events(events: &mut Vec<Event>, more: Vec<Event>)
    ensures
        events_view(final(events)@) == events_view(old(events)@) + events_view(more@),
{
    let ghost added = more@;
    let mut rest = more;
    events.append(&mut rest);
    proof {
        assert(events_view(events@) =~= events_view(old(events)@) + events_view(added));
    }
}

impl PollTick {
    /// A tick that has not run any query yet.
    pub fn start() -> (tick: Self)
        ensures
            tick@.stage == TickStage::GuildNames,
            tick@.online_guids == Seq::<u32>::empty(),
            tick@.events == Seq::<EventView>::empty(),
    {
        let tick = PollTick { stage: TickStage::GuildNames, online_guids: Vec::new(), events: Vec::new() };
        proof {
            assert(tick@.events =~= Seq::<EventView>::empty());
        }
        tick
    }

    /// The query to run next.
    pub fn next_query(&self, state: &PollerState) -> (q: TickQuery)
        ensures
            query_fits(self@.stage, state@, self@.online_guids, q),
    {
        match self.stage {
            TickStage::GuildNames => TickQuery::GuildNames,
            TickStage::Characters => TickQuery::OnlineCharacters,
            TickStage::Achievements => TickQuery::AchievementsSince(state.last_achievement_epoch()),
            TickStage::GuildEvents => TickQuery::GuildEventsSince(state.last_guild_event_epoch()),
            TickStage::BossKills => TickQuery::BossKillsSince(state.last_boss_kill_epoch()),
            TickStage::Quests => TickQuery::QuestCompletions(self.online_guids.clone()),
            TickStage::Loot => TickQuery::NotableLoot(self.online_guids.clone()),
            TickStage::Skills => TickQuery::GatheringSkills(self.online_guids.clone()),
            TickStage::Groups => TickQuery::GroupMembers,
            TickStage::Chat => TickQuery::ChatSince(state.last_chat_id()),
            TickStage::Done => TickQuery::Finished,
        }
    }

    /// Hands the rows of the current query to its stage. Rows of another
    /// query are refused and change nothing.
    pub fn deliver(&mut self, state: &mut PollerState, names: &NameTables, rows: TickRows) -> (accepted: bool)
        ensures
            accepted == rows_answer(old(self)@.stage, rows),
            !accepted ==> final(self)@ == old(self)@ && final(state)@ == old(state)@,
            accepted ==> step(old(self)@, old(state)@, names@, rows, final(self)@, final(state)@),
    {
        let stage = self.stage;
        let ghost t = self@;
        let ghost s = state@;
        match rows {
            TickRows::GuildNames(r) => {
                if !matches!(stage, TickStage::GuildNames) {
                    return false;
                }
                state.set_guild_names(r);
                self.stage = TickStage::Characters;
            },
            TickRows::OnlineCharacters(r) => {
                if !matches!(stage, TickStage::Characters) {
                    return false;
                }
                let more = state.diff_characters(names, &r);
                append_events(&mut self.events, more);
                self.online_guids = crate::poller::characters::character_guids(&r);
                self.stage = TickStage::Achievements;
            },
            TickRows::Achievements(r) => {
                if !matches!(stage, TickStage::Achievements) {
                    return false;
                }
                let more = state.record_achievements(names, &r);
                append_events(&mut self.events, more);
                self.stage = TickStage::GuildEvents;
            },
            TickRows::GuildEvents(r) => {
                if !matches!(stage, TickStage::GuildEvents) {
                    return false;
                }
                let more = state.record_guild_events(&r);
                append_events(&mut self.events, more);
                self.stage = TickStage::BossKills;
            },
            TickRows::BossKills(r) => {
                if !matches!(stage, TickStage::BossKills) {
                    return false;
                }
                let more = state.record_boss_kills(names, &r);
                append_events(&mut self.events, more);
                self.stage = TickStage::Quests;
            },
            TickRows::QuestCompletions(r) => {
                if !matches!(stage, TickStage::Quests) {
                    return false;
                }
                let more = state.record_quest_completions(&r);
                append_events(&mut self.events, more);
                self.stage = TickStage::Loot;
            },
            TickRows::NotableLoot(r) => {
                if !matches!(stage, TickStage::Loot) {
                    return false;
                }
                let more = state.record_loot(&r);
                append_events(&mut self.events, more);
                self.stage = TickStage::Skills;
            },
            TickRows::GatheringSkills(r) => {
                if !matches!(stage, TickStage::Skills) {
                    return false;
                }
                let more = state.record_skills(&r);
                append_events(&mut self.events, more);
                self.stage = TickStage::Groups;
            },
            TickRows::GroupMembers(r) => {
                if !matches!(stage, TickStage::Groups) {
                    return false;
                }
                let more = state.update_groups(&r);
                append_events(&mut self.events, more);
                self.stage = TickStage::Chat;
            },
            TickRows::Chat(r) => {
                if !matches!(stage, TickStage::Chat) {
                    return false;
                }
                let more = state.record_chat(&r);
                append_events(&mut self.events, more);
                self.stage = TickStage::Done;
            },
        }
        true
    }

    /// Ends a tick that has run all its queries: gives its events and the
    /// roster, and marks the state as past its first tick. A tick not yet
    /// done gives `None` and changes nothing.
    pub fn finish(self, state: &mut PollerState, names: &NameTables) -> (out: Option<(Vec<Event>, Vec<RosterEntry>)>)
        ensures
            out is Some <==> self@.stage is Done,
            out is None ==> final(state)@ == old(state)@,
            out matches Some((events, entries)) ==> {
                &&& events_view(events@) == self@.events
                &&& roster_view(entries@) == roster(old(state)@, names@)
                &&& final(state)@ == (PollerView { first_tick: false, ..old(state)@ })
            },
    {
        if !matches!(self.stage, TickStage::Done) {
            return None;
        }
        let entries = state.finish_tick(names);
        Some((self.events, entries))
    }
}

} // verus!
