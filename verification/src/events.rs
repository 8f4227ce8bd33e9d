//! The narrated events that a poll tick produces.

use vstd::prelude::*;

verus! {

/// One narrated change in the watched population.
#[derive(Debug, Clone, PartialEq, Eq)]
pub enum Event {
    WentOnline { guid: u32, name: String, race: String, class: String, level: u8 },
    WentOffline { guid: u32, name: String },
    LevelUp { guid: u32, name: String, class: String, old_level: u8, new_level: u8 },
    ZoneChanged { guid: u32, name: String, zone_name: String },
    AchievementEarned { guid: u32, name: String, achievement_name: String },
    GuildActivity { guild_name: String, description: String },
    GroupFormed { member_names: Vec<String> },
    GroupDisbanded { member_names: Vec<String> },
    ChatExchange { bot_name: String, player_message: String, bot_reply: String },
    Death { guid: u32, name: String, zone_name: String },
    BossKill { boss_name: String, map_name: String },
    QuestCompleted { guid: u32, name: String, quest_name: String },
    ItemFound { guid: u32, name: String, item_name: String, quality: u8 },
    SkillUp { guid: u32, name: String, skill_name: String, new_value: u16 },
}

/// An `Event` with its text taken as character sequences.
pub enum EventView {
    WentOnline { guid: u32, name: Seq<char>, race: Seq<char>, class: Seq<char>, level: u8 },
    WentOffline { guid: u32, name: Seq<char> },
    LevelUp { guid: u32, name: Seq<char>, class: Seq<char>, old_level: u8, new_level: u8 },
    ZoneChanged { guid: u32, name: Seq<char>, zone_name: Seq<char> },
    AchievementEarned { guid: u32, name: Seq<char>, achievement_name: Seq<char> },
    GuildActivity { guild_name: Seq<char>, description: Seq<char> },
    GroupFormed { member_names: Seq<Seq<char>> },
    GroupDisbanded { member_names: Seq<Seq<char>> },
    ChatExchange { bot_name: Seq<char>, player_message: Seq<char>, bot_reply: Seq<char> },
    Death { guid: u32, name: Seq<char>, zone_name: Seq<char> },
    BossKill { boss_name: Seq<char>, map_name: Seq<char> },
    QuestCompleted { guid: u32, name: Seq<char>, quest_name: Seq<char> },
    ItemFound { guid: u32, name: Seq<char>, item_name: Seq<char>, quality: u8 },
    SkillUp { guid: u32, name: Seq<char>, skill_name: Seq<char>, new_value: u16 },
}

/// The views of a sequence of strings.
pub open spec fn strings_view(names: Seq<String>) -> Seq<Seq<char>> {
    names.map_values(|s: String| s@)
}

impl View for Event {
    type V = EventView;

    open spec fn view(&self) -> EventView {
        match self {
            Event::WentOnline { guid, name, race, class, level } => EventView::WentOnline {
                guid: *guid,
                name: name@,
                race: race@,
                class: class@,
                level: *level,
            },
            Event::WentOffline { guid, name } => EventView::WentOffline { guid: *guid, name: name@ },
            Event::LevelUp { guid, name, class, old_level, new_level } => EventView::LevelUp {
                guid: *guid,
                name: name@,
                class: class@,
                old_level: *old_level,
                new_level: *new_level,
            },
            Event::ZoneChanged { guid, name, zone_name } => EventView::ZoneChanged {
                guid: *guid,
                name: name@,
                zone_name: zone_name@,
            },
            Event::AchievementEarned { guid, name, achievement_name } => EventView::AchievementEarned {
                guid: *guid,
                name: name@,
                achievement_name: achievement_name@,
            },
            Event::GuildActivity { guild_name, description } => EventView::GuildActivity {
                guild_name: guild_name@,
                description: description@,
            },
            Event::GroupFormed { member_names } => EventView::GroupFormed {
                member_names: strings_view(member_names@),
            },
            Event::GroupDisbanded { member_names } => EventView::GroupDisbanded {
                member_names: strings_view(member_names@),
            },
            Event::ChatExchange { bot_name, player_message, bot_reply } => EventView::ChatExchange {
                bot_name: bot_name@,
                player_message: player_message@,
                bot_reply: bot_reply@,
            },
            Event::Death { guid, name, zone_name } => EventView::Death {
                guid: *guid,
                name: name@,
                zone_name: zone_name@,
            },
            Event::BossKill { boss_name, map_name } => EventView::BossKill {
                boss_name: boss_name@,
                map_name: map_name@,
            },
            Event::QuestCompleted { guid, name, quest_name } => EventView::QuestCompleted {
                guid: *guid,
                name: name@,
                quest_name: quest_name@,
            },
            Event::ItemFound { guid, name, item_name, quality } => EventView::ItemFound {
                guid: *guid,
                name: name@,
                item_name: item_name@,
                quality: *quality,
            },
            Event::SkillUp { guid, name, skill_name, new_value } => EventView::SkillUp {
                guid: *guid,
                name: name@,
                skill_name: skill_name@,
                new_value: *new_value,
            },
        }
    }
}

/// The views of a sequence of events.
pub open spec fn events_view(events: Seq<Event>) -> Seq<EventView> {
    events.map_values(|e: Event| e@)
}

/// One online character as the agent field draws it. The world position
/// is carried as the bit patterns of its two `f32` coordinates.
#[derive(Debug, Clone, PartialEq, Eq)]
pub struct RosterEntry {
    pub guid: u32,
    pub name: String,
    pub race: String,
    pub class: String,
    pub level: u8,
    pub zone_name: String,
    pub group_id: Option<u32>,
    pub map: u16,
    pub map_name: String,
    pub position_x_bits: u32,
    pub position_y_bits: u32,
}

/// A `RosterEntry` with its text as character sequences.
pub struct RosterEntryView {
    pub guid: u32,
    pub name: Seq<char>,
    pub race: Seq<char>,
    pub class: Seq<char>,
    pub level: u8,
    pub zone_name: Seq<char>,
    pub group_id: Option<u32>,
    pub map: u16,
    pub map_name: Seq<char>,
    pub position_x_bits: u32,
    pub position_y_bits: u32,
}

impl View for RosterEntry {
    type V = RosterEntryView;

    open spec fn view(&self) -> RosterEntryView {
        RosterEntryView {
            guid: self.guid,
            name: self.name@,
            race: self.race@,
            class: self.class@,
            level: self.level,
            zone_name: self.zone_name@,
            group_id: self.group_id,
            map: self.map,
            map_name: self.map_name@,
            position_x_bits: self.position_x_bits,
            position_y_bits: self.position_y_bits,
        }
    }
}

/// The views of a sequence of roster entries.
pub open spec fn roster_view(entries: Seq<RosterEntry>) -> Seq<RosterEntryView> {
    entries.map_values(|e: RosterEntry| e@)
}

} // verus!
