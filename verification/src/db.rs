//! The rows that one poll tick reads from the AzerothCore databases, as
//! plain values.

use vstd::prelude::*;

verus! {

/// One online character. The world position is carried as the bit
/// patterns of its two `f32` coordinates; nothing here reads it.
#[derive(Debug, Clone)]
pub struct CharacterRow {
    pub guid: u32,
    pub name: String,
    pub race: u8,
    pub class: u8,
    pub level: u8,
    pub map: u16,
    pub zone: u16,
    pub online: u8,
    pub health: u32,
    pub position_x_bits: u32,
    pub position_y_bits: u32,
}

/// One earned achievement; `date` is a Unix time.
#[derive(Debug, Clone)]
pub struct AchievementRow {
    pub guid: u32,
    pub achievement: u32,
    pub date: u32,
}

/// One guild event-log entry; `timestamp` is a Unix time.
#[derive(Debug, Clone)]
pub struct GuildEventRow {
    pub guildid: u32,
    pub log_guid: u32,
    pub event_type: u8,
    pub player_guid1: u32,
    pub player_guid2: u32,
    pub timestamp: u32,
}

/// One group membership: `guid` is the group's id.
#[derive(Debug, Clone)]
pub struct GroupMemberRow {
    pub guid: u32,
    pub member_guid: u32,
}

/// One player-to-bot chat exchange.
#[derive(Debug, Clone)]
pub struct ChatRow {
    pub id: u64,
    pub bot_guid: u64,
    pub player_guid: u64,
    pub player_message: String,
    pub bot_reply: String,
}

/// A completed dungeon/raid encounter. `credit_type` 0 is kill credit
/// (`credit_entry` is a creature entry, resolved to `boss_name` where a
/// creature of that entry exists); 1 is cast-spell credit (`credit_entry` is
/// a spell id).
#[derive(Debug, Clone)]
pub struct BossKillRow {
    pub time_epoch: i64,
    pub map: u16,
    pub difficulty: u8,
    pub credit_type: u8,
    pub credit_entry: u32,
    pub boss_name: Option<String>,
}

/// A guild's id and name.
#[derive(Debug, Clone)]
pub struct GuildNameRow {
    pub guildid: u32,
    pub name: String,
}

/// A rewarded quest of an online character, with its title where the quest
/// is known.
#[derive(Debug, Clone)]
pub struct QuestCompletionRow {
    pub guid: u32,
    pub quest: u32,
    pub quest_name: Option<String>,
}

/// A notable (quality >= uncommon, non-stackable) item an online character
/// holds; `item_guid` identifies this copy of the item.
#[derive(Debug, Clone)]
pub struct LootRow {
    pub guid: u32,
    pub item_guid: u32,
    pub item_name: Option<String>,
    pub quality: u8,
}

/// WotLK 3.3.5a skill line ids of the three gathering professions.
pub const SKILL_HERBALISM: u16 = 182;

pub const SKILL_MINING: u16 = 186;

pub const SKILL_SKINNING: u16 = 393;

/// A gathering skill's current value for an online character.
#[derive(Debug, Clone)]
pub struct SkillRow {
    pub guid: u32,
    pub skill: u16,
    pub value: u16,
}

} // verus!
