//! The time- or id-ordered feeds: achievements, guild events, boss kills
//! and chat. Each narrates the rows it is given and moves its cursor to the
//! newest row, so the next query asks only for later rows.

use vstd::prelude::*;

use crate::db::{AchievementRow, BossKillRow, ChatRow, GuildEventRow};
use crate::events::{Event, EventView, events_view};
use crate::names::{label_or_numbered, NameTables, NameTablesView};
use crate::poller::describe::{boss_label, describe_boss, describe_guild_event, guild_event_text};
use crate::poller::{character_label, PollerState, PollerView};

verus! {

broadcast use vstd::std_specs::hash::group_hash_axioms;

pub open spec fn max_i64(a: i64, b: i64) -> i64 {
    if a >= b {
        a
    } else {
        b
    }
}

pub open spec fn max_u64(a: u64, b: u64) -> u64 {
    if a >= b {
        a
    } else {
        b
    }
}

/// The achievement cursor after the rows: the latest of `start` and the
/// rows' dates.
pub open spec fn achievement_cursor(start: i64, rows: Seq<AchievementRow>) -> i64
    decreases rows.len(),
{
    if rows.len() == 0 {
        start
    } else {
        max_i64(achievement_cursor(start, rows.drop_last()), rows.last().date as i64)
    }
}

/// One `AchievementEarned` per row, in row order.
pub open spec fn achievement_events(prev: PollerView, names: NameTablesView, rows: Seq<AchievementRow>) -> Seq<EventView> {
    rows.map_values(
        |r: AchievementRow|
            EventView::AchievementEarned {
                guid: r.guid,
                name: character_label(prev.characters, r.guid, r.guid as nat),
                achievement_name: names.achievement_label(r.achievement),
            },
    )
}

/// The guild-event cursor after the rows.
pub open spec fn guild_event_cursor(start: i64, rows: Seq<GuildEventRow>) -> i64
    decreases rows.len(),
{
    if rows.len() == 0 {
        start
    } else {
        max_i64(guild_event_cursor(start, rows.drop_last()), rows.last().timestamp as i64)
    }
}

/// One `GuildActivity` per row, in row order: the guild by its name (or
/// "Guild #id"), the description told of the entry's first player.
pub open spec fn guild_events(prev: PollerView, rows: Seq<GuildEventRow>) -> Seq<EventView> {
    rows.map_values(
        |r: GuildEventRow|
            EventView::GuildActivity {
                guild_name: label_or_numbered(prev.guild_names, r.guildid, "Guild #"@),
                description: guild_event_text(
                    r.event_type,
                    character_label(prev.characters, r.player_guid1, r.player_guid1 as nat),
                ),
            },
    )
}

/// The boss-kill cursor after the rows.
pub open spec fn boss_kill_cursor(start: i64, rows: Seq<BossKillRow>) -> i64
    decreases rows.len(),
{
    if rows.len() == 0 {
        start
    } else {
        max_i64(boss_kill_cursor(start, rows.drop_last()), rows.last().time_epoch)
    }
}

pub open spec fn opt_string_view(s: Option<String>) -> Option<Seq<char>> {
    match s {
        Some(s) => Some(s@),
        None => None,
    }
}

/// One `BossKill` per row, in row order.
pub open spec fn boss_kill_events(names: NameTablesView, rows: Seq<BossKillRow>) -> Seq<EventView> {
    rows.map_values(
        |r: BossKillRow|
            EventView::BossKill {
                boss_name: boss_label(r.credit_type, r.credit_entry, opt_string_view(r.boss_name)),
                map_name: names.map_label(r.map as u32),
            },
    )
}

/// The chat cursor after the rows: the largest of `start` and the rows' ids.
pub open spec fn chat_cursor(start: u64, rows: Seq<ChatRow>) -> u64
    decreases rows.len(),
{
    if rows.len() == 0 {
        start
    } else {
        max_u64(chat_cursor(start, rows.drop_last()), rows.last().id)
    }
}

/// One `ChatExchange` per row, in row order; the bot is looked up by the low
/// 32 bits of its id and otherwise shown by its full id.
pub open spec fn chat_events(prev: PollerView, rows: Seq<ChatRow>) -> Seq<EventView> {
    rows.map_values(
        |r: ChatRow|
            EventView::ChatExchange {
                bot_name: character_label(prev.characters, r.bot_guid as u32, r.bot_guid as nat),
                player_message: r.player_message@,
                bot_reply: r.bot_reply@,
            },
    )
}

impl PollerState {
    /// Narrates newly earned achievements and moves the achievement cursor.
    pub fn record_achievements(&mut self, names: &NameTables, rows: &Vec<AchievementRow>) -> (events: Vec<Event>)
        ensures
            final(self)@ == (PollerView {
                last_achievement_epoch: achievement_cursor(old(self)@.last_achievement_epoch, rows@),
                ..old(self)@
            }),
            events_view(events@) == achievement_events(old(self)@, names@, rows@),
            final(self)@.last_achievement_epoch >= old(self)@.last_achievement_epoch,
            forall|i: int| 0 <= i < rows@.len() ==> (#[trigger] rows@[i]).date <= final(self)@.last_achievement_epoch,
    {
        let ghost prev = self@;
        let mut events: Vec<Event> = Vec::new();
        let n = rows.len();
        let mut i: usize = 0;
        while i < n
            invariant
                n == rows.len(),
                0 <= i <= n,
                self@ == (PollerView {
                    last_achievement_epoch: achievement_cursor(prev.last_achievement_epoch, rows@.take(i as int)),
                    ..prev
                }),
                events_view(events@) == achievement_events(prev, names@, rows@.take(i as int)),
                self.last_achievement_epoch >= prev.last_achievement_epoch,
                forall|k: int| 0 <= k < i ==> (#[trigger] rows@[k]).date <= self.last_achievement_epoch,
            decreases n - i,
        {
            let row = &rows[i];
            let name = self.character_name(row.guid, row.guid as u64);
            let achievement_name = names.achievement_name(row.achievement);
            let ghost before = events@;
            let e = Event::AchievementEarned { guid: row.guid, name, achievement_name };
            proof {
                assert(self@.characters == prev.characters);
                assert(e@ == EventView::AchievementEarned {
                    guid: row.guid,
                    name: character_label(prev.characters, row.guid, row.guid as nat),
                    achievement_name: names@.achievement_label(row.achievement),
                });
            }
            events.push(e);
            proof {
                assert(events_view(events@) =~= events_view(before).push(e@));
            }
            let date = row.date as i64;
            if date > self.last_achievement_epoch {
                self.last_achievement_epoch = date;
            }
            proof {
                let taken = rows@.take(i + 1);
                assert(taken.drop_last() =~= rows@.take(i as int));
                assert(events_view(events@) =~= achievement_events(prev, names@, taken));
            }
            i = i + 1;
        }
        proof {
            assert(rows@.take(n as int) =~= rows@);
        }
        events
    }

    /// Narrates new guild event-log entries and moves the guild-event cursor.
    pub fn record_guild_events(&mut self, rows: &Vec<GuildEventRow>) -> (events: Vec<Event>)
        ensures
            final(self)@ == (PollerView {
                last_guild_event_epoch: guild_event_cursor(old(self)@.last_guild_event_epoch, rows@),
                ..old(self)@
            }),
            events_view(events@) == guild_events(old(self)@, rows@),
            final(self)@.last_guild_event_epoch >= old(self)@.last_guild_event_epoch,
            forall|i: int| 0 <= i < rows@.len() ==> (#[trigger] rows@[i]).timestamp <= final(self)@.last_guild_event_epoch,
    {
        let ghost prev = self@;
        let mut events: Vec<Event> = Vec::new();
        let n = rows.len();
        let mut i: usize = 0;
        while i < n
            invariant
                n == rows.len(),
                0 <= i <= n,
                self@ == (PollerView {
                    last_guild_event_epoch: guild_event_cursor(prev.last_guild_event_epoch, rows@.take(i as int)),
                    ..prev
                }),
                events_view(events@) == guild_events(prev, rows@.take(i as int)),
                self.last_guild_event_epoch >= prev.last_guild_event_epoch,
                forall|k: int| 0 <= k < i ==> (#[trigger] rows@[k]).timestamp <= self.last_guild_event_epoch,
            decreases n - i,
        {
            let row = &rows[i];
            let guild_name = match self.guild_names.get(&row.guildid) {
                Some(name) => name.clone(),
                None => crate::text::numbered_label("Guild #", row.guildid as u64),
            };
            let actor = self.character_name(row.player_guid1, row.player_guid1 as u64);
            let description = describe_guild_event(row.event_type, actor.as_str(), row.player_guid2, self);
            let ghost before = events@;
            let e = Event::GuildActivity { guild_name, description };
            proof {
                assert(self@.characters == prev.characters);
                assert(self@.guild_names == prev.guild_names);
                assert(e@ == EventView::GuildActivity {
                    guild_name: label_or_numbered(prev.guild_names, row.guildid, "Guild #"@),
                    description: guild_event_text(
                        row.event_type,
                        character_label(prev.characters, row.player_guid1, row.player_guid1 as nat),
                    ),
                });
            }
            events.push(e);
            proof {
                assert(events_view(events@) =~= events_view(before).push(e@));
            }
            let stamp = row.timestamp as i64;
            if stamp > self.last_guild_event_epoch {
                self.last_guild_event_epoch = stamp;
            }
            proof {
                let taken = rows@.take(i + 1);
                assert(taken.drop_last() =~= rows@.take(i as int));
                assert(events_view(events@) =~= guild_events(prev, taken));
            }
            i = i + 1;
        }
        proof {
            assert(rows@.take(n as int) =~= rows@);
        }
        events
    }

    /// Narrates completed encounters and moves the boss-kill cursor.
    pub fn record_boss_kills(&mut self, names: &NameTables, rows: &Vec<BossKillRow>) -> (events: Vec<Event>)
        ensures
            final(self)@ == (PollerView {
                last_boss_kill_epoch: boss_kill_cursor(old(self)@.last_boss_kill_epoch, rows@),
                ..old(self)@
            }),
            events_view(events@) == boss_kill_events(names@, rows@),
            final(self)@.last_boss_kill_epoch >= old(self)@.last_boss_kill_epoch,
            forall|i: int| 0 <= i < rows@.len() ==> (#[trigger] rows@[i]).time_epoch <= final(self)@.last_boss_kill_epoch,
    {
        let ghost prev = self@;
        let mut events: Vec<Event> = Vec::new();
        let n = rows.len();
        let mut i: usize = 0;
        while i < n
            invariant
                n == rows.len(),
                0 <= i <= n,
                self@ == (PollerView {
                    last_boss_kill_epoch: boss_kill_cursor(prev.last_boss_kill_epoch, rows@.take(i as int)),
                    ..prev
                }),
                events_view(events@) == boss_kill_events(names@, rows@.take(i as int)),
                self.last_boss_kill_epoch >= prev.last_boss_kill_epoch,
                forall|k: int| 0 <= k < i ==> (#[trigger] rows@[k]).time_epoch <= self.last_boss_kill_epoch,
            decreases n - i,
        {
            let row = &rows[i];
            let boss_name = match &row.boss_name {
                Some(name) => describe_boss(row.credit_type, row.credit_entry, Some(name.as_str())),
                None => describe_boss(row.credit_type, row.credit_entry, None),
            };
            let map_name = names.map_name(row.map as u32);
            let ghost before = events@;
            let e = Event::BossKill { boss_name, map_name };
            proof {
                assert(e@ == EventView::BossKill {
                    boss_name: boss_label(row.credit_type, row.credit_entry, opt_string_view(row.boss_name)),
                    map_name: names@.map_label(row.map as u32),
                });
            }
            events.push(e);
            proof {
                assert(events_view(events@) =~= events_view(before).push(e@));
            }
            if row.time_epoch > self.last_boss_kill_epoch {
                self.last_boss_kill_epoch = row.time_epoch;
            }
            proof {
                let taken = rows@.take(i + 1);
                assert(taken.drop_last() =~= rows@.take(i as int));
                assert(events_view(events@) =~= boss_kill_events(names@, taken));
            }
            i = i + 1;
        }
        proof {
            assert(rows@.take(n as int) =~= rows@);
        }
        events
    }

    /// Narrates new chat exchanges and moves the chat cursor.
    pub fn record_chat(&mut self, rows: &Vec<ChatRow>) -> (events: Vec<Event>)
        ensures
            final(self)@ == (PollerView { last_chat_id: chat_cursor(old(self)@.last_chat_id, rows@), ..old(self)@ }),
            events_view(events@) == chat_events(old(self)@, rows@),
            final(self)@.last_chat_id >= old(self)@.last_chat_id,
            forall|i: int| 0 <= i < rows@.len() ==> (#[trigger] rows@[i]).id <= final(self)@.last_chat_id,
    {
        let ghost prev = self@;
        let mut events: Vec<Event> = Vec::new();
        let n = rows.len();
        let mut i: usize = 0;
        while i < n
            invariant
                n == rows.len(),
                0 <= i <= n,
                self@ == (PollerView { last_chat_id: chat_cursor(prev.last_chat_id, rows@.take(i as int)), ..prev }),
                events_view(events@) == chat_events(prev, rows@.take(i as int)),
                self.last_chat_id >= prev.last_chat_id,
                forall|k: int| 0 <= k < i ==> (#[trigger] rows@[k]).id <= self.last_chat_id,
            decreases n - i,
        {
            let row = &rows[i];
            let bot_guid: u32 = row.bot_guid as u32;
            let bot_name = self.character_name(bot_guid, row.bot_guid);
            let ghost before = events@;
            let e = Event::ChatExchange {
                bot_name,
                player_message: row.player_message.clone(),
                bot_reply: row.bot_reply.clone(),
            };
            proof {
                assert(self@.characters == prev.characters);
                assert(e@ == EventView::ChatExchange {
                    bot_name: character_label(prev.characters, row.bot_guid as u32, row.bot_guid as nat),
                    player_message: row.player_message@,
                    bot_reply: row.bot_reply@,
                });
            }
            events.push(e);
            proof {
                assert(events_view(events@) =~= events_view(before).push(e@));
            }
            if row.id > self.last_chat_id {
                self.last_chat_id = row.id;
            }
            proof {
                let taken = rows@.take(i + 1);
                assert(taken.drop_last() =~= rows@.take(i as int));
                assert(events_view(events@) =~= chat_events(prev, taken));
            }
            i = i + 1;
        }
        proof {
            assert(rows@.take(n as int) =~= rows@);
        }
        events
    }
}

} // verus!
