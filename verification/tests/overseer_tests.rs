use std::collections::HashMap;

use overseer::character_info::{class_name, race_name};
use overseer::db::{
    AchievementRow, BossKillRow, CharacterRow, ChatRow, GroupMemberRow, GuildEventRow, GuildNameRow, LootRow,
    QuestCompletionRow, SkillRow, SKILL_HERBALISM, SKILL_MINING, SKILL_SKINNING,
};
use overseer::events::Event;
use overseer::names::{
    name_map_from_pairs, name_table_from_rows, name_table_json_from_rows, name_table_text, parse_name_file, parse_name_map,
    parse_u32, NameTables,
};
use overseer::poller::characters::character_guids;
use overseer::poller::describe::{describe_boss, describe_guild_event, gathering_skill_name};
use overseer::poller::groups::resolve_names;
use overseer::poller::PollerState;
use overseer::poller::tick::{PollTick, TickQuery, TickRows};
use overseer::text::numbered_label;

fn character(guid: u32, name: &str, level: u8, zone: u16, health: u32) -> CharacterRow {
    CharacterRow {
        guid,
        name: name.to_string(),
        race: 8,
        class: 4,
        level,
        map: 1,
        zone,
        online: 1,
        health,
        position_x_bits: 0,
        position_y_bits: 0,
    }
}

fn empty_names() -> NameTables {
    NameTables::empty()
}

fn names() -> NameTables {
    NameTables::from_json(
        Some(r#"{"6": "Level 10"}"#),
        Some(r#"{"14": "Durotar", "1637": "Orgrimmar"}"#),
        Some(r#"{"1": "Kalimdor", "249": "Onyxia's Lair"}"#),
    )
}

#[test]
fn troll_rogue_lookup() {
    assert_eq!(race_name(8), "Troll");
    assert_eq!(class_name(4), "Rogue");
    assert_eq!(race_name(10), "Blood Elf");
    assert_eq!(class_name(6), "Death Knight");
}

#[test]
fn unknown_race_and_class() {
    assert_eq!(race_name(9), "Unknown");
    assert_eq!(race_name(0), "Unknown");
    assert_eq!(class_name(10), "Unknown");
    assert_eq!(class_name(255), "Unknown");
}

#[test]
fn numbered_labels_are_decimal() {
    assert_eq!(numbered_label("Zone #", 0), "Zone #0");
    assert_eq!(numbered_label("Zone #", 1519), "Zone #1519");
    assert_eq!(numbered_label("X", u64::MAX), "X18446744073709551615");
}

#[test]
fn missing_names_fall_back_to_raw_ids() {
    let names = empty_names();
    assert_eq!(names.achievement_name(1234), "Achievement #1234");
    assert_eq!(names.zone_name(14), "Zone #14");
    assert_eq!(names.map_name(4294967295), "Map #4294967295");
    assert_eq!(names.achievement_count(), 0);
}

#[test]
fn json_name_tables_are_read() {
    let names = names();
    assert_eq!(names.achievement_name(6), "Level 10");
    assert_eq!(names.zone_name(1637), "Orgrimmar");
    assert_eq!(names.map_name(249), "Onyxia's Lair");
    assert_eq!(names.zone_count(), 2);
}

#[test]
fn non_numeric_keys_are_skipped() {
    let map = parse_name_map(r#"{"12": "a", "x": "b", "+7": "c", "-3": "d", " 4": "e", "4294967296": "f"}"#);
    let mut keys: Vec<u32> = map.keys().copied().collect();
    keys.sort();
    assert_eq!(keys, vec![7, 12]);
    assert_eq!(map.get(&7).map(|s| s.as_str()), Some("c"));
}

#[test]
fn unreadable_json_gives_empty_table() {
    assert!(parse_name_map("not json").is_empty());
    assert!(parse_name_map(r#"{"1": 5}"#).is_empty());
    assert!(parse_name_map("[]").is_empty());
}

#[test]
fn ids_read_as_std_reads_u32() {
    let map = parse_name_map(
        r#"{"0": "zero", "+42": "plus", "4294967295": "max", "": "empty", "+": "sign", "-0": "minus", "1a": "junk"}"#,
    );
    let mut keys: Vec<u32> = map.keys().copied().collect();
    keys.sort();
    assert_eq!(keys, vec![0, 42, u32::MAX]);
    assert_eq!(map.get(&42).map(|s| s.as_str()), Some("plus"));
}

#[test]
fn extracted_rows_skip_empty_names() {
    let rows = vec![(1u32, "First".to_string()), (2, String::new()), (1, "Again".to_string()), (3, "Third".to_string())];
    let table = name_table_from_rows(&rows);
    assert_eq!(table.len(), 2);
    assert_eq!(table.get(&1).map(|s| s.as_str()), Some("Again"));
    assert_eq!(table.get(&2), None);
    let _: HashMap<u32, String> = table;
}

#[test]
fn gathering_skill_names() {
    assert_eq!(gathering_skill_name(SKILL_HERBALISM), "Herbalism");
    assert_eq!(gathering_skill_name(SKILL_MINING), "Mining");
    assert_eq!(gathering_skill_name(SKILL_SKINNING), "Skinning");
    assert_eq!(gathering_skill_name(129), "Gathering");
}

#[test]
fn boss_descriptions() {
    assert_eq!(describe_boss(0, 10184, Some("Onyxia")), "Onyxia");
    assert_eq!(describe_boss(0, 10184, Some("")), "Unknown Boss (Entry #10184)");
    assert_eq!(describe_boss(0, 10184, None), "Unknown Boss (Entry #10184)");
    assert_eq!(describe_boss(1, 68572, Some("Onyxia")), "Encounter Objective #68572");
}

#[test]
fn guild_event_descriptions() {
    let state = PollerState::new(0);
    assert_eq!(describe_guild_event(0, "Bazzul", 0, &state), "Bazzul was invited to the guild");
    assert_eq!(describe_guild_event(1, "Bazzul", 0, &state), "Bazzul joined the guild");
    assert_eq!(describe_guild_event(5, "Bazzul", 0, &state), "Bazzul was demoted");
    assert_eq!(describe_guild_event(6, "Bazzul", 7, &state), "Guild leadership changed");
    assert_eq!(describe_guild_event(8, "Bazzul", 0, &state), "A guild rank was removed");
    assert_eq!(describe_guild_event(42, "Bazzul", 0, &state), "Bazzul triggered a guild event (type 42)");
}

#[test]
fn first_tick_learns_silently() {
    let names = names();
    let mut state = PollerState::new(1000);
    assert!(state.is_first_tick());
    let rows = vec![character(1, "Bazzul", 10, 14, 100), character(2, "Grom", 20, 1637, 0)];
    let events = state.diff_characters(&names, &rows);
    assert!(events.is_empty());
    let roster = state.finish_tick(&names);
    assert_eq!(roster.len(), 2);
    assert!(!state.is_first_tick());
}

#[test]
fn second_tick_narrates_changes() {
    let names = names();
    let mut state = PollerState::new(1000);
    let first = vec![character(1, "Bazzul", 10, 14, 100), character(2, "Grom", 20, 1637, 50)];
    state.diff_characters(&names, &first);
    state.finish_tick(&names);
    let second = vec![character(1, "Bazzul", 11, 1637, 0), character(3, "Thrall", 80, 0, 10)];
    let events = state.diff_characters(&names, &second);
    assert_eq!(
        events,
        vec![
            Event::LevelUp { guid: 1, name: "Bazzul".into(), class: "Rogue".into(), old_level: 10, new_level: 11 },
            Event::ZoneChanged { guid: 1, name: "Bazzul".into(), zone_name: "Orgrimmar".into() },
            Event::Death { guid: 1, name: "Bazzul".into(), zone_name: "Orgrimmar".into() },
            Event::WentOnline {
                guid: 3,
                name: "Thrall".into(),
                race: "Troll".into(),
                class: "Rogue".into(),
                level: 80,
            },
            Event::WentOffline { guid: 2, name: "Grom".into() },
        ]
    );
}

#[test]
fn zone_zero_and_staying_dead_are_quiet() {
    let names = names();
    let mut state = PollerState::new(1000);
    state.diff_characters(&names, &vec![character(1, "Bazzul", 10, 14, 0)]);
    state.finish_tick(&names);
    let events = state.diff_characters(&names, &vec![character(1, "Bazzul", 9, 0, 0)]);
    assert!(events.is_empty());
}

#[test]
fn same_characters_twice_narrate_nothing() {
    let names = names();
    let mut state = PollerState::new(1000);
    state.diff_characters(&names, &vec![character(1, "Bazzul", 10, 14, 100)]);
    state.finish_tick(&names);
    let rows = vec![character(1, "Bazzul", 12, 1637, 0), character(4, "Jaina", 70, 14, 100)];
    let events = state.diff_characters(&names, &rows);
    assert_eq!(events.len(), 4);
    let again = state.diff_characters(&names, &rows);
    assert!(again.is_empty());
}

#[test]
fn character_guids_in_row_order() {
    let rows = vec![character(5, "A", 1, 1, 1), character(2, "B", 1, 1, 1), character(5, "A", 1, 1, 1)];
    assert_eq!(character_guids(&rows), vec![5, 2, 5]);
}

#[test]
fn achievements_move_the_cursor() {
    let names = names();
    let mut state = PollerState::new(1000);
    state.diff_characters(&names, &vec![character(1, "Bazzul", 10, 14, 100)]);
    let rows = vec![
        AchievementRow { guid: 1, achievement: 6, date: 1500 },
        AchievementRow { guid: 9, achievement: 77, date: 1200 },
    ];
    let events = state.record_achievements(&names, &rows);
    assert_eq!(
        events,
        vec![
            Event::AchievementEarned { guid: 1, name: "Bazzul".into(), achievement_name: "Level 10".into() },
            Event::AchievementEarned { guid: 9, name: "Character #9".into(), achievement_name: "Achievement #77".into() },
        ]
    );
    assert_eq!(state.last_achievement_epoch(), 1500);
    state.record_achievements(&names, &vec![AchievementRow { guid: 1, achievement: 6, date: 900 }]);
    assert_eq!(state.last_achievement_epoch(), 1500);
}

#[test]
fn guild_events_name_guild_and_actor() {
    let names = names();
    let mut state = PollerState::new(1000);
    state.set_guild_names(vec![
        GuildNameRow { guildid: 3, name: "Old".into() },
        GuildNameRow { guildid: 3, name: "Horde Heroes".into() },
    ]);
    state.diff_characters(&names, &vec![character(1, "Bazzul", 10, 14, 100)]);
    let rows = vec![
        GuildEventRow { guildid: 3, log_guid: 1, event_type: 1, player_guid1: 1, player_guid2: 0, timestamp: 1100 },
        GuildEventRow { guildid: 4, log_guid: 2, event_type: 2, player_guid1: 8, player_guid2: 0, timestamp: 1050 },
    ];
    let events = state.record_guild_events(&rows);
    assert_eq!(
        events,
        vec![
            Event::GuildActivity { guild_name: "Horde Heroes".into(), description: "Bazzul joined the guild".into() },
            Event::GuildActivity { guild_name: "Guild #4".into(), description: "Character #8 left the guild".into() },
        ]
    );
    assert_eq!(state.last_guild_event_epoch(), 1100);
}

#[test]
fn boss_kills_name_boss_and_map() {
    let names = names();
    let mut state = PollerState::new(1000);
    let rows = vec![
        BossKillRow { time_epoch: 2000, map: 249, difficulty: 0, credit_type: 0, credit_entry: 10184, boss_name: Some("Onyxia".into()) },
        BossKillRow { time_epoch: 1999, map: 33, difficulty: 0, credit_type: 1, credit_entry: 5, boss_name: None },
    ];
    let events = state.record_boss_kills(&names, &rows);
    assert_eq!(
        events,
        vec![
            Event::BossKill { boss_name: "Onyxia".into(), map_name: "Onyxia's Lair".into() },
            Event::BossKill { boss_name: "Encounter Objective #5".into(), map_name: "Map #33".into() },
        ]
    );
    assert_eq!(state.last_boss_kill_epoch(), 2000);
}

#[test]
fn chat_looks_up_the_bot() {
    let names = names();
    let mut state = PollerState::new(1000);
    state.diff_characters(&names, &vec![character(1, "Bazzul", 10, 14, 100)]);
    let rows = vec![
        ChatRow { id: 7, bot_guid: 1, player_guid: 2, player_message: "hi".into(), bot_reply: "yo".into() },
        ChatRow { id: 5, bot_guid: (1u64 << 32) + 9, player_guid: 2, player_message: "a".into(), bot_reply: "b".into() },
    ];
    let events = state.record_chat(&rows);
    assert_eq!(
        events,
        vec![
            Event::ChatExchange { bot_name: "Bazzul".into(), player_message: "hi".into(), bot_reply: "yo".into() },
            Event::ChatExchange {
                bot_name: "Character #4294967305".into(),
                player_message: "a".into(),
                bot_reply: "b".into(),
            },
        ]
    );
    assert_eq!(state.last_chat_id(), 7);
}

fn quest(guid: u32, quest: u32, name: Option<&str>) -> QuestCompletionRow {
    QuestCompletionRow { guid, quest, quest_name: name.map(|s| s.to_string()) }
}

#[test]
fn quests_seed_silently_then_report_new_ones() {
    let names = names();
    let mut state = PollerState::new(1000);
    state.diff_characters(&names, &vec![character(1, "Bazzul", 10, 14, 100)]);
    let first = vec![quest(1, 10, Some("A")), quest(1, 11, Some("B"))];
    assert!(state.record_quest_completions(&first).is_empty());
    let second = vec![
        quest(1, 10, Some("A")),
        quest(2, 50, Some("Other")),
        quest(1, 12, Some("Jungle Secrets")),
        quest(1, 13, Some("")),
        quest(1, 14, None),
    ];
    let events = state.record_quest_completions(&second);
    assert_eq!(
        events,
        vec![
            Event::QuestCompleted { guid: 1, name: "Bazzul".into(), quest_name: "Jungle Secrets".into() },
            Event::QuestCompleted { guid: 1, name: "Bazzul".into(), quest_name: "Quest #13".into() },
            Event::QuestCompleted { guid: 1, name: "Bazzul".into(), quest_name: "Quest #14".into() },
        ]
    );
    assert!(state.record_quest_completions(&second).is_empty());
    let third = vec![quest(2, 51, Some("Later")), quest(2, 51, Some("Later"))];
    assert_eq!(
        state.record_quest_completions(&third),
        vec![Event::QuestCompleted { guid: 2, name: "Character #2".into(), quest_name: "Later".into() }]
    );
}

#[test]
fn quest_events_are_grouped_by_bot() {
    let names = names();
    let mut state = PollerState::new(1000);
    state.record_quest_completions(&vec![quest(1, 1, None), quest(2, 1, None)]);
    let rows = vec![quest(2, 2, None), quest(1, 2, None), quest(2, 3, None)];
    let events = state.record_quest_completions(&rows);
    let guids: Vec<u32> = events
        .iter()
        .map(|e| match e {
            Event::QuestCompleted { guid, .. } => *guid,
            _ => 0,
        })
        .collect();
    assert_eq!(guids, vec![2, 2, 1]);
    let _ = names;
}

#[test]
fn loot_seeds_silently_then_reports_new_copies() {
    let mut state = PollerState::new(1000);
    let first = vec![LootRow { guid: 1, item_guid: 100, item_name: Some("Sword".into()), quality: 2 }];
    assert!(state.record_loot(&first).is_empty());
    let second = vec![
        LootRow { guid: 1, item_guid: 100, item_name: Some("Sword".into()), quality: 2 },
        LootRow { guid: 1, item_guid: 101, item_name: Some("Zulian Slicer".into()), quality: 3 },
        LootRow { guid: 1, item_guid: 102, item_name: None, quality: 4 },
    ];
    let events = state.record_loot(&second);
    assert_eq!(
        events,
        vec![
            Event::ItemFound { guid: 1, name: "Character #1".into(), item_name: "Zulian Slicer".into(), quality: 3 },
            Event::ItemFound { guid: 1, name: "Character #1".into(), item_name: "Item #102".into(), quality: 4 },
        ]
    );
    assert!(state.record_loot(&second).is_empty());
}

#[test]
fn skills_seed_then_report_rises() {
    let names = names();
    let mut state = PollerState::new(1000);
    state.diff_characters(&names, &vec![character(1, "Bazzul", 10, 14, 100)]);
    let first = vec![SkillRow { guid: 1, skill: SKILL_MINING, value: 40 }];
    assert!(state.record_skills(&first).is_empty());
    let second = vec![
        SkillRow { guid: 1, skill: SKILL_MINING, value: 45 },
        SkillRow { guid: 1, skill: SKILL_HERBALISM, value: 5 },
    ];
    assert_eq!(
        state.record_skills(&second),
        vec![Event::SkillUp { guid: 1, name: "Bazzul".into(), skill_name: "Mining".into(), new_value: 45 }]
    );
    assert!(state.record_skills(&second).is_empty());
    let lower = vec![SkillRow { guid: 1, skill: SKILL_MINING, value: 44 }];
    assert!(state.record_skills(&lower).is_empty());
    let higher = vec![SkillRow { guid: 1, skill: SKILL_MINING, value: 46 }, SkillRow { guid: 1, skill: SKILL_MINING, value: 47 }];
    assert_eq!(state.record_skills(&higher).len(), 2);
}

#[test]
fn groups_form_and_disband() {
    let names = names();
    let mut state = PollerState::new(1000);
    let chars = vec![character(1, "Bazzul", 10, 14, 100), character(2, "Grom", 20, 14, 100)];
    state.diff_characters(&names, &chars);
    let first = vec![GroupMemberRow { guid: 7, member_guid: 2 }, GroupMemberRow { guid: 7, member_guid: 1 }];
    assert!(state.update_groups(&first).is_empty());
    state.finish_tick(&names);
    assert!(state.update_groups(&first).is_empty());
    let second = vec![
        GroupMemberRow { guid: 8, member_guid: 2 },
        GroupMemberRow { guid: 8, member_guid: 9 },
        GroupMemberRow { guid: 8, member_guid: 1 },
    ];
    assert_eq!(
        state.update_groups(&second),
        vec![
            Event::GroupFormed { member_names: vec!["Bazzul".into(), "Grom".into(), "Character #9".into()] },
            Event::GroupDisbanded { member_names: vec!["Bazzul".into(), "Grom".into()] },
        ]
    );
    assert!(state.update_groups(&second).is_empty());
}

#[test]
fn roster_lists_online_characters_with_groups() {
    let names = names();
    let mut state = PollerState::new(1000);
    let mut c = character(2, "Grom", 20, 1637, 100);
    c.position_x_bits = 5000.0f32.to_bits();
    let chars = vec![c, character(1, "Bazzul", 10, 14, 100), character(2, "Grom", 21, 1637, 100)];
    state.diff_characters(&names, &chars);
    state.update_groups(&vec![GroupMemberRow { guid: 7, member_guid: 1 }, GroupMemberRow { guid: 5, member_guid: 1 }]);
    let roster = state.finish_tick(&names);
    assert_eq!(roster.len(), 2);
    assert_eq!(roster[0].guid, 2);
    assert_eq!(roster[0].level, 21);
    assert_eq!(roster[0].zone_name, "Orgrimmar");
    assert_eq!(roster[0].group_id, None);
    assert_eq!(roster[0].position_x_bits, 0);
    assert_eq!(roster[1].guid, 1);
    assert_eq!(roster[1].race, "Troll");
    assert_eq!(roster[1].class, "Rogue");
    assert_eq!(roster[1].map_name, "Kalimdor");
    assert_eq!(roster[1].group_id, Some(5));
}

#[test]
fn resolve_names_falls_back() {
    let names = names();
    let mut state = PollerState::new(0);
    state.diff_characters(&names, &vec![character(1, "Bazzul", 10, 14, 100)]);
    assert_eq!(resolve_names(&[1, 2], &state), vec!["Bazzul".to_string(), "Character #2".to_string()]);
}

fn dbc_file(record_size: u32, field_count: u32, records: &[Vec<u32>], strings: &[u8]) -> Vec<u8> {
    let mut b = Vec::new();
    for v in [0x43424457u32, records.len() as u32, field_count, record_size, strings.len() as u32] {
        b.extend_from_slice(&v.to_le_bytes());
    }
    for r in records {
        assert_eq!(r.len() as u32 * 4, record_size);
        for w in r {
            b.extend_from_slice(&w.to_le_bytes());
        }
    }
    b.extend_from_slice(strings);
    b
}

fn area_record(id: u32, name_offset: u32) -> Vec<u32> {
    let mut r = vec![0u32; 36];
    r[0] = id;
    r[11] = name_offset;
    r
}

#[test]
fn area_table_names_are_extracted() {
    let strings = b"\0Durotar\0Orgrimmar\0";
    let bytes = dbc_file(144, 36, &[area_record(14, 1), area_record(1637, 9), area_record(99, 0)], strings);
    let names = overseer::dbc::zone_names(&bytes).expect("readable");
    assert_eq!(names.len(), 2);
    assert_eq!(names.get(&14).map(|s| s.as_str()), Some("Durotar"));
    assert_eq!(names.get(&1637).map(|s| s.as_str()), Some("Orgrimmar"));
    assert_eq!(names.get(&99), None);
}

#[test]
fn broken_string_references_are_refused() {
    let strings = b"\0Durotar\0";
    let past_block = dbc_file(144, 36, &[area_record(14, 40)], strings);
    assert!(overseer::dbc::zone_names(&past_block).is_none());
    let unterminated = dbc_file(144, 36, &[area_record(14, 1)], b"\0Durotar");
    assert!(overseer::dbc::zone_names(&unterminated).is_none());
    let mut short = dbc_file(144, 36, &[area_record(14, 1)], strings);
    short.truncate(short.len() - 3);
    assert!(overseer::dbc::zone_names(&short).is_none());
}

#[test]
fn wrong_table_is_refused() {
    let strings = b"\0Durotar\0";
    let bytes = dbc_file(144, 36, &[area_record(14, 1)], strings);
    assert!(overseer::dbc::map_names(&bytes).is_none());
    assert!(overseer::dbc::achievement_names(&bytes).is_none());
    let mut bad_magic = bytes.clone();
    bad_magic[0] = 0;
    assert!(overseer::dbc::zone_names(&bad_magic).is_none());
}

#[test]
fn achievement_and_map_tables_are_extracted() {
    let mut ach = vec![0u32; 62];
    ach[0] = 6;
    ach[4] = 1;
    let bytes = dbc_file(248, 62, &[ach], b"\0Level 10\0");
    let names = overseer::dbc::achievement_names(&bytes).expect("readable");
    assert_eq!(names.get(&6).map(|s| s.as_str()), Some("Level 10"));

    let mut m = vec![0u32; 66];
    m[0] = 1;
    m[1] = 1;
    m[5] = 10;
    let bytes = dbc_file(264, 66, &[m], b"\0Kalimdor\0Kalimdor\0");
    let names = overseer::dbc::map_names(&bytes).expect("readable");
    assert_eq!(names.get(&1).map(|s| s.as_str()), Some("Kalimdor"));
}

#[test]
fn written_name_table_reads_back() {
    let rows = vec![(14u32, "Durotar".to_string()), (0, "Zero \"quoted\"".to_string()), (7, String::new())];
    let json = name_table_json_from_rows(&rows);
    let back = parse_name_map(&json);
    assert_eq!(back.len(), 2);
    assert_eq!(back.get(&14).map(|s| s.as_str()), Some("Durotar"));
    assert_eq!(back.get(&0).map(|s| s.as_str()), Some("Zero \"quoted\""));
    let table = name_table_from_rows(&rows);
    assert_eq!(parse_name_map(&name_table_text(&table)), table);
}

#[test]
fn missing_name_files_fall_back_to_raw_ids() {
    let names = NameTables::from_json(None, Some(r#"{"14": "Durotar"}"#), None);
    assert_eq!(names.achievement_name(1234), "Achievement #1234");
    assert_eq!(names.zone_name(14), "Durotar");
    assert_eq!(names.map_name(0), "Map #0");
    assert!(parse_name_file(None).is_empty());
    assert!(parse_name_file(Some("garbage")).is_empty());
}

#[test]
fn pairs_become_an_id_table() {
    let pairs = vec![
        ("12".to_string(), "first".to_string()),
        ("x".to_string(), "skipped".to_string()),
        ("+12".to_string(), "second".to_string()),
        ("0".to_string(), "zero".to_string()),
    ];
    let table = name_map_from_pairs(&pairs);
    assert_eq!(table.len(), 2);
    assert_eq!(table.get(&12).map(|s| s.as_str()), Some("second"));
    assert_eq!(table.get(&0).map(|s| s.as_str()), Some("zero"));
}

#[test]
fn parse_u32_reads_like_std() {
    for s in ["0", "+42", "007", "4294967295", "4294967296", "", "+", "-0", "1a", " 1", "١"] {
        assert_eq!(parse_u32(s), s.parse::<u32>().ok(), "{s}");
    }
}

#[test]
fn a_tick_runs_its_queries_in_order() {
    let names = names();
    let mut state = PollerState::new(1000);
    let mut tick = PollTick::start();
    assert!(matches!(tick.next_query(&state), TickQuery::GuildNames));
    assert!(!tick.deliver(&mut state, &names, TickRows::Achievements(vec![])));
    assert!(tick.deliver(&mut state, &names, TickRows::GuildNames(vec![])));
    assert!(matches!(tick.next_query(&state), TickQuery::OnlineCharacters));
    let rows = vec![character(1, "Bazzul", 10, 14, 100), character(2, "Grom", 20, 14, 100)];
    assert!(tick.deliver(&mut state, &names, TickRows::OnlineCharacters(rows)));
    assert!(matches!(tick.next_query(&state), TickQuery::AchievementsSince(1000)));
    assert!(tick.deliver(
        &mut state,
        &names,
        TickRows::Achievements(vec![AchievementRow { guid: 1, achievement: 6, date: 1500 }])
    ));
    assert!(matches!(tick.next_query(&state), TickQuery::GuildEventsSince(1000)));
    assert!(tick.deliver(&mut state, &names, TickRows::GuildEvents(vec![])));
    assert!(matches!(tick.next_query(&state), TickQuery::BossKillsSince(1000)));
    assert!(tick.deliver(&mut state, &names, TickRows::BossKills(vec![])));
    match tick.next_query(&state) {
        TickQuery::QuestCompletions(g) => assert_eq!(g, vec![1, 2]),
        other => panic!("{other:?}"),
    }
    assert!(tick.deliver(&mut state, &names, TickRows::QuestCompletions(vec![])));
    assert!(matches!(tick.next_query(&state), TickQuery::NotableLoot(_)));
    assert!(tick.deliver(&mut state, &names, TickRows::NotableLoot(vec![])));
    assert!(matches!(tick.next_query(&state), TickQuery::GatheringSkills(_)));
    assert!(tick.deliver(&mut state, &names, TickRows::GatheringSkills(vec![])));
    assert!(matches!(tick.next_query(&state), TickQuery::GroupMembers));
    assert!(tick.deliver(&mut state, &names, TickRows::GroupMembers(vec![])));
    assert!(matches!(tick.next_query(&state), TickQuery::ChatSince(0)));
    assert!(tick.deliver(&mut state, &names, TickRows::Chat(vec![])));
    assert!(matches!(tick.next_query(&state), TickQuery::Finished));
    assert!(!tick.deliver(&mut state, &names, TickRows::Chat(vec![])));
    let (events, roster) = tick.finish(&mut state, &names).expect("done");
    assert_eq!(
        events,
        vec![Event::AchievementEarned { guid: 1, name: "Bazzul".into(), achievement_name: "Level 10".into() }]
    );
    assert_eq!(roster.len(), 2);
    assert!(!state.is_first_tick());
    assert_eq!(state.last_achievement_epoch(), 1500);
}

#[test]
fn an_unfinished_tick_gives_nothing() {
    let names = names();
    let mut state = PollerState::new(1000);
    let tick = PollTick::start();
    assert!(tick.finish(&mut state, &names).is_none());
    assert!(state.is_first_tick());
}
