//! The wording of the events whose text is not a plain name.

use vstd::prelude::*;

use crate::db::{SKILL_HERBALISM, SKILL_MINING, SKILL_SKINNING};
use crate::poller::PollerState;
use crate::text::{decimal, numbered_label, push_decimal};
use vstd::string::StringExecFns;

verus! {

/// The name of a gathering skill line; other skill lines read "Gathering".
pub open spec fn gathering_skill_label(skill: u16) -> Seq<char> {
    if skill == SKILL_HERBALISM {
        "Herbalism"@
    } else if skill == SKILL_MINING {
        "Mining"@
    } else if skill == SKILL_SKINNING {
        "Skinning"@
    } else {
        "Gathering"@
    }
}

pub fn gathering_skill_name(skill: u16) -> (name: &'static str)
    ensures
        name@ == gathering_skill_label(skill),
{
    if skill == SKILL_HERBALISM {
        "Herbalism"
    } else if skill == SKILL_MINING {
        "Mining"
    } else if skill == SKILL_SKINNING {
        "Skinning"
    } else {
        "Gathering"
    }
}

/// How a completed encounter is named: kill credit (`credit_type` 0) names
/// the boss when its name is known and not empty; other credit is an
/// objective, named by its entry.
pub open spec fn boss_label(credit_type: u8, credit_entry: u32, boss_name: Option<Seq<char>>) -> Seq<char> {
    if credit_type == 0 {
        match boss_name {
            Some(name) if name.len() > 0 => name,
            _ => "Unknown Boss (Entry #"@ + decimal(credit_entry as nat) + ")"@,
        }
    } else {
        "Encounter Objective #"@ + decimal(credit_entry as nat)
    }
}

/// The view of an optional string slice.
pub open spec fn opt_str_view(s: Option<&str>) -> Option<Seq<char>> {
    match s {
        Some(s) => Some(s@),
        None => None,
    }
}

pub fn describe_boss(credit_type: u8, credit_entry: u32, boss_name: Option<&str>) -> (name: String)
    ensures
        name@ == boss_label(credit_type, credit_entry, opt_str_view(boss_name)),
{
    if credit_type == 0 {
        match boss_name {
            Some(name) if !name.is_empty() => name.to_owned(),
            _ => {
                let mut label = String::new();
                label.append("Unknown Boss (Entry #");
                push_decimal(&mut label, credit_entry as u64);
                label.append(")");
                proof {
                    assert(label@ =~= "Unknown Boss (Entry #"@ + decimal(credit_entry as nat) + ")"@);
                }
                label
            },
        }
    } else {
        numbered_label("Encounter Objective #", credit_entry as u64)
    }
}

/// What a guild event-log entry of the given type says about `actor`.
/// Types 0..=8 are AzerothCore's guild event codes; other types are told
/// generically, with their number.
pub open spec fn guild_event_text(event_type: u8, actor: Seq<char>) -> Seq<char> {
    if event_type == 0 {
        actor + " was invited to the guild"@
    } else if event_type == 1 {
        actor + " joined the guild"@
    } else if event_type == 2 {
        actor + " left the guild"@
    } else if event_type == 3 {
        actor + " was kicked from the guild"@
    } else if event_type == 4 {
        actor + " was promoted"@
    } else if event_type == 5 {
        actor + " was demoted"@
    } else if event_type == 6 {
        "Guild leadership changed"@
    } else if event_type == 7 {
        "A guild rank was created"@
    } else if event_type == 8 {
        "A guild rank was removed"@
    } else {
        actor + " triggered a guild event (type "@ + decimal(event_type as nat) + ")"@
    }
}

proof fn lemma_tails_differ(x: Seq<char>, y: Seq<char>, j: int)
    requires
        0 <= j < x.len(),
        j < y.len(),
        x[x.len() - 1 - j] != y[y.len() - 1 - j],
    ensures
        x != y,
{
}

/// Promotion and demotion are told apart: an entry of type 4 says that the
/// actor was promoted, one of type 5 that the actor was demoted, and the
/// nine known types 0..=8 are worded differently from one another, whoever
/// the actor is.
pub proof fn law_guild_event_wordings_differ(actor: Seq<char>)
    ensures
        guild_event_text(4, actor) == actor + " was promoted"@,
        guild_event_text(5, actor) == actor + " was demoted"@,
        forall|a: u8, b: u8|
            a < b <= 8 ==> #[trigger] guild_event_text(a, actor) != #[trigger] guild_event_text(b, actor),
{
    reveal_strlit(" was invited to the guild");
    reveal_strlit(" joined the guild");
    reveal_strlit(" left the guild");
    reveal_strlit(" was kicked from the guild");
    reveal_strlit(" was promoted");
    reveal_strlit(" was demoted");
    reveal_strlit("Guild leadership changed");
    reveal_strlit("A guild rank was created");
    reveal_strlit("A guild rank was removed");
    assert forall|a: u8, b: u8| a < b <= 8 implies #[trigger] guild_event_text(a, actor) != #[trigger] guild_event_text(
        b,
        actor,
    ) by {
        if b >= 6 {
            let j: int = if a <= 3 {
                1
            } else if a <= 5 && b == 7 {
                3
            } else {
                2
            };
            lemma_tails_differ(guild_event_text(a, actor), guild_event_text(b, actor), j);
        }
    }
}

fn actor_sentence(actor: &str, rest: &str) -> (text: String)
    ensures
        text@ == actor@ + rest@,
{
    let mut text = String::new();
    text.append(actor);
    text.append(rest);
    proof {
        assert(text@ =~= actor@ + rest@);
    }
    text
}

/// Describes a guild event-log entry; the second player of the entry and
/// the poller's state are not used in the wording.
pub fn describe_guild_event(event_type: u8, actor: &str, _target_guid: u32, _state: &PollerState) -> (text: String)
    ensures
        text@ == guild_event_text(event_type, actor@),
{
    match event_type {
        0 => actor_sentence(actor, " was invited to the guild"),
        1 => actor_sentence(actor, " joined the guild"),
        2 => actor_sentence(actor, " left the guild"),
        3 => actor_sentence(actor, " was kicked from the guild"),
        4 => actor_sentence(actor, " was promoted"),
        5 => actor_sentence(actor, " was demoted"),
        6 => "Guild leadership changed".to_owned(),
        7 => "A guild rank was created".to_owned(),
        8 => "A guild rank was removed".to_owned(),
        other => {
            let mut text = String::new();
            text.append(actor);
            text.append(" triggered a guild event (type ");
            push_decimal(&mut text, other as u64);
            text.append(")");
            proof {
                assert(text@ =~= actor@ + " triggered a guild event (type "@ + decimal(other as nat) + ")"@);
            }
            text
        },
    }
}

} // verus!
