//! Static WotLK 3.3.5a playable race/class ID -> name lookup.

use vstd::prelude::*;

verus! {

/// The display name of a playable race id; ids outside the playable set
/// are shown as "Unknown".
pub open spec fn race_label(race: u8) -> Seq<char> {
    if race == 1 {
        "Human"@
    } else if race == 2 {
        "Orc"@
    } else if race == 3 {
        "Dwarf"@
    } else if race == 4 {
        "Night Elf"@
    } else if race == 5 {
        "Undead"@
    } else if race == 6 {
        "Tauren"@
    } else if race == 7 {
        "Gnome"@
    } else if race == 8 {
        "Troll"@
    } else if race == 10 {
        "Blood Elf"@
    } else if race == 11 {
        "Draenei"@
    } else {
        "Unknown"@
    }
}

/// The display name of a playable class id; ids outside the playable set
/// are shown as "Unknown".
pub open spec fn class_label(class: u8) -> Seq<char> {
    if class == 1 {
        "Warrior"@
    } else if class == 2 {
        "Paladin"@
    } else if class == 3 {
        "Hunter"@
    } else if class == 4 {
        "Rogue"@
    } else if class == 5 {
        "Priest"@
    } else if class == 6 {
        "Death Knight"@
    } else if class == 7 {
        "Shaman"@
    } else if class == 8 {
        "Mage"@
    } else if class == 9 {
        "Warlock"@
    } else if class == 11 {
        "Druid"@
    } else {
        "Unknown"@
    }
}

pub fn race_name(race: u8) -> (name: &'static str)
    ensures
        name@ == race_label(race),
{
    match race {
        1 => "Human",
        2 => "Orc",
        3 => "Dwarf",
        4 => "Night Elf",
        5 => "Undead",
        6 => "Tauren",
        7 => "Gnome",
        8 => "Troll",
        10 => "Blood Elf",
        11 => "Draenei",
        _ => "Unknown",
    }
}

pub fn class_name(class: u8) -> (name: &'static str)
    ensures
        name@ == class_label(class),
{
    match class {
        1 => "Warrior",
        2 => "Paladin",
        3 => "Hunter",
        4 => "Rogue",
        5 => "Priest",
        6 => "Death Knight",
        7 => "Shaman",
        8 => "Mage",
        9 => "Warlock",
        11 => "Druid",
        _ => "Unknown",
    }
}

} // verus!
