//! Achievement / zone / map id -> display name tables, with the "#id"
//! fallbacks used when a name was never extracted.

use std::collections::HashMap;
use vstd::prelude::*;
use vstd::string::StrSliceExecFns;

use crate::text::{decimal, decimal_value, lemma_decimal_digits, numbered, numbered_label};

verus! {

broadcast use vstd::std_specs::hash::group_hash_axioms;

/// An ASCII decimal digit.
pub open spec fn is_ascii_digit(c: char) -> bool {
    48 <= (c as u32) <= 57
}

/// The text after an optional leading `+`.
pub open spec fn unsigned_digits(s: Seq<char>) -> Seq<char> {
    if s.len() > 0 && s[0] == '+' {
        s.drop_first()
    } else {
        s
    }
}

/// Every character is an ASCII decimal digit.
pub open spec fn all_ascii_digits(s: Seq<char>) -> bool {
    forall|i: int| 0 <= i < s.len() ==> is_ascii_digit(#[trigger] s[i])
}

/// What `str::parse::<u32>` gives: an optional `+`, then one or more ASCII
/// decimal digits whose value fits in a `u32`; anything else is rejected.
pub open spec fn parsed_u32(s: Seq<char>) -> Option<u32> {
    let digits = unsigned_digits(s);
    if digits.len() > 0 && all_ascii_digits(digits) && decimal_value(digits) <= u32::MAX {
        Some(decimal_value(digits) as u32)
    } else {
        None
    }
}

/// A prefix of a digit string is worth no more than the whole string.
proof fn lemma_decimal_value_prefix(s: Seq<char>, k: int)
    requires
        0 <= k <= s.len(),
        forall|i: int| 0 <= i < s.len() ==> is_ascii_digit(#[trigger] s[i]),
    ensures
        decimal_value(s.take(k)) <= decimal_value(s),
    decreases s.len() - k,
{
    if k < s.len() {
        lemma_decimal_value_prefix(s, k + 1);
        assert(s.take(k + 1).drop_last() =~= s.take(k));
        assert(is_ascii_digit(s[k]));
    } else {
        assert(s.take(k) =~= s);
    }
}

/// Reads a decimal `u32` as `str::parse::<u32>` does: an optional `+`,
/// then one or more ASCII digits whose value fits.
pub fn parse_u32(s: &str) -> (id: Option<u32>)
    ensures
        id == parsed_u32(s@),
{
    let n = s.unicode_len();
    let mut i: usize = 0;
    if n > 0 && s.get_char(0) == '+' {
        i = 1;
    }
    let start = i;
    let ghost digits = unsigned_digits(s@);
    proof {
        assert(digits =~= s@.subrange(start as int, n as int));
    }
    if i == n {
        return None;
    }
    let mut value: u64 = 0;
    while i < n
        invariant
            n == s@.len(),
            start <= i <= n,
            digits == s@.subrange(start as int, n as int),
            digits == unsigned_digits(s@),
            forall|k: int| 0 <= k < i - start ==> is_ascii_digit(#[trigger] digits[k]),
            value == decimal_value(digits.take(i - start)),
            value <= u32::MAX,
        decreases n - i,
    {
        let c = s.get_char(i);
        let code = c as u32;
        if code < 48 || code > 57 {
            proof {
                let k = i - start;
                assert(digits[k] == c);
                assert(!is_ascii_digit(digits[k]));
                assert(!all_ascii_digits(digits));
                assert(parsed_u32(s@) is None);
            }
            return None;
        }
        let ghost k = i - start;
        proof {
            assert(digits[k] == c);
            assert(digits.take(k + 1).drop_last() =~= digits.take(k));
            assert(digits.take(k + 1).last() == c);
        }
        value = value * 10 + (code as u64 - 48);
        proof {
            assert(value == decimal_value(digits.take(k + 1)));
        }
        if value > 4294967295u64 {
            proof {
                if all_ascii_digits(digits) {
                    lemma_decimal_value_prefix(digits, k + 1);
                    assert(decimal_value(digits) > u32::MAX);
                }
                assert(parsed_u32(s@) is None);
            }
            return None;
        }
        i = i + 1;
    }
    proof {
        assert(digits.take(n - start) =~= digits);
    }
    Some(value as u32)
}

/// The JSON object of string values that `raw` holds, keyed by its member
/// names (a later duplicate member replaces an earlier one), or `None` when
/// `raw` is not such a JSON object.
pub uninterp spec fn json_string_object(raw: Seq<char>) -> Option<Map<Seq<char>, Seq<char>>>;

/// `pairs` lists the members of `m`, each once, in some order.
pub open spec fn pairs_represent(pairs: Seq<(String, String)>, m: Map<Seq<char>, Seq<char>>) -> bool {
    &&& forall|i: int, j: int| 0 <= i < j < pairs.len() ==> (#[trigger] pairs[i]).0@ != (#[trigger] pairs[j]).0@
    &&& forall|i: int| 0 <= i < pairs.len() ==> m.contains_key((#[trigger] pairs[i]).0@) && m[pairs[i].0@] == pairs[i].1@
    &&& forall|k: Seq<char>| #[trigger] m.contains_key(k) ==> exists|i: int| 0 <= i < pairs.len() && (#[trigger] pairs[i]).0@ == k
}

/// `serde_json::from_str` into a string-to-string `HashMap`, whose members
/// are then handed out as pairs. The order of the pairs is the map's
/// iteration order, which nothing here states.
#[verifier::external_body]
fn parse_json_string_object(raw: &str) -> (pairs: Option<Vec<(String, String)>>)
    ensures
        pairs is Some <==> json_string_object(raw@) is Some,
        pairs matches Some(p) ==> pairs_represent(p@, json_string_object(raw@)->0),
{
    serde_json::from_str::<HashMap<String, String>>(raw).ok().map(|m| m.into_iter().collect())
}

/// The ids that the members of `m` are keyed by, once their names are read
/// as `u32` (members whose name is not a `u32` are left out).
pub open spec fn names_by_id_match(m: Map<Seq<char>, Seq<char>>, names: Map<u32, Seq<char>>) -> bool {
    &&& forall|id: u32| #[trigger] names.contains_key(id) <==> exists|k: Seq<char>| m.contains_key(k) && parsed_u32(k) == Some(id)
    &&& forall|id: u32| #[trigger] names.contains_key(id) ==> exists|k: Seq<char>|
        m.contains_key(k) && parsed_u32(k) == Some(id) && m[k] == names[id]
}

/// The view of an id -> name map.
pub open spec fn name_map_view(m: Map<u32, String>) -> Map<u32, Seq<char>> {
    m.map_values(|s: String| s@)
}

/// Member (name, value) pairs as character sequences.
pub open spec fn string_pairs_view(pairs: Seq<(String, String)>) -> Seq<(Seq<char>, Seq<char>)> {
    pairs.map_values(|p: (String, String)| (p.0@, p.1@))
}

/// The id table that (member name, value) pairs give: a member whose name
/// reads as a `u32` gives that id its value, a later one replacing an
/// earlier one; other members are left out.
pub open spec fn id_names(pairs: Seq<(Seq<char>, Seq<char>)>) -> Map<u32, Seq<char>>
    decreases pairs.len(),
{
    if pairs.len() == 0 {
        Map::empty()
    } else {
        match parsed_u32(pairs.last().0) {
            Some(id) => id_names(pairs.drop_last()).insert(id, pairs.last().1),
            None => id_names(pairs.drop_last()),
        }
    }
}

/// Builds the id table of (member name, value) pairs, as `id_names` says.
pub fn name_map_from_pairs(pairs: &Vec<(String, String)>) -> (names: HashMap<u32, String>)
    ensures
        name_map_view(names@) == id_names(string_pairs_view(pairs@)),
        forall|id: u32| #[trigger] names@.contains_key(id) <==> exists|j: int|
            0 <= j < pairs@.len() && parsed_u32((#[trigger] pairs@[j]).0@) == Some(id),
        forall|id: u32| #[trigger] names@.contains_key(id) ==> exists|j: int|
            0 <= j < pairs@.len() && parsed_u32((#[trigger] pairs@[j]).0@) == Some(id) && pairs@[j].1@ == names@[id]@,
{
    let mut names: HashMap<u32, String> = HashMap::new();
    let n = pairs.len();
    let mut i: usize = 0;
    proof {
        assert(name_map_view(names@) =~= id_names(string_pairs_view(pairs@.take(0))));
    }
    while i < n
        invariant
            n == pairs.len(),
            0 <= i <= n,
            name_map_view(names@) == id_names(string_pairs_view(pairs@.take(i as int))),
            forall|id: u32| #[trigger] names@.contains_key(id) <==> exists|j: int|
                0 <= j < i && parsed_u32((#[trigger] pairs@[j]).0@) == Some(id),
            forall|id: u32| #[trigger] names@.contains_key(id) ==> exists|j: int|
                0 <= j < i && parsed_u32((#[trigger] pairs@[j]).0@) == Some(id) && pairs@[j].1@ == names@[id]@,
        decreases n - i,
    {
        let ghost taken = string_pairs_view(pairs@.take(i + 1));
        proof {
            assert(taken.drop_last() =~= string_pairs_view(pairs@.take(i as int)));
            assert(taken.last() == (pairs@[i as int].0@, pairs@[i as int].1@));
        }
        let id = parse_u32(pairs[i].0.as_str());
        match id {
            Some(id) => {
                let value = pairs[i].1.clone();
                names.insert(id, value);
                assert(parsed_u32(pairs@[i as int].0@) == Some(id));
            },
            None => {},
        }
        proof {
            assert(name_map_view(names@) =~= id_names(taken));
        }
        i = i + 1;
    }
    proof {
        assert(pairs@.take(n as int) =~= pairs@);
    }
    names
}

/// Reads one extracted name table: a JSON object whose member names are
/// decimal ids. Text that is not such an object gives an empty table.
pub fn parse_name_map(raw: &str) -> (names: HashMap<u32, String>)
    ensures
        json_string_object(raw@) is None ==> names@ == Map::<u32, String>::empty(),
        json_string_object(raw@) matches Some(m) ==> names_by_id_match(m, name_map_view(names@)),
{
    let parsed = parse_json_string_object(raw);
    match parsed {
        None => HashMap::new(),
        Some(pairs) => {
            let ghost m = json_string_object(raw@)->0;
            let names = name_map_from_pairs(&pairs);
            let n = pairs.len();
            assert forall|id: u32| #[trigger] name_map_view(names@).contains_key(id) <==> exists|k: Seq<char>|
                m.contains_key(k) && parsed_u32(k) == Some(id) by {
                if names@.contains_key(id) {
                    let j = choose|j: int| 0 <= j < n && parsed_u32((#[trigger] pairs@[j]).0@) == Some(id);
                    assert(m.contains_key(pairs@[j].0@));
                }
                if exists|k: Seq<char>| m.contains_key(k) && parsed_u32(k) == Some(id) {
                    let k = choose|k: Seq<char>| m.contains_key(k) && parsed_u32(k) == Some(id);
                    let j = choose|j: int| 0 <= j < pairs.len() && (#[trigger] pairs@[j]).0@ == k;
                    assert(parsed_u32(pairs@[j].0@) == Some(id));
                }
            }
            assert forall|id: u32| #[trigger] name_map_view(names@).contains_key(id) implies exists|k: Seq<char>|
                m.contains_key(k) && parsed_u32(k) == Some(id) && m[k] == name_map_view(names@)[id] by {
                let j = choose|j: int| 0 <= j < n && parsed_u32((#[trigger] pairs@[j]).0@) == Some(id)
                    && pairs@[j].1@ == names@[id]@;
                assert(m.contains_key(pairs@[j].0@));
            }
            names
        },
    }
}

/// `table` is what a name file's text reads as, `None` standing for a
/// missing file: a missing or unreadable file gives an empty table (every
/// id then falls back to "#id"); otherwise the ids its members are named by.
pub open spec fn name_file_reads_as(raw: Option<&str>, table: Map<u32, Seq<char>>) -> bool {
    match raw {
        None => table == Map::<u32, Seq<char>>::empty(),
        Some(r) => match json_string_object(r@) {
            None => table == Map::<u32, Seq<char>>::empty(),
            Some(m) => names_by_id_match(m, table),
        },
    }
}

/// Reads one name file's text, `None` standing for a missing file.
pub fn parse_name_file(raw: Option<&str>) -> (names: HashMap<u32, String>)
    ensures
        name_file_reads_as(raw, name_map_view(names@)),
{
    let names = match raw {
        None => HashMap::new(),
        Some(r) => parse_name_map(r),
    };
    proof {
        if raw is None || json_string_object(raw->0@) is None {
            assert(name_map_view(names@) =~= Map::<u32, Seq<char>>::empty());
        }
    }
    names
}

/// The names that the rows of a game-client table give, by id: rows with an
/// empty name are left out, and a later row for an id replaces an earlier
/// one.
pub open spec fn named_rows(rows: Seq<(u32, Seq<char>)>) -> Map<u32, Seq<char>>
    decreases rows.len(),
{
    if rows.len() == 0 {
        Map::empty()
    } else if rows.last().1.len() == 0 {
        named_rows(rows.drop_last())
    } else {
        named_rows(rows.drop_last()).insert(rows.last().0, rows.last().1)
    }
}

/// (id, name) rows with their names as character sequences.
pub open spec fn rows_view(rows: Seq<(u32, String)>) -> Seq<(u32, Seq<char>)> {
    rows.map_values(|p: (u32, String)| (p.0, p.1@))
}

/// Builds an id -> name table from extracted (id, name) rows.
pub fn name_table_from_rows(rows: &Vec<(u32, String)>) -> (names: HashMap<u32, String>)
    ensures
        name_map_view(names@) == named_rows(rows_view(rows@)),
{
    let mut names: HashMap<u32, String> = HashMap::new();
    let n = rows.len();
    let mut i: usize = 0;
    proof {
        assert(name_map_view(names@) =~= named_rows(rows_view(rows@.take(0))));
    }
    while i < n
        invariant
            n == rows.len(),
            0 <= i <= n,
            name_map_view(names@) == named_rows(rows_view(rows@.take(i as int))),
        decreases n - i,
    {
        if !rows[i].1.as_str().is_empty() {
            let name = rows[i].1.clone();
            names.insert(rows[i].0, name);
        }
        proof {
            assert(rows_view(rows@.take(i + 1)).drop_last() =~= rows_view(rows@.take(i as int)));
            assert(name_map_view(names@) =~= named_rows(rows_view(rows@.take(i + 1))));
        }
        i = i + 1;
    }
    proof {
        assert(rows@.take(n as int) =~= rows@);
    }
    names
}

/// `m` is the JSON object of a name table written out: each id's name under
/// the id in decimal, and no other members.
pub open spec fn decimal_keyed(names: Map<u32, Seq<char>>, m: Map<Seq<char>, Seq<char>>) -> bool {
    &&& forall|id: u32| #[trigger] names.contains_key(id) ==> m.contains_key(decimal(id as nat)) && m[decimal(id as nat)]
        == names[id]
    &&& forall|k: Seq<char>| #[trigger] m.contains_key(k) ==> exists|id: u32| names.contains_key(id) && k == decimal(id as nat)
}

/// `serde_json::to_string_pretty` on an id -> name table: a JSON object
/// with one string member per id, named by the id in decimal. Writing
/// such a map cannot fail; the empty text of the error case never occurs.
#[verifier::external_body]
fn name_table_json(names: &HashMap<u32, String>) -> (json: String)
    ensures
        json_string_object(json@) is Some,
        decimal_keyed(name_map_view(names@), json_string_object(json@)->0),
{
    serde_json::to_string_pretty(names).unwrap_or_default()
}

/// The JSON text a name table is stored as.
pub fn name_table_text(names: &HashMap<u32, String>) -> (json: String)
    ensures
        json_string_object(json@) is Some,
        decimal_keyed(name_map_view(names@), json_string_object(json@)->0),
{
    name_table_json(names)
}

/// The JSON text of the name table that extracted (id, name) rows give.
pub fn name_table_json_from_rows(rows: &Vec<(u32, String)>) -> (json: String)
    ensures
        json_string_object(json@) is Some,
        decimal_keyed(named_rows(rows_view(rows@)), json_string_object(json@)->0),
{
    let table = name_table_from_rows(rows);
    name_table_json(&table)
}

/// An id written in decimal reads back as that id.
pub proof fn lemma_decimal_reads_back(n: u32)
    ensures
        parsed_u32(decimal(n as nat)) == Some(n),
{
    lemma_decimal_digits(n as nat);
    let s = decimal(n as nat);
    assert(s[0] != '+') by {
        assert(48 <= (s[0] as u32) <= 57);
    }
    assert forall|i: int| 0 <= i < s.len() implies is_ascii_digit(#[trigger] s[i]) by {
        assert(48 <= (s[i] as u32) <= 57);
    }
}

proof fn lemma_read_id_is_written(
    names: Map<u32, Seq<char>>,
    m: Map<Seq<char>, Seq<char>>,
    read: Map<u32, Seq<char>>,
    id: u32,
)
    requires
        decimal_keyed(names, m),
        names_by_id_match(m, read),
        read.contains_key(id),
    ensures
        names.contains_key(id),
        read[id] == names[id],
{
    let k = choose|k: Seq<char>| m.contains_key(k) && parsed_u32(k) == Some(id) && m[k] == read[id];
    assert(m.contains_key(k));
    let j = choose|j: u32| names.contains_key(j) && k == decimal(j as nat);
    lemma_decimal_reads_back(j);
    assert(j == id);
}

proof fn lemma_written_id_is_read(
    names: Map<u32, Seq<char>>,
    m: Map<Seq<char>, Seq<char>>,
    read: Map<u32, Seq<char>>,
    id: u32,
)
    requires
        decimal_keyed(names, m),
        names_by_id_match(m, read),
        names.contains_key(id),
    ensures
        read.contains_key(id),
{
    lemma_decimal_reads_back(id);
    let k = decimal(id as nat);
    assert(m.contains_key(k));
    assert(m.contains_key(k) && parsed_u32(k) == Some(id));
}

/// A name table written as JSON text reads back as the same table: the ids
/// that `parse_name_map` finds in text written by
/// `name_table_json_from_rows` are exactly the table's ids, with their
/// names.
pub proof fn law_written_table_reads_back(
    names: Map<u32, Seq<char>>,
    m: Map<Seq<char>, Seq<char>>,
    read: Map<u32, Seq<char>>,
)
    requires
        decimal_keyed(names, m),
        names_by_id_match(m, read),
    ensures
        read == names,
{
    assert forall|id: u32| #[trigger] read.contains_key(id) <==> names.contains_key(id) by {
        if names.contains_key(id) {
            lemma_written_id_is_read(names, m, read, id);
        }
        if read.contains_key(id) {
            lemma_read_id_is_written(names, m, read, id);
        }
    }
    assert forall|id: u32| #[trigger] read.contains_key(id) implies read[id] == names[id] by {
        lemma_read_id_is_written(names, m, read, id);
    }
    assert(read =~= names);
}

/// A name looked up in `names`, or `prefix` and the id when it is missing.
pub open spec fn label_or_numbered(names: Map<u32, Seq<char>>, id: u32, prefix: Seq<char>) -> Seq<char> {
    if names.contains_key(id) {
        names[id]
    } else {
        numbered(prefix, id as nat)
    }
}

fn lookup_or_numbered(names: &HashMap<u32, String>, id: u32, prefix: &str) -> (label: String)
    ensures
        label@ == label_or_numbered(name_map_view(names@), id, prefix@),
{
    match names.get(&id) {
        Some(name) => name.clone(),
        None => numbered_label(prefix, id as u64),
    }
}

/// The display names extracted from the game client.
pub struct NameTables {
    achievements: HashMap<u32, String>,
    zones: HashMap<u32, String>,
    maps: HashMap<u32, String>,
}

/// What a `NameTables` holds: id -> name for achievements, zones and maps.
pub struct NameTablesView {
    pub achievements: Map<u32, Seq<char>>,
    pub zones: Map<u32, Seq<char>>,
    pub maps: Map<u32, Seq<char>>,
}

impl View for NameTables {
    type V = NameTablesView;

    closed spec fn view(&self) -> NameTablesView {
        NameTablesView {
            achievements: name_map_view(self.achievements@),
            zones: name_map_view(self.zones@),
            maps: name_map_view(self.maps@),
        }
    }
}

impl NameTablesView {
    pub open spec fn achievement_label(self, id: u32) -> Seq<char> {
        label_or_numbered(self.achievements, id, "Achievement #"@)
    }

    pub open spec fn zone_label(self, id: u32) -> Seq<char> {
        label_or_numbered(self.zones, id, "Zone #"@)
    }

    pub open spec fn map_label(self, id: u32) -> Seq<char> {
        label_or_numbered(self.maps, id, "Map #"@)
    }
}

impl NameTables {
    /// Tables made of the given maps.
    pub fn from_maps(
        achievements: HashMap<u32, String>,
        zones: HashMap<u32, String>,
        maps: HashMap<u32, String>,
    ) -> (tables: Self)
        ensures
            tables@.achievements == name_map_view(achievements@),
            tables@.zones == name_map_view(zones@),
            tables@.maps == name_map_view(maps@),
    {
        NameTables { achievements, zones, maps }
    }

    /// Tables with no names at all: every lookup falls back to "#id".
    pub fn empty() -> (tables: Self)
        ensures
            tables@.achievements == Map::<u32, Seq<char>>::empty(),
            tables@.zones == Map::<u32, Seq<char>>::empty(),
            tables@.maps == Map::<u32, Seq<char>>::empty(),
    {
        let tables = NameTables { achievements: HashMap::new(), zones: HashMap::new(), maps: HashMap::new() };
        proof {
            assert(tables@.achievements =~= Map::<u32, Seq<char>>::empty());
            assert(tables@.zones =~= Map::<u32, Seq<char>>::empty());
            assert(tables@.maps =~= Map::<u32, Seq<char>>::empty());
        }
        tables
    }

    /// Tables read from the three extracted name files' text (achievements,
    /// zones, maps), each as `parse_name_file` reads it (`None` for a
    /// missing file).
    pub fn from_json(achievements_raw: Option<&str>, zones_raw: Option<&str>, maps_raw: Option<&str>) -> (tables: Self)
        ensures
            name_file_reads_as(achievements_raw, tables@.achievements),
            name_file_reads_as(zones_raw, tables@.zones),
            name_file_reads_as(maps_raw, tables@.maps),
    {
        let achievements = parse_name_file(achievements_raw);
        let zones = parse_name_file(zones_raw);
        let maps = parse_name_file(maps_raw);
        NameTables { achievements, zones, maps }
    }

    /// How many achievement names the tables hold.
    pub fn achievement_count(&self) -> (n: usize)
        ensures
            n == self@.achievements.len(),
    {
        proof {
            assert(self@.achievements.dom() =~= self.achievements@.dom());
        }
        self.achievements.len()
    }

    /// How many zone names the tables hold.
    pub fn zone_count(&self) -> (n: usize)
        ensures
            n == self@.zones.len(),
    {
        proof {
            assert(self@.zones.dom() =~= self.zones@.dom());
        }
        self.zones.len()
    }

    pub fn achievement_name(&self, id: u32) -> (name: String)
        ensures
            name@ == self@.achievement_label(id),
    {
        lookup_or_numbered(&self.achievements, id, "Achievement #")
    }

    pub fn zone_name(&self, id: u32) -> (name: String)
        ensures
            name@ == self@.zone_label(id),
    {
        lookup_or_numbered(&self.zones, id, "Zone #")
    }

    pub fn map_name(&self, id: u32) -> (name: String)
        ensures
            name@ == self@.map_label(id),
    {
        lookup_or_numbered(&self.maps, id, "Map #")
    }
}

} // verus!
