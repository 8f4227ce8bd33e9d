//! Reading the display names out of the WoW 3.3.5a client's DBC tables
//! (Achievement, AreaTable, Map).
//!
//! A DBC file is a 20-byte header (magic, record count, field count, record
//! size, string-block size, each a little-endian `u32`), the records, then
//! a block of NUL-terminated strings that string fields point into by
//! offset. Before the table reader is handed the bytes, they are checked:
//! when the header is the expected table's, its sizes must fit the file and
//! every string field must be 0 or point into the string block at a string
//! that ends before the block does.

use std::collections::HashMap;
use vstd::prelude::*;

use wow_dbc::wrath_tables::{achievement, area_table};
use wow_dbc::DbcTable;

use crate::names::{name_map_view, name_table_from_rows, named_rows, rows_view};

verus! {

/// The little-endian `u32` at `at`.
pub open spec fn le_u32(b: Seq<u8>, at: int) -> nat {
    b[at] as nat + b[at + 1] as nat * 256 + b[at + 2] as nat * 65536 + b[at + 3] as nat * 16777216
}

/// The header announces the table of this record size and field count.
pub open spec fn dbc_header_matches(b: Seq<u8>, record_size: u32, field_count: u32) -> bool {
    &&& b.len() >= 20
    &&& le_u32(b, 0) == 0x43424457
    &&& le_u32(b, 12) == record_size
    &&& le_u32(b, 8) == field_count
}

/// The string field at word `word` of record `r`.
pub open spec fn string_ref_of(b: Seq<u8>, record_size: u32, r: int, word: u32) -> nat {
    le_u32(b, 20 + r * record_size + 4 * word)
}

/// A string reference is 0 (the empty string) or starts inside the string
/// block at a string that is NUL-terminated inside the block.
pub open spec fn string_ref_ok(b: Seq<u8>, block: int, block_len: nat, s: nat) -> bool {
    s == 0 || (s < block_len && exists|j: int| s <= j < block_len && #[trigger] b[block + j] == 0)
}

/// The bytes can be handed to the reader of the table with this record
/// size, field count and string-field words.
pub open spec fn dbc_readable(b: Seq<u8>, record_size: u32, field_count: u32, words: Seq<u32>) -> bool {
    dbc_header_matches(b, record_size, field_count) ==> {
        let count = le_u32(b, 4);
        let block_len = le_u32(b, 16);
        let records = count * record_size;
        &&& records <= u32::MAX
        &&& 20 + records + block_len <= b.len()
        &&& forall|r: int, w: int|
            #![trigger string_ref_of(b, record_size, r, words[w])]
            0 <= r < count && 0 <= w < words.len() ==> string_ref_ok(
                b,
                20 + records,
                block_len,
                string_ref_of(b, record_size, r, words[w]),
            )
    }
}

fn le_u32_at(b: &[u8], at: usize) -> (v: u32)
    requires
        at + 4 <= b@.len(),
    ensures
        v == le_u32(b@, at as int),
{
    let b0 = b[at] as u32;
    let b1 = b[at + 1] as u32;
    let b2 = b[at + 2] as u32;
    let b3 = b[at + 3] as u32;
    b0 + b1 * 256 + b2 * 65536 + b3 * 16777216
}

/// Whether the string at offset `s` of the block is 0 or properly ended.
fn string_ref_checks(b: &[u8], block: usize, block_len: usize, s: usize) -> (ok: bool)
    requires
        block + block_len <= b@.len(),
    ensures
        ok == string_ref_ok(b@, block as int, block_len as nat, s as nat),
{
    if s == 0 {
        return true;
    }
    if s >= block_len {
        return false;
    }
    let n = b.len();
    let mut j: usize = s;
    while j < block_len
        invariant
            s <= j <= block_len,
            n == b@.len(),
            block + block_len <= n,
            forall|k: int| s <= k < j ==> #[trigger] b@[block + k] != 0,
        decreases block_len - j,
    {
        if b[block + j] == 0 {
            assert(b@[block + j as int] == 0);
            return true;
        }
        j = j + 1;
    }
    assert forall|k: int| s <= k < block_len implies #[trigger] b@[block + k] != 0 by {}
    false
}

/// Checks `dbc_readable` on the bytes.
pub fn dbc_is_readable(b: &[u8], record_size: u32, field_count: u32, words: &[u32]) -> (ok: bool)
    requires
        forall|w: int| 0 <= w < words@.len() ==> 4 * (#[trigger] words@[w]) + 4 <= record_size,
    ensures
        ok == dbc_readable(b@, record_size, field_count, words@),
{
    if b.len() < 20 {
        return true;
    }
    let magic = le_u32_at(b, 0);
    let count = le_u32_at(b, 4);
    let fields = le_u32_at(b, 8);
    let size = le_u32_at(b, 12);
    let block_len = le_u32_at(b, 16);
    if magic != 0x43424457u32 || size != record_size || fields != field_count {
        return true;
    }
    proof {
        assert(count as u64 * record_size as u64 <= u64::MAX) by (nonlinear_arith)
            requires
                count <= u32::MAX,
                record_size <= u32::MAX,
        ;
    }
    let records: u64 = count as u64 * record_size as u64;
    if records > u32::MAX as u64 {
        return false;
    }
    let needed: u64 = 20 + records + block_len as u64;
    if needed > b.len() as u64 {
        return false;
    }
    let block: usize = (20 + records) as usize;
    let block_len: usize = block_len as usize;
    let ghost count_n = le_u32(b@, 4);
    let mut r: u32 = 0;
    let mut rec: usize = 20;
    while r < count
        invariant
            dbc_header_matches(b@, record_size, field_count),
            count == le_u32(b@, 4),
            block_len == le_u32(b@, 16),
            records == count * record_size,
            block == 20 + records,
            block + block_len <= b@.len(),
            forall|w: int| 0 <= w < words@.len() ==> 4 * (#[trigger] words@[w]) + 4 <= record_size,
            0 <= r <= count,
            rec == 20 + r * record_size,
            forall|q: int, w: int|
                #![trigger string_ref_of(b@, record_size, q, words@[w])]
                0 <= q < r && 0 <= w < words@.len() ==> string_ref_ok(
                    b@,
                    block as int,
                    block_len as nat,
                    string_ref_of(b@, record_size, q, words@[w]),
                ),
        decreases count - r,
    {
        proof {
            assert((r + 1) * record_size <= count * record_size) by (nonlinear_arith)
                requires
                    r < count,
            ;
            assert((r + 1) * record_size == r * record_size + record_size) by (nonlinear_arith);
        }
        let mut w: usize = 0;
        while w < words.len()
            invariant
                dbc_header_matches(b@, record_size, field_count),
                count == le_u32(b@, 4),
                block_len == le_u32(b@, 16),
                records == count * record_size,
                block == 20 + records,
                block + block_len <= b@.len(),
                forall|w: int| 0 <= w < words@.len() ==> 4 * (#[trigger] words@[w]) + 4 <= record_size,
                r < count,
                rec == 20 + r * record_size,
                rec + record_size <= block,
                0 <= w <= words@.len(),
                forall|q: int, v: int|
                    #![trigger string_ref_of(b@, record_size, q, words@[v])]
                    0 <= q < r && 0 <= v < words@.len() ==> string_ref_ok(
                        b@,
                        block as int,
                        block_len as nat,
                        string_ref_of(b@, record_size, q, words@[v]),
                    ),
                forall|v: int|
                    #![trigger string_ref_of(b@, record_size, r as int, words@[v])]
                    0 <= v < w ==> string_ref_ok(
                        b@,
                        block as int,
                        block_len as nat,
                        string_ref_of(b@, record_size, r as int, words@[v]),
                    ),
            decreases words@.len() - w,
        {
            let word = words[w];
            let at: usize = rec + 4 * (word as usize);
            let s = le_u32_at(b, at);
            if !string_ref_checks(b, block, block_len, s as usize) {
                proof {
                    assert(string_ref_of(b@, record_size, r as int, words@[w as int]) == s);
                }
                return false;
            }
            w = w + 1;
        }
        proof {
            assert forall|q: int, v: int|
                #![trigger string_ref_of(b@, record_size, q, words@[v])]
                0 <= q < r + 1 && 0 <= v < words@.len() implies string_ref_ok(
                    b@,
                    block as int,
                    block_len as nat,
                    string_ref_of(b@, record_size, q, words@[v]),
                ) by {
                if q == r {
                } else {
                }
            }
        }
        r = r + 1;
        rec = rec + record_size as usize;
    }
    true
}

/// The consecutive words `start`, `start + 1`, ... (`len` of them).
pub open spec fn word_run(start: u32, len: nat) -> Seq<u32> {
    Seq::new(len, |i: int| (start + i) as u32)
}

fn push_run(words: &mut Vec<u32>, start: u32, len: u32)
    requires
        start + len <= u32::MAX,
    ensures
        final(words)@ == old(words)@ + word_run(start, len as nat),
{
    let ghost before = words@;
    let mut i: u32 = 0;
    while i < len
        invariant
            start + len <= u32::MAX,
            0 <= i <= len,
            words@ == before + word_run(start, i as nat),
        decreases len - i,
    {
        words.push(start + i);
        proof {
            assert(words@ =~= before + word_run(start, (i + 1) as nat));
        }
        i = i + 1;
    }
}

/// Achievement.dbc: 62 fields in 248 bytes; the title, description and
/// reward are 16 localized string fields each, at words 4, 21 and 43.
pub open spec fn achievement_string_words() -> Seq<u32> {
    word_run(4, 16) + word_run(21, 16) + word_run(43, 16)
}

/// AreaTable.dbc: 36 fields in 144 bytes; the area name is 16 localized
/// string fields at word 11.
pub open spec fn area_string_words() -> Seq<u32> {
    word_run(11, 16)
}

/// Map.dbc: 66 fields in 264 bytes; the directory is a string field at
/// word 1, the name and two descriptions 16 localized string fields each,
/// at words 5, 23 and 40.
pub open spec fn map_string_words() -> Seq<u32> {
    word_run(1, 1) + word_run(5, 16) + word_run(23, 16) + word_run(40, 16)
}

/// The (id, en-GB title) of each row of the Achievement table that
/// `Achievement::read` reads from the bytes, in row order (the id's bits
/// taken as a `u32`), or `None` when it returns an error.
pub uninterp spec fn achievement_dbc_titles(bytes: Seq<u8>) -> Option<Seq<(u32, Seq<char>)>>;

/// The (id, en-GB area name) of each row that `AreaTable::read` reads, or
/// `None` when it returns an error.
pub uninterp spec fn area_dbc_names(bytes: Seq<u8>) -> Option<Seq<(u32, Seq<char>)>>;

/// The (id, en-GB map name) of each row that `Map::read` reads, or `None`
/// when it returns an error.
pub uninterp spec fn map_dbc_names(bytes: Seq<u8>) -> Option<Seq<(u32, Seq<char>)>>;

/// `DbcTable::read` for wow_dbc's wrath `Achievement` table; each row
/// handed out as its id and en-GB title.
#[verifier::external_body]
fn read_achievement_titles(bytes: &[u8]) -> (rows: Option<Vec<(u32, String)>>)
    requires
        dbc_readable(bytes@, 248, 62, achievement_string_words()),
    ensures
        rows is Some <==> achievement_dbc_titles(bytes@) is Some,
        rows matches Some(v) ==> rows_view(v@) == achievement_dbc_titles(bytes@)->0,
{
    let mut reader: &[u8] = bytes;
    achievement::Achievement::read(&mut reader).ok().map(
        |t| t.rows().iter().map(|r| (r.id.id as u32, r.title_lang.en_gb.clone())).collect(),
    )
}

/// `DbcTable::read` for wow_dbc's wrath `AreaTable` table; each row handed
/// out as its id and en-GB area name.
#[verifier::external_body]
fn read_area_names(bytes: &[u8]) -> (rows: Option<Vec<(u32, String)>>)
    requires
        dbc_readable(bytes@, 144, 36, area_string_words()),
    ensures
        rows is Some <==> area_dbc_names(bytes@) is Some,
        rows matches Some(v) ==> rows_view(v@) == area_dbc_names(bytes@)->0,
{
    let mut reader: &[u8] = bytes;
    area_table::AreaTable::read(&mut reader).ok().map(
        |t| t.rows().iter().map(|r| (r.id.id as u32, r.area_name_lang.en_gb.clone())).collect(),
    )
}

/// `DbcTable::read` for wow_dbc's wrath `Map` table; each row handed out as
/// its id and en-GB map name.
#[verifier::external_body]
fn read_map_names(bytes: &[u8]) -> (rows: Option<Vec<(u32, String)>>)
    requires
        dbc_readable(bytes@, 264, 66, map_string_words()),
    ensures
        rows is Some <==> map_dbc_names(bytes@) is Some,
        rows matches Some(v) ==> rows_view(v@) == map_dbc_names(bytes@)->0,
{
    let mut reader: &[u8] = bytes;
    wow_dbc::wrath_tables::map::Map::read(&mut reader).ok().map(
        |t| t.rows().iter().map(|r| (r.id.id as u32, r.map_name_lang.en_gb.clone())).collect(),
    )
}

/// The achievement names of an Achievement.dbc file, empty titles left out;
/// `None` when the file fails the check or does not read as that table.
pub fn achievement_names(bytes: &[u8]) -> (names: Option<HashMap<u32, String>>)
    ensures
        names is Some <==> dbc_readable(bytes@, 248, 62, achievement_string_words())
            && achievement_dbc_titles(bytes@) is Some,
        names matches Some(n) ==> name_map_view(n@) == named_rows(achievement_dbc_titles(bytes@)->0),
{
    let mut words: Vec<u32> = Vec::new();
    push_run(&mut words, 4, 16);
    push_run(&mut words, 21, 16);
    push_run(&mut words, 43, 16);
    proof {
        assert(words@ =~= achievement_string_words());
    }
    if !dbc_is_readable(bytes, 248, 62, words.as_slice()) {
        return None;
    }
    match read_achievement_titles(bytes) {
        Some(rows) => Some(name_table_from_rows(&rows)),
        None => None,
    }
}

/// The zone names of an AreaTable.dbc file, empty names left out; `None`
/// when the file fails the check or does not read as that table.
pub fn zone_names(bytes: &[u8]) -> (names: Option<HashMap<u32, String>>)
    ensures
        names is Some <==> dbc_readable(bytes@, 144, 36, area_string_words()) && area_dbc_names(bytes@) is Some,
        names matches Some(n) ==> name_map_view(n@) == named_rows(area_dbc_names(bytes@)->0),
{
    let mut words: Vec<u32> = Vec::new();
    push_run(&mut words, 11, 16);
    proof {
        assert(words@ =~= area_string_words());
    }
    if !dbc_is_readable(bytes, 144, 36, words.as_slice()) {
        return None;
    }
    match read_area_names(bytes) {
        Some(rows) => Some(name_table_from_rows(&rows)),
        None => None,
    }
}

/// The map names of a Map.dbc file, empty names left out; `None` when the
/// file fails the check or does not read as that table.
pub fn map_names(bytes: &[u8]) -> (names: Option<HashMap<u32, String>>)
    ensures
        names is Some <==> dbc_readable(bytes@, 264, 66, map_string_words()) && map_dbc_names(bytes@) is Some,
        names matches Some(n) ==> name_map_view(n@) == named_rows(map_dbc_names(bytes@)->0),
{
    let mut words: Vec<u32> = Vec::new();
    push_run(&mut words, 1, 1);
    push_run(&mut words, 5, 16);
    push_run(&mut words, 23, 16);
    push_run(&mut words, 40, 16);
    proof {
        assert(words@ =~= map_string_words());
    }
    if !dbc_is_readable(bytes, 264, 66, words.as_slice()) {
        return None;
    }
    match read_map_names(bytes) {
        Some(rows) => Some(name_table_from_rows(&rows)),
        None => None,
    }
}

} // verus!
