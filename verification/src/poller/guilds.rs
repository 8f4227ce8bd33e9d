//! The guild-name refresh that opens every tick.

use vstd::prelude::*;

use crate::db::GuildNameRow;
use crate::poller::{PollerState, PollerView};

verus! {

/// The guild names that the rows give, a later row for the same guild
/// replacing an earlier one.
pub open spec fn guild_name_map(rows: Seq<GuildNameRow>) -> Map<u32, Seq<char>>
    decreases rows.len(),
{
    if rows.len() == 0 {
        Map::empty()
    } else {
        guild_name_map(rows.drop_last()).insert(rows.last().guildid, rows.last().name@)
    }
}

impl PollerState {
    /// Replaces the remembered guild names by those of `rows`.
    pub fn set_guild_names(&mut self, rows: Vec<GuildNameRow>)
        ensures
            final(self)@ == (PollerView { guild_names: guild_name_map(rows@), ..old(self)@ }),
    {
        let mut names: std::collections::HashMap<u32, String> = std::collections::HashMap::new();
        let n = rows.len();
        let mut i: usize = 0;
        while i < n
            invariant
                n == rows.len(),
                0 <= i <= n,
                crate::names::name_map_view(names@) == guild_name_map(rows@.take(i as int)),
            decreases n - i,
        {
            let name = rows[i].name.clone();
            names.insert(rows[i].guildid, name);
            proof {
                assert(rows@.take(i + 1).drop_last() =~= rows@.take(i as int));
                assert(crate::names::name_map_view(names@) =~= guild_name_map(rows@.take(i + 1)));
            }
            i = i + 1;
        }
        proof {
            assert(rows@.take(n as int) =~= rows@);
        }
        self.guild_names = names;
    }
}

} // verus!
