//! One application of a plan at a time in each guild.

use vstd::prelude::*;

use crate::ids::GuildId;
use crate::ordered::{has_key, put, without, OrderedMap};

verus! {

/// The guilds in which a plan is being applied.
pub struct GuildApplyLock {
    applying: OrderedMap<GuildId, ()>,
}

/// The right to apply a plan in a guild.
#[derive(Debug)]
pub struct GuildApplyPermit {
    guild_id: GuildId,
}

impl DeepView for GuildApplyLock {
    type V = Seq<(u64, ())>;

    closed spec fn deep_view(&self) -> Seq<(u64, ())> {
        self.applying.deep_view()
    }
}

impl DeepView for GuildApplyPermit {
    type V = u64;

    closed spec fn deep_view(&self) -> u64 {
        self.guild_id.deep_view()
    }
}

impl Default for GuildApplyLock {
    fn default() -> (lock: Self)
        ensures
            lock.deep_view() == Seq::<(u64, ())>::empty(),
    {
        GuildApplyLock { applying: OrderedMap::new() }
    }
}

impl GuildApplyLock {
    /// The right to apply a plan in a guild, unless it is taken.
    pub fn try_acquire(&mut self, guild_id: GuildId) -> (permit: Option<GuildApplyPermit>)
        ensures
            permit.deep_view() == if has_key(old(self).deep_view(), guild_id.deep_view()) {
                None
            } else {
                Some(guild_id.deep_view())
            },
            final(self).deep_view() == if has_key(old(self).deep_view(), guild_id.deep_view()) {
                old(self).deep_view()
            } else {
                put::<GuildId, ()>(old(self).deep_view(), guild_id.deep_view(), ())
            },
    {
        if self.applying.contains_key(&guild_id) {
            None
        } else {
            self.applying.insert(guild_id, ());
            Some(GuildApplyPermit { guild_id })
        }
    }

    /// Gives the right back.
    pub fn release(&mut self, permit: GuildApplyPermit)
        ensures
            final(self).deep_view() == without(old(self).deep_view(), permit.deep_view()),
    {
        self.applying.remove(&permit.guild_id);
    }
}

/// While a guild is taken, it is not given out again; other guilds are.
pub proof fn taken_until_released(taken: Seq<(u64, ())>, guild: u64, other: u64)
    ensures
        has_key(put::<GuildId, ()>(taken, guild, ()), guild),
        !has_key(without(put::<GuildId, ()>(taken, guild, ()), guild), guild),
        other != guild ==> has_key(put::<GuildId, ()>(taken, guild, ()), other) == has_key(taken, other),
        other != guild ==> has_key(without(put::<GuildId, ()>(taken, guild, ()), guild), other) == has_key(
            taken,
            other,
        ),
{
    crate::ordered::put_then_lookup::<GuildId, ()>(taken, guild, (), guild);
    crate::ordered::put_then_lookup::<GuildId, ()>(taken, guild, (), other);
    crate::ordered::without_then_lookup(put::<GuildId, ()>(taken, guild, ()), guild, guild);
    crate::ordered::without_then_lookup(put::<GuildId, ()>(taken, guild, ()), guild, other);
}

} // verus!
