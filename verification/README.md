# Discord management

A library that keeps a Discord guild as a definition file wants it: it exports the roles
and channels of a guild, plans what has to change, and says step by step how a plan is
applied. The rules are proved with Verus.

- `src/configuration`: definitions and states, and what is wrong with them.
- `src/resource`: changes of roles and channels, plans, orders, and sessions that apply a
  plan. A session asks for one request at a time and is told what came of it.
- `src/export`, `src/bind.rs`, `src/plan.rs`: writing a guild down, binding declared names
  to objects of a guild, planning.
- `src/service`: roles with a record of deletions and creations that are pending.
- `src/guild_lock.rs`, `src/confirmation.rs`: one application per guild at a time, and
  confirmations that work once.
- `src/adapter`: what Discord says and is told, as plain values.
- Files named `laws.rs`, `channel_laws.rs`, `written.rs` and `application.rs` hold what is
  proved of several functions together, or of a whole application of a plan.
- `app`: the bot around the library: file texts, requests, the clock, commands.
- `tests`: examples.
