# minime

The logic of Mini Me, a Discord bot that answers per-guild dynamic commands,
filters profanity and plays text games, written in Verus and proved against
its contracts.

- `src/` is the verified library:
  - `text`, `numbers`: splitting and joining on a separator, reading and
    writing decimal numbers;
  - `profanity`, `play`, `schizo`, `random`: the profanity filter (the
    `censor` crate), the "uwu" reply (the `uwuify` crate) and the "schizo"
    game (random draws from `rand`; `game_result` says what any stream of
    draws makes of a text, and `schizo_with_draws` replays given draws);
  - `dynamic`: alternatives of a response (`%or`) and the per-channel
    cooldown of dynamic answers;
  - `commands`, `settings`, `mentions`, `messages`, `models`: the decisions
    and replies of the management commands, guild settings and the moderator
    check, with serenity's message formatting;
  - `age`: listing accounts by creation time;
  - `store`: the table of dynamic commands as rows, what the management
    commands do to it, and the laws that hold of it (names stay unique, add
    then remove and rename there and back give the table back, a second copy
    changes nothing).
- `app/` is the bot itself: serenity's framework, the Postgres store (sqlx)
  and the process setup, calling the library for every decision and reply.
- `tests/` runs the library with the real outside crates.
