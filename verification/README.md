# rusty_fusion (verified core)

The verified core of a FusionFall server: the logic that decides, with
contracts proved by Verus, and a thin runtime around it.

- `src/` — the verified library:
  - `grid`, `chunk_map`, `chunk`: the chunk grid of each map instance, the
    registry of tracked entities, visibility around a chunk, load counts
    (a chunk is loaded while a player is within sight of it), tick modes,
    channels and the clean-up of empty private instances.
  - `config`: the settings of the servers with their defaults, merging of
    partial configurations, and the command-line override syntax
    (`section.key=value`, `config=<path>`) turned into TOML text.
  - `database`: the retry policy of database calls and the errors of a
    failed connection; `database::test_suite` builds test configurations.
  - `login`, `perms`, `mission`, `nano`, `enter`, `trade`, `ai`: the
    decisions of the login request (name and password checks, bans), of the
    `/perms` command, of starting and ending mission tasks, of nano skill
    use and stamina drain, of a player entering the shard and its channel,
    of trade-offer replies and of NPC behaviour.
  - `text`, `entity`, `error`, `defines`: shared helpers and types.
- `tests/` — runtime tests of the library.
- `app/` — file and command-line reading, the global configuration,
  logging, the asynchronous database retry driver, and drivers that run the
  login, `/perms` and entering decisions around their lookups.
