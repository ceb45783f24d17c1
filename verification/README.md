# universe

Game rules of a procedurally generated galaxy, verified with Verus, and the HTTP game
server built on them.

- `src/` — the verified library:
  - `star_id`: star labels (`AA-1000-1000`, `!x,y`) and their parser, with the round
    trip proved; packed location ids.
  - `hasher`, `generator`: point hashing, star classes and planet counts from hashes.
  - `battle`: fleet battles between teams of ships and garrisons, specified round by
    round; the executable battle is proved to produce exactly the specified outcome.
  - `buildings`, `resources`, `ships`: building rules and prices, material kinds and
    base prices, ship stances.
  - `requests`: the decisions of the server's requests (building, upgrading, warping,
    docking, forming teams and summing up a battle).
  - `text`: decimal spelling, trimming and integer parsing on characters.
- `tests/` — tests of the library.
- `app/` — the server (axum, sqlx on Postgres, JWT auth) and the `star_finder` command,
  including the floating-point geometry, travel times and material amounts.
