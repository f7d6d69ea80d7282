# totsugeki

Tournament brackets, verified with Verus: players join a bracket, matches are
generated from the seeding (single or double elimination), results are
reported and validated, and players ask for their next opponent.

## Layout

- `src/` the library, verified by Verus:
  - `bracket/` a bracket with its participants, matches and settings, the
    engine that moves winners forward (`matches.rs`), its raw and text forms
  - `seeding/` seeding methods and the generation of single and double
    elimination matches
  - `single_elimination_bracket/`, `double_elimination_bracket/` brackets of
    each format: reports, validation, disqualification, next opponent
  - `matches/` matches, reported results, their text forms and summaries
  - `player.rs`, `opponent.rs`, `format.rs`, `organiser.rs`, `ids.rs`,
    `time.rs` the rest of the domain; identifiers come from `uuid` over random bytes of `rand`, random
    seeding from `rand`, dates from `chrono`
- `tests/` tests of the library
- `app/` the service side: data exchanged with clients (with serde derives),
  start times as dates
