# mjai_reviewer

Review mahjong games with mjai-compatible engines (Mortal, akochan): a
tenhou.net/6 log is read, turned into a stream of mjai events, and one
player's decisions are compared with the engine's.

The library under `src/` is written in Verus; every function carries a
contract that Verus proves, except three small wrappers around std calls
(upper-casing a character, lossy UTF-8 decoding, collecting characters into
a `String`), whose contracts are trusted.

- `pai`: the tiles, their tenhou and mjai numbers and names, compact tile
  lists such as `123m456p0s`.
- `tehai`, `shanten`, `state`: a player's hand, its shanten (normal, seven
  pairs, thirteen orphans) and the state that follows the events.
- `mjai`: the mjai events.
- `tenhou`, `kyoku_filter`: the tenhou.net/6 log and the choice of kyokus
  to review (`E1,E4,S3.1`).
- `conv`: the mjai events of a tenhou.net/6 log; its contract is a
  step-by-step description of the walk through each kyoku.
- `review`, `tracking`: the engine's action numbering, the comparison of
  actions, and the bookkeeping of a review along the events.
- `opts`, `log_source`, `mjsoul_deobfuse`, `round_names`, `num`: command
  options, report names, Mahjong Soul log IDs, kyoku names, decimal numbers.

`app/` holds the command-line program: argument handling, downloading and
reading logs, JSON, the engine processes and the floating-point ratings.
