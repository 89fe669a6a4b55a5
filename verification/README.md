# r2s_server

The game-server rules of a CTF platform, verified with Verus: how challenge
configurations are checked, how attack-and-defense, KoH, fix and range rounds are
scored, how games are synchronised between instances, and the naming and framing
rules around them.

- `src/` is the verified library. Each module holds one area (`fix`, `awd`, `awdp`,
  `fix_check`, `koh`, `koh_round`, `ranking`, `scoreboard`, `isw`, `sync`, `manifest`, `registry`,
  `git`, `instance`, `lifecycle`, `bucket`, `cluster`, ...) with its types, the spec
  functions that say what its operations compute, and the proofs of its laws.
  `text` holds the character-level primitives the rest is written with.
- `tests/` runs the library on concrete values.
- `app/` holds what the library leaves out: serialised forms of its types, the
  system's temporary directory, HTTP header access, the loop that performs the steps
  of a fix check, and the floating-point curve of attack rewards.
