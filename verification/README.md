# arena_shooter

The rules of a small top-down arena shooter built on Bevy, as a verified
library, with the game itself in `app/`.

`src/` holds what the game decides, with contracts proved by Verus:

- `collision` — what a frame of player/enemy contact does: one health lost per
  contact, each contact a kill and a hit, game over when a hit leaves a player
  with no health.
- `projectile` — which bullet destroys which enemy (a maximal matching, no enemy
  twice), and the fire cooldown.
- `enemy` — the one-second spawn timer and where a new enemy enters.
- `props` — the chunked world of scenery around the player: which props go,
  which chunks get filled.
- `game_state`, `score`, `health_ui`, `player` — restart, score and its text,
  the health pips, the input direction.
- `timer`, `rng` — the calls into Bevy's `Timer` and `rand`, with the
  contracts the rest relies on.

`app/` wires these into Bevy systems and keeps what is floating-point math
(movement, camera, overlap tests) or rendering, audio and input.
