# Dolbaeb simulator

A top-down action game built on Macroquad. The game rules live in a library verified
with Verus (`src/`); the window, drawing, sound, input and floating-point motion live in
the program around it (`app/`).

## Layout

- `src/tilemap.rs` — the walkable grid of a map: cost map, shortest-route search
  (Dijkstra over eight directions, no corner cutting) and the flow field that enemies
  follow, with proofs that the distances are least and that the flow always leads closer.
- `src/tiled.rs` — reading the wall layer out of a Tiled JSON map.
- `src/text.rs` — the string operations the terminal needs (trimming, words, editing).
- `src/ui.rs` — the in-game terminal and pause menu as a state machine over key presses
  and typed characters.
- `src/objects.rs`, `src/entity.rs`, `src/player.rs`, `src/enemy.rs` — weapons,
  animations, dying, picking up, attacking, finishing blows and enemy states.
- `src/level.rs` — the levels and the exits between them.
- `src/input.rs` — the aiming cursor and its lock on enemies.
- `tests/` — tests of the library.
- `app/` — the game loop, assets, rendering, camera, audio and motion.

Assets are read at run time from `assets/` and the trip-effect shader from
`effects/da.glsl`, next to the working directory.
