# deterrence

The verified core of DETERRENCE, a naval air-defence simulation: an Aegis-style
ship detects incoming missiles, builds fire-control solutions, and engages them
under a veto clock with interceptors guided by a few time-shared illuminators.

## Layout

- `src/` — the library, verified with Verus. It holds the integer and discrete
  logic of the game:
  - `fire_control` — weapon and launcher-cell selection, engagement planning
    under doctrine, and the engagement state machine (solution, veto clock,
    launch, flight, veto and confirm);
  - `illuminator` — the illuminator scheduler (release, urgency queue,
    assignment, time-sharing) and the invariants every tick keeps;
  - `threat_ai`, `movement`, `intercept` — threat phase decisions, interceptor
    flight phases and position history, intercept outcomes;
  - `wave_spawner`, `scenario` — wave schedules and the three scenarios;
  - `engine` — the mission lifecycle (menu, active, paused, complete);
  - `terrain` — the `.dtrn` and `.hgt` formats, void filling, coastline
    crossings; `game_loop` — tick pacing and the terrain payload layout;
    `display_scale` — the size of the display grid, computed exactly as
    binary64 arithmetic rounds it, on integers;
  - `state`, `components`, `engagement`, `enums`, `constants` — the data model.
- `tests/` — tests of the library.
- `app/` — the program around it: the ECS world (hecs), random numbers,
  floating-point kinematics, guidance, radar, projection and line of sight,
  file I/O, JSON messages and the 30 Hz game loop. It reads player commands as
  JSON lines on standard input and writes snapshots on standard output; the
  messages are encoded and decoded with `serde_json`.

Floating-point quantities never enter the library: ranges reach it in whole
meters rounded up, durations in ticks, and geographic values as `f64` bit
patterns that it carries unchanged. Where a result depends on how binary64
rounds (the display grid size), the library computes that rounding exactly on
integers.
