# spacecam

The entity-component-system core of a small space-camera game, with its
bookkeeping proved correct, and the game's rules that sit on top of it.

- `src/free_list.rs`: a slot allocator that hands freed slots out again,
  most recently freed first.
- `src/ces/`: entities and their per-kind component slots, the component
  stores, removals deferred to the next update, systems and the lists of
  entities they track, the world that ties them together, and the laws that
  hold across its operations (`laws.rs`).
- `src/game/`: which entities gravity and the hidden switch track, the
  bodies a level is built of, the decisions of the main loop, the title
  menu and intermission screens, the high-score file format, mission-set
  configuration and level lookups, the resource cache, and sound-voice choice.
- `src/physics.rs`: the demonstration's physics system.
- `app/`: the demonstration program, with the floating-point movement, and
  the file reading and writing of the game.
