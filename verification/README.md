# swarm

Units that walk to tasks in a 2-D world.

- `src/` is the verified library. `world` and `unit` hold a world whose
  units and tasks live in `slotmap` slot maps (reached through the trusted
  items of `slots`); `flocking` holds a world whose units and tasks are
  numbered in order and kept in `HashMap`s. The contracts cover identities,
  task queues and what each world operation does to them. Positions,
  velocities and statistics are `f32` values, carried as bit patterns
  (`vec2::Vec2Bits`).
- `app/` is the program: the macroquad window loop, the random placement of
  units, the floating-point steering and motion, and drawing.
- `tests/` runs the library on concrete worlds.
