# engine

The verified core of a small 2D game engine, and the sandbox program around it.

`src/` is the library, checked by Verus:

- `entity` — an id-keyed entity store with generic entity data.
- `input` — keyboard state across frames (just pressed, held, just released).
- `game_loop` — fixed-timestep frame pacing with exact integer time.
- `physics::broadphase` — uniform-grid bucketing and candidate-pair generation.
- `physics::integrator` — rest counting that puts still bodies to sleep.
- `physics::get_two_mut` — simultaneous mutable access to two bodies.
- `renderer` — the per-frame vertex and 16-bit index batch.

`app/` is the windowed sandbox: winit event handling, the wgpu renderer, and
the floating-point physics (shapes, collision detection, impulse solver,
integration), which call into the library for the decisions above.

`tests/` exercises the library on concrete values.
