# smoke

A grid-based smoke simulation with an interactive brush, and a Julia-set
explorer, split into a verified library and a thin application.

`src/` is the library, verified with Verus:

- `input` – key press states (`Idle`, `Down`, `Held`, `Up`) and the registry
  of mouse subscriptions.
- `layout` – the staggered grid: where each cell's face velocities live,
  the initial boundary markers, solid borders, clamped lookups, neighbour
  stencils and flow flags.
- `grid` – the CPU-side grid state shared with the GPU and the record of
  what must be uploaded.
- `interactor` – the brush and its queues of pending edits (`queues::Queue`).
- `runner` – the obstacle, applying queued edits, the inflow bar.
- `julia` – browsing saved Julia constants and reading save-file lines.
- `texture` – per-pixel procedural textures.

Velocities and densities are carried as `f32` bit patterns; the library moves
them but never computes with them.

`app/` is the window (winit), the GPU passes (wgpu, and GL through ogl33),
the floating-point solver, sampling and brush arithmetic, and file I/O.
Shaders are read at run time from `assets/shaders/`.
