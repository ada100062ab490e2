# FractalExplorer

An explorable Mandelbrot canvas. The library under `src/` is written in Verus:
every function states its behaviour in `requires`/`ensures` and Verus proves it.
The program under `app/` is ordinary Rust around the library: configuration,
worker threads, the floating-point camera and the native window.

## Library modules

- `limbs`, `fixed`: multi-limb magnitudes and signed fixed-point values, with
  exact arithmetic contracts and algebraic laws.
- `calculator`: escape-time iteration in fixed point, centred and anchored tile
  calculation, and the range check under which every orbit stays representable.
- `precision`: render plans chosen from the renderer settings.
- `tile_grid`: the tile grid of one canvas layer — coverage of screen bounds,
  trimming, and the queue of tiles waiting for the workers — with laws on
  coverage, idempotence and trimming.
- `geometry`, `input`: screen and plane points; mouse state and window events
  turned into navigation events.
- `lib.rs` (`Sprite`), `renderer`: sprites, scaled placement, text, outlines,
  markers, the shade palette and frame timing.
- `render`: frames, image updates, the CPU render target, a graphics-device
  abstraction with a mock device, and the texture cache that uploads image
  updates atomically.
- `gpu`, `gpu_window`: texture keys, pixel hashing, batch preparation and the
  bookkeeping of GPU buffers and overlays.
- `orchestrator`: tile status and per-frame event logs; `output`: the ordered
  batch queue behind process output; `app`, `config`: controller decisions and
  settings rules; `config_ui`: the settings editor, which discovers every
  setting of a configuration document and edits it under the settings' rules.

## Program

`app/main.rs` reads `config.toml`, starts the output writer and the tile
workers, and runs the window loop in `app/window.rs`. `app/config_ui.rs`
turns the settings into a document for the editor and reads the edited
document back.

The GPU window and the settings window are not part of this program: they
are built on `wgpu`, `winit` and `eframe`, which were not available to build
against. Their decisions (batch preparation, texture caching, buffer and
overlay bookkeeping, settings discovery and editing) are in the library; the
program opens the CPU window only.
