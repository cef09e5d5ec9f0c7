# fluids

A 3D particle water simulation, with the parts that can be reasoned about exactly
written and proved in [Verus](https://github.com/verus-lang/verus).

The solver is Position Based Fluids: predict, find neighbours, correct the
positions until the density is right, and read the velocities back out of them. It
runs on the host or, pass for pass, as compute shaders on the renderer's device.
The water is drawn as the isosurface of its density.

## What is proved

`src/` is the verified library. It holds no floating point: a number is the bits
of one ([`single`](src/single.rs)), which can be compared, negated, clamped and
rounded to a whole number exactly. Whatever rounds is worked out in `app/` and
handed over.

| module | |
|---|---|
| `single`, `num` | exact operations on numbers, and rounding to multiples and powers |
| `grid` | the neighbour grid: a counting sort, and the candidates around a cell |
| `sim` | the tank: filling it, its walls, and the neighbour lists |
| `config`, `wave` | the settings, their defaults, and what they are refused for |
| `scan`, `agreement` | the device's prefix sum, and that its grid and its triangle count are the host's |
| `gpu`, `sim_gpu`, `gpu_params` | what kernels bind, how work is dispatched, and what shaders read |
| `gpu_fluid`, `discipline`, `repetition` | the programs the solver runs on a device, that they are well formed, and that runs repeat |
| `numbering`, `transfer` | renumbered particles, and state on its way to the device and back |
| `surface`, `closed` | marching tetrahedra, and that the surface has no cracks |
| `surface_gpu`, `spray_gpu` | the surface and the spray on the device |
| `playback`, `render`, `camera` | the keys, captures, what is drawn, and the camera |

What the shaders do is not proved, and what is said of the device rests on it: that
each particle is scattered into its own cell and each cell is sorted, that a step
moves each slot's own particle, that each cube's facets are counted, and that the
same program makes the same of the same memory.

`app/` is the program around it: the config file, the arithmetic that rounds, the
device, and the window. It reads its shaders from `assets/shaders`, and solves on
the host where it cannot.

## Configuration

Everything tunable lives in `config.toml`; pass another path as the first argument.
Every field is optional, an unknown one is an error, and a setting that the solver
could not survive is refused with what to change.

| | |
|---|---|
| left mouse | push the water away from the cursor; with shift, pull it |
| drag, WASD, Q, E | look around and fly |
| space | pause / resume |
| `R` | replay the current scene, restoring gravity |
| `G` | flip gravity |
| `S` | normal speed / slow motion |
| `P` | water surface / particle diagnostic |
| `B` | tank bounds |
| `F12` | save a screenshot |

`FLUIDS_CAPTURE_PATH` saves a picture at `FLUIDS_CAPTURE_AT` simulated seconds and
exits. With `FLUIDS_CAPTURE_UNTIL` the path is a directory for a numbered sequence,
`FLUIDS_CAPTURE_FPS` pictures per simulated second.
