# MINECRAFT 2, verified

The logic of a voxel sandbox as a Verus library: a sparse voxel world, its
layout for the GPU, the terrain generator's decisions, and the rules of the
window, the inventory and scripted play.

- `src/` is the library `minecraft2`. Every function states its contract in
  `requires` and `ensures`, and the properties that span several functions are
  public proof functions beside them.
- `tests/` runs the library on concrete values.
- `app/` is the program around it: arguments, files, the window, threads, and
  the floating-point arithmetic of noise, erosion and sound.

Floating point enters the library in three exact forms: as draws of 24 bits,
as integer keys that order as the floats they stand for (`key`), and as fixed
fractions. `rand`, `flora` and `settlement` give thresholds in these forms.
