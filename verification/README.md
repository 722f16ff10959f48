# rphys

A renderer of 2D physics races to video, whose decision logic is written in
Verus and proved against its contracts.

- `src/` is the verified library: scene validation (`scene_parse`,
  `scene_errors`, `color`), end conditions of a simulation (`conditions`),
  race standings, checkpoints and eliminations (`race`, with the laws in
  `race_laws`), the pre-race countdown (`countdown`), the visual-effect
  planner (`effects`), the deterministic random stream (`rng`), pixel frames
  and trail compositing (`frame`, `trail`), overlay layout (`overlay`),
  sound selection (`audio`) and export decisions (`export`).
  Quantities are kept as exact binary32 bit patterns (`scalar`), ordered as
  IEEE-754 orders them.
- `app/` is the command-line program around it: YAML loading, the rapier2d
  physics world, drawing with tiny-skia and fontdue, WAV mixing with hound
  and the ffmpeg pipeline.
- `tests/` exercises the library on concrete scenes, frames and races.
