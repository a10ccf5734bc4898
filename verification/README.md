# audio_core

Ducks the sound of desktop applications under the one that speaks.

- `src/` — the library, written and proved with Verus:
  - `text`: UTF-8 decoding, line splitting, trimming and `i32` parsing over characters;
  - `platform`: the volume that `amixer`, `pactl` and `osascript` report, volume clamping;
  - `sound_mode`, `sound_type`: what an application plays and the user's mode for it,
    the sliding window of tick results and how it resolves;
  - `classification`: the vote over recent frame classifications;
  - `priority`: ranking of sessions, the speaking session, the per-session ducking step;
  - `settings`: per-application configuration and runtime parameters;
  - `activity_tracker`: which applications count as playing;
  - `control`: the decisions of the control loop and of user commands;
  - `window`: a bounded window over recent values.
- `app/` — the console program around it: process and file I/O, JSON settings,
  floating-point signal statistics, the volume envelope and the tray icon.
- `tests/` — tests of the library on concrete values.
