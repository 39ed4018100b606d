# rtexter

A keyboard automation tool: a script of lines is typed into whatever window
has the focus, with `#` directives for delays, keys, quoted text and pauses;
keyboard macros can be recorded, played back, saved and loaded.

- `src/` is the verified library (Verus):
  - `text.rs`: whitespace, trimming, words, `u64` numbers and lines of a text;
  - `engine.rs`: the script language (`Command`, `parse_script`, `parse_key_name`);
  - `machine.rs`: a run of a script as a state machine (`Engine::step`);
  - `plan.rs`: what a run does, proved step by step: the planned actions while
    the run is wanted, and a prompt end once it is not;
  - `macros.rs`: the macro recorder, key names and playback steps;
  - `hotkeys.rs`: the start and stop hotkeys.
- `app/` is the program around it: the egui window, keyboard output through
  enigo, the global key listener and playback through rdev, and saving
  recordings as JSON.
  Its `Cargo.toml` names enigo, rdev, serde and serde_json only: eframe
  (the window) and rfd (the file dialogs) are not listed, for the size of
  their dependency trees, so `app/` does not build as it stands; add
  `eframe = "0.27"` and `rfd = "0.14"` to build it.
- `tests/` runs the library on concrete scripts, runs and recordings.
