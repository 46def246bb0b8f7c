# flacser

A batch converter between the lossless audio formats FLAC, AIFF and WAV,
driving `ffmpeg` and `ffprobe`.

- `src/` is the verified library. It models paths as component lists
  (`path`), detects formats (`audio_format`), decides which files are
  inputs (`discover`), maps inputs to outputs and refuses colliding plans
  (`plan`), decides what each job does and what a run reports (`convert`,
  `progress`, `summary`), reads the tools' output and builds their
  arguments (`ffmpeg`), and computes the readiness report (`doctor`).
  Verus proves the functions against their contracts, except four small
  wrappers of std functions whose contracts are trusted and the interrupt
  flag's methods, whose atomic value Verus cannot see; the public `law_*`
  proof functions state properties that span several functions.
- `app/` is the command-line program around it: argument parsing with
  clap, file-system observations, child processes, the Rayon thread pool,
  the interrupt handler and printing.
- `tests/` exercises the library on concrete values.
