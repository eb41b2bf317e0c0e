# mouse-jiggler, verified

A mouse jiggler keeps a session alive by nudging the pointer at an interval.
Its logic lives in `src/` and is proved with Verus:

- `src/cli.rs`: the command line (`-m/--mode`, `-i/--interval`,
  `-d/--distance`, `--max-runtime`, `--once`, `-q/--quiet`, `-v/--verbose`,
  `-h/--help`, `-V/--version`), specified as a recursive function over the
  arguments, with laws on inline values, short and long names, help and
  duration units.
- `src/jiggler.rs`: the steps of the pixel and random jiggles, proved to come
  back to their start, and the per-round decisions of a run.
- `src/rng.rs`, `src/period.rs`: the generator and the proof of its full
  period of 2^64.
- `src/number.rs`, `src/text.rs`: decimal parsing and printing, and string
  helpers.

`app/` is the program around it: argument reading, the platform input
drivers, sleeping, printing the log lines that the library composes, and the
circle pattern, which is computed with floating point.
