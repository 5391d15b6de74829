# Battery Drainer

A terminal tool that loads the processor, watches the battery drain in real time and measures
worst-case battery life. It runs as a full-screen dashboard, headless with a status line every
ten seconds, or as a player for sessions recorded earlier.

The logic is a library verified with Verus; a thin program around it talks to the machine.

## Layout

- `src/` is the verified library.
  - `number`: IEEE 754 numbers held as bit patterns, with correctly rounded arithmetic and
    decimal notation, proved against exact rationals.
  - `text`: decimal digits, padding, search.
  - `clock`: the time on the clock and its notation.
  - `log`: log entries, their average, and the summary of a session.
  - `monitor`: log entries from what the machine reports, with the drain rate measured over a
    rolling window of thirty seconds.
  - `control`: modes, load threads, the interactive and the headless loop as state machines.
  - `playback`: recorded sessions and the keys that move through them.
  - `headless`, `banner`, `screen`: what is printed and shown, as plain values.
- `app/` is the program: command line, terminal, sensors, log files, threads and drawing.
- `tests/` runs the library on concrete values; `tests/number.rs` compares its arithmetic with
  that of the processor.

## What is trusted

Three calls leave the verified code: `str::to_lowercase` for the labels of sensors, chrono's
`format` for the time on the clock, and `num_cpus::get` for the number of cores.
