# mdsorto

A standup-meeting timer: it shuffles the speakers and gives each a fixed time, with a
countdown that turns yellow and then red as the time runs out.

- `src/` is the verified library (Verus): the meeting as a state machine (`app`), what the
  screen shows (`display`), reading the configuration (`time_config`, `names`, `setup`, with
  the digit arithmetic in `decimal`), the random speaking order (`shuffle`), the decisions of
  the terminal plumbing (`terminal`), and the laws that hold across messages (`laws`).
- `app/` is the terminal program: configuration file, logging, clock, event loop and drawing.
- `tests/` runs the library on concrete values.

Durations in the library are whole nanoseconds, the resolution of the clock; the tick interval and the wait while stopping are given in milliseconds.
