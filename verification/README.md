# arcane

A study-routine planner: weekly schedule slots, one-day overrides and a
session timer. The planning rules are a library verified with Verus
(`src/`); the command-line program around it (`app/`) reads the
configuration, talks to SQLite, drives the terminal and prints.

- `src/scheduler.rs` merges the weekly slots active on a date's weekday with
  the overrides of that day into the day's timeline, and orders a day's slots
  for listing.
- `src/schedule.rs` and `src/category.rs` hold the rules for weekday masks,
  `HH:MM` times, colors, one-day overrides (`rest` or a category), and what
  adding, removing and importing slots, overrides and categories decide,
  with the steps of a manifest import.
- `src/timer.rs` holds the decisions of the session timer: which blocks to
  skip, catch up with or wait for, how a running block counts, what the
  progress line shows.
- `src/date.rs` and `src/text.rs` give the calendar (through `chrono`) and the
  text rules (trimming, splitting, unsigned literals, string order).
