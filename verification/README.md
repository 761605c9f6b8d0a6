# oziclock

The rules behind the OziClock desktop world clock and planner, written in
Verus: every function in `src/` carries a `requires` / `ensures` contract that
Verus proves.

## Layout

- `src/` — the verified library.
  - `clock`, `commands`, `clock_views`: the clock collection (exactly one main
    clock, never empty) and the commands that edit it.
  - `planner`, `keyed`, `ids`: alarms, timers, stopwatch, reminders, events and
    tasks with their state transitions.
  - `calendar`, `instant`, `zoned`: proleptic Gregorian dates, instants and
    time-zone readings; calls into `chrono` / `chrono-tz` sit behind small
    trusted wrappers whose contracts are documented where they stand.
  - `alarm_time`, `timer_time`, `task_time`, `reminder_time`, `event_time`:
    when each planner item fires, and reconciliation that delivers each alert
    once.
  - `editors`: what the planner's editors decide from what was typed (each
    refusal and the item built), plan-view navigation and the stopwatch toggle.
  - `lanes`, `plan_week`, `day_items`, `rows`, `attention`, `views`, `models`,
    `inputs`, `colors`: what the windows show, computed from plain values.
  - `settings`, `sync`: settings defaults, receipt pruning and the sync profile
    exchange.
  - Laws of the library are public `proof fn`s named `lemma_*`.
- `tests/` — executable tests of the library on concrete values.
- `app/` — a small command-line driver: file I/O, the clock of the machine,
  serde copies of the library's types.
