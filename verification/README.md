# harness

The logic of an agent harness, with its behaviour stated in contracts and proved
by Verus.

- `src/` is the library.
  - `calendar`, `recurrence`: instants, time zones and recurrence rules. What
    `chrono`, `chrono_tz` and `rrule` compute has names here.
  - `trigger`, `timing`, `timing_laws`: when an alarm runs.
  - `alarm`, `alarms`, `alarm_laws`: the alarms of a thread, and which runs next.
  - `prompt`, `tools`, `sidecar`: what an alarm tells the model, the tools that
    manage alarms, and the file that keeps them.
  - `bridge`, `pending`: a bridge from HTTP to an app server.
  - `hook_summary`, `tagged`: summaries of the runs of hooks.
  - `llamacpp`: the models of a local server.
  - `loop_scheduler`: prompts that are sent after a while.
  - `text`, `words`, `number`, `order`, `keyed`, `uuid_text`: what the others
    stand on.
- `tests/` runs the library.
- `app/` is the program around it: files, sockets, timers and JSON.
