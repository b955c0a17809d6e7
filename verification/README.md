# sctk_event_loop

The event loop of a Wayland client built on smithay-client-toolkit and calloop. The decisions of
the loop are written in Verus and proved against their contracts; the connection to the
compositor is ordinary Rust around them.

- `src/` holds the decisions. `event_loop::SctkEventLoop` hands out one command at a time (tell
  the application about an event, wait for the compositor, ask something of a surface) and is
  told how the command went. `event_loop::model` states the rules; `laws`, `deliveries`,
  `redraw_laws`, `run_laws` and `surface_laws` state what follows from them for every run.
- `app/` carries the commands out on a real connection.
- `tests/` drives the decisions on concrete values.
