# handy_keys

Global hotkeys and tap gestures, recognized from raw keyboard events, as a library
verified with Verus.

- `src/types`: keys, modifiers, hotkeys, triggers and the events about them.
- `src/tap_alone`: short, uninterrupted single taps. `model.rs` says what the
  recognizer does as a state machine with one phase per trigger; `laws.rs` holds
  what follows for runs of events.
- `src/tap_pattern`: double taps, laid out in the same way.
- `src/manager`: registered hotkeys, the decisions of the event loop, the events on
  their way to receivers, and the set of blocked hotkeys, with laws of its own.
  `event_loop.rs` holds what follows for whole runs of the event loop.
- `src/time.rs`, `src/triggers.rs`, `src/text.rs`: instants handed in by callers,
  collections keyed by triggers, and message text.
- `app`: the thread around the event loop, the interface to a platform's keyboard
  listener, and serializable copies of the types.

Nothing in `src` is taken on trust beyond Verus and its library, and nothing in it
reads a clock: operations that depend on the time take it as an argument.
