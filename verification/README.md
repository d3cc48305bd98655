# Eveboros

An event loop with events as objects. The events live in a loop, register for what they are
interested in (timeouts, readiness of IO, messages, signals, ends of child processes, the loop being
idle) and get a callback when it happens. The response of the callback decides whether the event
lives on.

The part that decides is verified by Verus. It holds the events and their registrations, queues what
is to be delivered, takes care of the lifetimes of events and of the ids and runs the callbacks.

## Layout

* `src/recycler.rs`, `src/stolen_cell.rs`, `src/timers.rs`, `src/idle.rs`, `src/signal.rs`: the data
  structures the loop is built of.
* `src/handle.rs`, `src/message.rs`, `src/task.rs`, `src/background.rs`, `src/error.rs`: what travels
  through the loop.
* `src/event_loop.rs`: the state of the loop, its invariant and the life of an event.
* `src/loop_timers.rs`, `src/loop_io.rs`, `src/loop_message.rs`, `src/loop_signal.rs`,
  `src/loop_run.rs`: the operations of the loop.
* `src/signal_dispatch.rs`: broadcasting of signals without a loop.
* `src/changes.rs`: what can happen to the loop, step by step.
* `src/laws.rs`: what holds of it all together.
* `app/`: the loop for everyday use, with the polling, channels, threads and signal handlers.
* `tests/`: the tests.

## Time

The library counts instants in nanoseconds since a moment chosen by its user and never asks for the
time itself.

## Trust

The functions marked `external_body` call the `linked-hash-map` and `nix` crates and a few functions
of the standard library. Each says what is claimed of the call.
