# litki

The scripting core of a Bevy game engine, verified with Verus.

Scripts are written in Clojure and run by the `jinme` interpreter. They
queue commands for the engine's world, wait on the promises of their
results, read and build entity templates, and talk to the engine through a
REPL server. The library holds the logic of all of this with its contracts
and laws; `app/` holds the engine and interpreter glue.

## Layout

- `src/value.rs`: script values (`Value`) and their mathematical shape
  (`Datum`).
- `src/clojure.rs`: the Clojure core functions on data (`get`, `get-in`,
  `assoc`, `assoc-in`, `dissoc`, `count`, `first`, `keys`, `map`, `+`, `-`,
  ...) with the laws that relate them; `src/clojure/execute_command.rs`:
  the `!` function and the promise side of `deref`.
- `src/registry.rs`: a map keyed by names and the component builder,
  template and animation registries built on it.
- `src/script.rs` and `src/script/`: commands, command factories, the
  command registry and buffer, the state of a promise, and the step that
  runs queued commands against the world.
- `src/plugins/engine.rs`: health, vision, stable ids (backed by
  `short_id`) and the registry that maps stable ids to entities both ways.
- `src/repl_server.rs`: what a REPL line asks for, what the server answers,
  and when waiting for the server's thread ends.
- `app/`: Bevy plugins, resources and systems; the shared, thread-safe
  handles around the library's buffer, registries and promises; the
  interpreter's `clojure.core` bindings; the REPL server's sockets and
  threads.
- `tests/`: tests of the library on concrete values.
