# vibe_synapse

A plugin-first framework whose rules are proved with Verus.

- `src/` is the verified library: the plugin metadata and lifecycle, the
  plugin manager (dependency order, start and stop rules), the typed resource
  registry with lazy factories, the event bus (three priority queues, handler
  registry, start/stop rules), the message bus (channels per message type,
  subscriptions, numbering, delivery targets), the module registry, the
  command line, the application lifecycle, and the demo window's counter.
  Every public function states its result in `ensures`, as far as the
  channels and other outside values it touches can be seen; the laws that span
  several calls are public proof functions (`lemma_*`).
- `app/` is the program around it: async plumbing (tokio tasks, timeouts,
  signals), the `Event`, `Plugin`, `Message` and `Module` traits (which work
  on `dyn Any`), module discovery with `inventory`, logging, and the egui
  demo window.
- `tests/` runs the library on concrete values.
