# helio

The scene of a renderer, verified with Verus: which objects, lights, volumes, portals and
assets exist, what they refer to, and what is published of them when a frame is flushed.

- `src/` is the library. Records live in sparse sets keyed by generation-checked handles;
  compact tables, draw lists, shadow slots, coordinate spaces and output slots are derived
  from them. Every public function states what it returns and what it changes. `Scene::wf`
  is the invariant that all of them keep: assets count their users, derived tables agree
  with the records, published lists show what is live.
- `tests/` runs the library on concrete scenes.
- `app/` does what the library takes as an argument: floating-point measuring, cameras,
  and the actors and subsystems that an application brings along.

Numbers with a fraction are kept as their encodings (`F32`). The library compares and
hashes them; arithmetic on them is done outside and handed in. Entity slots and component
rows are handed out by the store that owns them and come in as `NewRow`.

The laws that relate several operations are public proof functions, most of them in
`laws.rs`, `round_trips.rs`, `histories.rs`, `outstanding.rs` and `tags.rs`.
