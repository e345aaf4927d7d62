# csgo_entities

Entity and send-table logic of a CS:GO demo reader, verified with Verus.

- `src/sendtable.rs`: send tables, the map of tables by name, and the
  flattening of a table tree into the priority-sorted property list of a
  server class (`get_excl_props`, `get_props`, `flatten_dt`).
- `src/bitreader.rs`: a bit reader over a byte slice and the bit format of
  indices and property values.
- `src/entities.rs`, `src/demo.rs`: entities, server classes, and the
  application of a packet-entities message to the entity slots
  (`parse_packet_entities`, `read_new_ent`, `handle_entity_upd`).
- `src/columns.rs`, `src/collect.rs`: per-tick output columns and the
  collection of the wanted properties of the wanted players.
- `src/flatten_laws.rs`, `src/table_laws.rs`, `src/entity_laws.rs`,
  `src/collect_laws.rs`:
  proved properties that span several functions.
- `app/lib.rs`: the table of property column types (built with `phf`) and
  an adapter from the demo's `ahash` maps to the verified collection.
