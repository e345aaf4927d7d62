//! Entity and send-table logic of a CS:GO demo reader: flattening of
//! send tables into the per-class property list, bit-level reading of
//! packet-entity updates, and collection of per-tick player columns.

pub mod bitreader;
pub mod collect;
pub mod collect_laws;
pub mod columns;
pub mod demo;
pub mod entities;
pub mod entity_laws;
pub mod flatten_laws;
pub mod sendtable;
pub mod table_laws;
