//! The state of a demo that the entity and send-table logic reads and changes.

use vstd::prelude::*;
use std::collections::HashMap;
use crate::entities::{Entity, ServerClass};
use crate::sendtable::{TableMap, TableView};

verus! {

/// The parts of a demo's state that entity updates and send tables use.
pub struct Demo {
    /// Entity slots by id; `None` in a slot marks a deleted entity.
    pub entities: Option<HashMap<u32, Option<Entity>>>,
    /// Number of bits that a class id takes in an entity update.
    pub class_bits: u32,
    /// Server classes by class id.
    pub serverclass_map: HashMap<u16, ServerClass>,
    /// Send tables by name.
    pub dt_map: Option<TableMap>,
}

impl Demo {
    /// The send tables by name; no tables when there is no map.
    pub open spec fn dt_view(&self) -> Map<Seq<char>, TableView> {
        match self.dt_map {
            Some(m) => m@,
            None => Map::empty(),
        }
    }
}

} // verus!
