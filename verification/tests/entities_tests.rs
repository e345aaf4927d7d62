use csgo_entities::bitreader::BitReader;
use csgo_entities::demo::Demo;
use csgo_entities::entities::{Entity, PacketEntities, ServerClass};
use csgo_entities::sendtable::{Prop, SendProp, SendTable, PROP_TYPE_INT};
use std::collections::HashMap;

struct Bits {
    bits: Vec<bool>,
}

impl Bits {
    fn new() -> Self {
        Bits { bits: Vec::new() }
    }
    fn put(mut self, value: u64, n: usize) -> Self {
        for k in 0..n {
            self.bits.push((value >> k) & 1 == 1);
        }
        self
    }
    fn bytes(&self) -> Vec<u8> {
        let mut out = vec![0u8; (self.bits.len() + 7) / 8];
        for (i, b) in self.bits.iter().enumerate() {
            if *b {
                out[i / 8] |= 1 << (i % 8);
            }
        }
        out
    }
    /// The update of an entity of a class whose property 0 is a 4-bit int:
    /// new-way indices 0, then the end of the list, then the value.
    fn one_prop_update(self, value: u64) -> Self {
        self.put(1, 1).put(1, 1).put(0, 1).put(0, 1).put(127, 7).put(127, 7).put(value, 4)
    }
}

fn int_prop(name: &str) -> Prop {
    Prop {
        prop: SendProp {
            type_: PROP_TYPE_INT,
            var_name: name.to_string(),
            flags: 0,
            priority: 0,
            dt_name: String::new(),
            num_elements: 0,
            num_bits: 4,
        },
        arr: None,
        table: SendTable { net_table_name: "T".to_string(), props: vec![] },
        col: 1,
        data: None,
    }
}

fn demo() -> Demo {
    let mut classes = HashMap::new();
    classes.insert(
        1u16,
        ServerClass {
            id: 1,
            name: "CCSPlayer".to_string(),
            dt: "DT_CSPlayer".to_string(),
            fprops: Some(vec![int_prop("m_iHealth")]),
        },
    );
    Demo { entities: Some(HashMap::new()), class_bits: 4, serverclass_map: classes, dt_map: None }
}

#[test]
fn handle_entity_upd_reads_indices_and_values_and_keeps_nothing() {
    let d = demo();
    let bytes = Bits::new().one_prop_update(9).put(1, 1).bytes();
    let mut b = BitReader::new(&bytes);
    let cls = d.serverclass_map.get(&1).unwrap();
    let data = d.handle_entity_upd(cls, &mut b).unwrap();
    assert!(data.is_empty());
    assert_eq!(b.tell(), 22);
}

#[test]
fn handle_entity_upd_out_of_data_keeps_position() {
    let d = demo();
    let bytes = Bits::new().put(1, 1).put(1, 1).put(0, 1).put(0, 1).put(127, 4).bytes();
    let mut b = BitReader::new(&bytes);
    let cls = d.serverclass_map.get(&1).unwrap();
    assert!(d.handle_entity_upd(cls, &mut b).is_none());
    assert_eq!(b.tell(), 0);
}

#[test]
fn handle_entity_upd_ignores_index_past_the_properties() {
    let d = demo();
    // Old-way indices: 3 (past the one property), then the end.
    let bytes = Bits::new().put(0, 1).put(3, 7).put(127, 7).put(127, 7).bytes();
    let mut b = BitReader::new(&bytes);
    let cls = d.serverclass_map.get(&1).unwrap();
    assert!(d.handle_entity_upd(cls, &mut b).unwrap().is_empty());
    assert_eq!(b.tell(), 22);
}

#[test]
fn read_new_ent_reads_nothing_for_unknown_class() {
    let d = demo();
    let bytes = [0u8; 4];
    let mut b = BitReader::new(&bytes);
    let e = Entity { class_id: 7, entity_id: 0, serial: 0, props: vec![] };
    assert!(d.read_new_ent(&e, &mut b).unwrap().is_empty());
    assert_eq!(b.tell(), 0);
}

#[test]
fn read_new_ent_reads_update_of_known_class() {
    let d = demo();
    let bytes = Bits::new().one_prop_update(3).bytes();
    let mut b = BitReader::new(&bytes);
    let e = Entity { class_id: 1, entity_id: 0, serial: 0, props: vec![] };
    assert!(d.read_new_ent(&e, &mut b).unwrap().is_empty());
    assert_eq!(b.tell(), 22);
}

#[test]
fn parse_packet_entities_creates_then_deletes() {
    let mut d = demo();
    let bytes = Bits::new()
        // Entry 1: step 0 -> id 0; not deleted; created with class 1, serial 7.
        .put(0, 6).put(0, 1).put(1, 1).put(1, 4).put(7, 10).one_prop_update(5)
        // Entry 2: step 2 -> id 3; deleted; one more bit.
        .put(2, 6).put(1, 1).put(0, 1)
        .bytes();
    let complete = d.parse_packet_entities(PacketEntities { updated_entries: 2, entity_data: bytes });
    assert!(complete);
    let ents = d.entities.as_ref().unwrap();
    assert_eq!(ents.len(), 2);
    let e0 = ents.get(&0).unwrap().as_ref().unwrap();
    assert_eq!((e0.class_id, e0.entity_id, e0.serial), (1, 0, 7));
    assert!(e0.props.is_empty());
    assert!(ents.get(&3).unwrap().is_none());
}

#[test]
fn parse_packet_entities_updates_existing_entity() {
    let mut d = demo();
    d.entities.as_mut().unwrap().insert(4, Some(Entity { class_id: 1, entity_id: 4, serial: 2, props: vec![] }));
    let bytes = Bits::new().put(4, 6).put(0, 1).put(0, 1).one_prop_update(1).bytes();
    assert!(d.parse_packet_entities(PacketEntities { updated_entries: 1, entity_data: bytes }));
    let e = d.entities.as_ref().unwrap().get(&4).unwrap().as_ref().unwrap();
    assert_eq!(e.serial, 2);
}

#[test]
fn parse_packet_entities_stops_past_entity_25() {
    let mut d = demo();
    let bytes = Bits::new().put(16 + 14, 6).put(1, 4).put(1, 1).put(0, 1).bytes();
    assert!(d.parse_packet_entities(PacketEntities { updated_entries: 3, entity_data: bytes }));
    assert!(d.entities.as_ref().unwrap().is_empty());
}

#[test]
fn parse_packet_entities_out_of_data_keeps_applied_entries() {
    let mut d = demo();
    // Entry 1 deletes entity 0; entry 2 has no bits.
    let bytes = Bits::new().put(0, 6).put(1, 1).put(0, 1).bytes();
    assert!(!d.parse_packet_entities(PacketEntities { updated_entries: 2, entity_data: bytes }));
    assert!(d.entities.as_ref().unwrap().get(&0).unwrap().is_none());
}

#[test]
fn parse_packet_entities_zero_entries_reads_nothing() {
    let mut d = demo();
    assert!(d.parse_packet_entities(PacketEntities { updated_entries: 0, entity_data: vec![] }));
    assert!(d.entities.as_ref().unwrap().is_empty());
}

#[test]
fn parse_packet_entities_keeps_slots_and_those_above_25() {
    let mut d = demo();
    let high = Entity { class_id: 1, entity_id: 40, serial: 9, props: vec![] };
    d.entities.as_mut().unwrap().insert(40, Some(high));
    d.entities.as_mut().unwrap().insert(2, Some(Entity { class_id: 1, entity_id: 2, serial: 1, props: vec![] }));
    // Entry 1: step 2 -> id 2, deleted; entry 2: step 37 -> id 40, past 25: stop.
    let bytes = Bits::new().put(2, 6).put(1, 1).put(0, 1).put(16 + 5, 6).put(2, 4).bytes();
    assert!(d.parse_packet_entities(PacketEntities { updated_entries: 2, entity_data: bytes }));
    let ents = d.entities.as_ref().unwrap();
    assert_eq!(ents.len(), 2);
    assert!(ents.get(&2).unwrap().is_none());
    assert_eq!(ents.get(&40).unwrap().as_ref().unwrap().serial, 9);
}
