//! Entities, the values of their properties, and server classes.

use vstd::prelude::*;
use crate::bitreader::{
    lemma_read_inx, read_bool_spec, read_inx_spec, read_spec, u_bit_var_spec, value_end, BitReader,
};
use vstd::std_specs::hash::group_hash_axioms;
use crate::demo::Demo;
use crate::sendtable::{prop_views, Prop, PropView};

verus! {

/// A decoded property value. A 32-bit float is held by its IEEE-754 bits.
pub enum PropValue {
    I32(i32),
    F32(u32),
    I64(i64),
    U64(u64),
    Str(String),
}

impl Clone for PropValue {
    fn clone(&self) -> (r: Self)
        ensures
            r == *self,
    {
        match self {
            PropValue::I32(v) => PropValue::I32(*v),
            PropValue::F32(v) => PropValue::F32(*v),
            PropValue::I64(v) => PropValue::I64(*v),
            PropValue::U64(v) => PropValue::U64(*v),
            PropValue::Str(s) => PropValue::Str(s.clone()),
        }
    }
}

/// A named property value of an entity.
pub struct PropData {
    pub name: String,
    pub data: PropValue,
}

impl Clone for PropData {
    fn clone(&self) -> (r: Self)
        ensures
            r == *self,
    {
        PropData { name: self.name.clone(), data: self.data.clone() }
    }
}

/// An entity: its class, its id, its serial number and its property values.
pub struct Entity {
    pub class_id: u32,
    pub entity_id: u32,
    pub serial: u32,
    pub props: Vec<PropData>,
}

/// What an entity holds.
pub struct EntityView {
    pub class_id: u32,
    pub entity_id: u32,
    pub serial: u32,
    pub props: Seq<PropData>,
}

impl View for Entity {
    type V = EntityView;

    open spec fn view(&self) -> EntityView {
        EntityView {
            class_id: self.class_id,
            entity_id: self.entity_id,
            serial: self.serial,
            props: self.props@,
        }
    }
}

/// What an entity slot holds.
pub open spec fn slot_view(o: Option<Entity>) -> Option<EntityView> {
    match o {
        Some(e) => Some(e@),
        None => None,
    }
}

/// What the entity slots of a map hold.
pub open spec fn entity_views(m: Map<u32, Option<Entity>>) -> Map<u32, Option<EntityView>> {
    m.map_values(|o: Option<Entity>| slot_view(o))
}

/// The entity fields of a packet-entities message that the update reads:
/// how many entries it updates, and their bits.
pub struct PacketEntities {
    pub updated_entries: i32,
    pub entity_data: Vec<u8>,
}

/// A server class: its id, names, and its flattened properties once known.
pub struct ServerClass {
    pub id: u16,
    pub name: String,
    pub dt: String,
    pub fprops: Option<Vec<Prop>>,
}

/// The flattened properties of a server class, when it has them.
pub open spec fn class_props(c: ServerClass) -> Option<Seq<PropView>> {
    match c.fprops {
        Some(v) => Some(prop_views(v@)),
        None => None,
    }
}

/// The property indices of an update read from `pos`, after index `last`,
/// up to the index that ends the list, and the position after it; `None`
/// when the stream ends first.
pub open spec fn indices_from(data: Seq<u8>, pos: nat, last: int, new_way: bool) -> Option<
    (Seq<int>, nat),
>
    decreases data.len() * 8 - pos,
{
    match read_inx_spec(data, pos, last, new_way) {
        None => None,
        Some((v, p)) => {
            proof {
                lemma_read_inx(data, pos, last, new_way);
            }
            if v == -1 {
                Some((seq![], p))
            } else {
                match indices_from(data, p, v, new_way) {
                    None => None,
                    Some((rest, q)) => Some((seq![v] + rest, q)),
                }
            }
        },
    }
}

/// Every index read from `pos` until the list ends or the stream does
/// fits in an `i32`.
pub open spec fn indices_fit(data: Seq<u8>, pos: nat, last: int, new_way: bool) -> bool
    decreases data.len() * 8 - pos,
{
    match read_inx_spec(data, pos, last, new_way) {
        None => true,
        Some((v, p)) => {
            proof {
                lemma_read_inx(data, pos, last, new_way);
            }
            v <= i32::MAX && (v == -1 || indices_fit(data, p, v, new_way))
        },
    }
}

/// The position after the values of the properties at `idx`, in order;
/// an index outside `fprops` has no value.
pub open spec fn skip_props(data: Seq<u8>, pos: nat, fprops: Seq<PropView>, idx: Seq<int>) -> Option<
    nat,
>
    decreases idx.len(),
{
    if idx.len() == 0 {
        Some(pos)
    } else {
        let i = idx[0];
        let next = if 0 <= i < fprops.len() {
            value_end(data, pos, fprops[i].prop, fprops[i].arr)
        } else {
            Some(pos)
        };
        match next {
            None => None,
            Some(p) => skip_props(data, p, fprops, idx.drop_first()),
        }
    }
}

/// The position after the update of an entity of a class with `fprops`
/// read from `pos`: a bit for the way indices are written, the indices,
/// then the value of each index that names a property.
pub open spec fn entity_update_end(data: Seq<u8>, pos: nat, fprops: Option<Seq<PropView>>) -> Option<
    nat,
> {
    match read_bool_spec(data, pos) {
        None => None,
        Some((new_way, p1)) => match indices_from(data, p1, -1, new_way) {
            None => None,
            Some((idx, p2)) => skip_props(
                data,
                p2,
                match fprops {
                    Some(f) => f,
                    None => seq![],
                },
                idx,
            ),
        },
    }
}

/// Reading the update from `pos` goes past `i32` indices, or finds indices
/// for a class with no flattened properties.
pub open spec fn entity_update_fails_hard(
    data: Seq<u8>,
    pos: nat,
    fprops: Option<Seq<PropView>>,
) -> bool {
    match read_bool_spec(data, pos) {
        None => false,
        Some((new_way, p1)) => !indices_fit(data, p1, -1, new_way) || match indices_from(
            data,
            p1,
            -1,
            new_way,
        ) {
            Some((idx, _)) => idx.len() > 0 && fprops is None,
            None => false,
        },
    }
}

/// The position after the update of an entity of class `class_id` read
/// from `pos`: nothing is read for a class not in `classes`.
pub open spec fn new_ent_end(
    classes: Map<u16, ServerClass>,
    class_id: u32,
    data: Seq<u8>,
    pos: nat,
) -> Option<nat> {
    if classes.contains_key(class_id as u16) {
        entity_update_end(data, pos, class_props(classes[class_id as u16]))
    } else {
        Some(pos)
    }
}

/// Reading the update of an entity of class `class_id` from `pos` meets a
/// class id that does not fit 16 bits, or an update that fails hard.
pub open spec fn new_ent_fails_hard(
    classes: Map<u16, ServerClass>,
    class_id: u32,
    data: Seq<u8>,
    pos: nat,
) -> bool {
    class_id > u16::MAX || (classes.contains_key(class_id as u16) && entity_update_fails_hard(
        data,
        pos,
        class_props(classes[class_id as u16]),
    ))
}

/// The entity slots of a demo, by id, when it has them.
pub type Slots = Option<Map<u32, Option<EntityView>>>;

/// The outcome of one entry of a packet-entities update.
pub enum EntityStep {
    /// The next entry starts at `pos`, after entity `id`, with `slots`.
    Next { pos: nat, id: int, slots: Slots },
    /// The entity id went past 25: the update stops here.
    Stop,
    /// The bits ended first; the slots as they were changed so far.
    OutOfData(Slots),
    /// The entry cannot be applied: an id out of range, a missing slot, a
    /// class id or index too large.
    Fails,
}

/// The outcome of the remaining entries of a packet-entities update.
pub enum EntityRun {
    /// Every entry was applied, or the ids went past 25; the final slots.
    Complete(Slots),
    /// The bits ended first; the slots as they were changed so far.
    OutOfData(Slots),
    /// An entry cannot be applied.
    Fails,
}

/// A 32-bit unsigned value read as a signed one.
pub open spec fn as_i32(v: nat) -> int {
    if v < 0x8000_0000 {
        v as int
    } else {
        v - 0x1_0000_0000
    }
}

/// The slot `id` of `slots` and what it holds, when there is one.
pub open spec fn slot(slots: Slots, id: int) -> Option<Option<EntityView>> {
    match slots {
        Some(m) => if 0 <= id <= u32::MAX && m.contains_key(id as u32) {
            Some(m[id as u32])
        } else {
            None
        },
        None => None,
    }
}

/// Deleting entity `id` (its slot is set empty), then a bit that is not used.
#[verifier::opaque]
pub open spec fn delete_step(data: Seq<u8>, pos: nat, id: int, slots: Slots) -> EntityStep {
    if slots is None || id < 0 {
        EntityStep::Fails
    } else {
        let slots2 = Some(slots.unwrap().insert(id as u32, None));
        match read_bool_spec(data, pos) {
            None => EntityStep::OutOfData(slots2),
            Some((_, p)) => EntityStep::Next { pos: p, id, slots: slots2 },
        }
    }
}

/// Creating entity `id`: a class id of `class_bits` bits and a ten-bit
/// serial; the slot gets an entity with no property values, and then the
/// update of an entity of that class is read. A class id wider than 32
/// bits cannot be read.
#[verifier::opaque]
pub open spec fn create_step(
    data: Seq<u8>,
    pos: nat,
    id: int,
    slots: Slots,
    classes: Map<u16, ServerClass>,
    class_bits: u32,
) -> EntityStep {
    if class_bits > 32 {
        EntityStep::Fails
    } else {
        match read_spec(data, pos, class_bits as nat) {
            None => EntityStep::OutOfData(slots),
            Some((cls, p1)) => match read_spec(data, p1, 10) {
                None => EntityStep::OutOfData(slots),
                Some((serial, p2)) => if slots is None || id < 0 {
                    EntityStep::Fails
                } else {
                    let e = EntityView {
                        class_id: cls as u32,
                        entity_id: id as u32,
                        serial: serial as u32,
                        props: seq![],
                    };
                    let slots2 = Some(slots.unwrap().insert(id as u32, Some(e)));
                    if new_ent_fails_hard(classes, cls as u32, data, p2) {
                        EntityStep::Fails
                    } else {
                        match new_ent_end(classes, cls as u32, data, p2) {
                            None => EntityStep::OutOfData(slots2),
                            Some(p3) => EntityStep::Next { pos: p3, id, slots: slots2 },
                        }
                    }
                },
            },
        }
    }
}

/// Updating entity `id`: its slot must exist; when it holds an entity, the
/// update of an entity of its class is read. The slots do not change.
#[verifier::opaque]
pub open spec fn update_step(
    data: Seq<u8>,
    pos: nat,
    id: int,
    slots: Slots,
    classes: Map<u16, ServerClass>,
) -> EntityStep {
    match slot(slots, id) {
        None => EntityStep::Fails,
        Some(None) => EntityStep::Next { pos, id, slots },
        Some(Some(e)) => if new_ent_fails_hard(classes, e.class_id, data, pos) {
            EntityStep::Fails
        } else {
            match new_ent_end(classes, e.class_id, data, pos) {
                None => EntityStep::OutOfData(slots),
                Some(p) => EntityStep::Next { pos: p, id, slots },
            }
        },
    }
}

/// One entry read from `pos` after entity `prev`: an unsigned variable-length
/// step; the id is `prev + 1 + step` (the step read as signed). Past 25 the
/// update stops. Then a set bit deletes the entity; else a set bit creates
/// it; else it is updated.
#[verifier::opaque]
pub open spec fn entity_step(
    data: Seq<u8>,
    pos: nat,
    prev: int,
    slots: Slots,
    classes: Map<u16, ServerClass>,
    class_bits: u32,
) -> EntityStep {
    match u_bit_var_spec(data, pos) {
        None => EntityStep::OutOfData(slots),
        Some((v, p1)) => {
            let step = as_i32(v);
            let id = prev + 1 + step;
            if 1 + step > i32::MAX || id > i32::MAX || id < i32::MIN {
                EntityStep::Fails
            } else if id > 25 {
                EntityStep::Stop
            } else {
                match read_bool_spec(data, p1) {
                    None => EntityStep::OutOfData(slots),
                    Some((true, p2)) => delete_step(data, p2, id, slots),
                    Some((false, p2)) => match read_bool_spec(data, p2) {
                        None => EntityStep::OutOfData(slots),
                        Some((true, p3)) => create_step(data, p3, id, slots, classes, class_bits),
                        Some((false, p3)) => update_step(data, p3, id, slots, classes),
                    },
                }
            }
        },
    }
}

/// What applying one entry gives.
enum Entry {
    Next(i32),
    Stop,
    OutOfData,
}

/// The `remaining` entries of an update read from `pos`, after entity `prev`.
pub open spec fn entity_run(
    data: Seq<u8>,
    pos: nat,
    prev: int,
    remaining: int,
    slots: Slots,
    classes: Map<u16, ServerClass>,
    class_bits: u32,
) -> EntityRun
    decreases remaining,
{
    if remaining <= 0 {
        EntityRun::Complete(slots)
    } else {
        match entity_step(data, pos, prev, slots, classes, class_bits) {
            EntityStep::Stop => EntityRun::Complete(slots),
            EntityStep::OutOfData(s) => EntityRun::OutOfData(s),
            EntityStep::Fails => EntityRun::Fails,
            EntityStep::Next { pos, id, slots } => entity_run(
                data,
                pos,
                id,
                remaining - 1,
                slots,
                classes,
                class_bits,
            ),
        }
    }
}

/// The values of a sequence of `i32` as integers.
pub open spec fn as_ints(s: Seq<i32>) -> Seq<int> {
    s.map_values(|x: i32| x as int)
}

impl Demo {
    /// The entity slots of the demo, when it has them.
    pub open spec fn slots(&self) -> Slots {
        match self.entities {
            Some(m) => Some(entity_views(m@)),
            None => None,
        }
    }

    /// Reads the update of `ent` from `b` when its class is known (see
    /// `handle_entity_upd`); reads nothing otherwise. The result, when the
    /// update can be read, is empty; `None`, with `b` where it was, when it
    /// cannot.
    pub fn read_new_ent(&self, ent: &Entity, b: &mut BitReader) -> (r: Option<Vec<PropData>>)
        requires
            !new_ent_fails_hard(self.serverclass_map@, ent.class_id, old(b).bytes(), old(b).position()),
        ensures
            final(b).bytes() == old(b).bytes(),
            match new_ent_end(self.serverclass_map@, ent.class_id, old(b).bytes(), old(b).position()) {
                Some(e) => r matches Some(v) && v@.len() == 0 && final(b).position() == e,
                None => r is None && final(b).position() == old(b).position(),
            },
    {
        broadcast use group_hash_axioms;

        let mut data: Vec<PropData> = Vec::new();
        let key = ent.class_id as u16;
        if self.serverclass_map.contains_key(&key) {
            let sv_cls = self.serverclass_map.get(&key).unwrap();
            match self.handle_entity_upd(sv_cls, b) {
                Some(mut props) => {
                    data.append(&mut props);
                },
                None => {
                    return None;
                },
            }
        }
        Some(data)
    }

    fn delete_entry(&mut self, b: &mut BitReader, id: i32) -> (r: Entry)
        requires
            !(delete_step(old(b).bytes(), old(b).position(), id as int, old(self).slots()) is Fails),
        ensures
            final(b).bytes() == old(b).bytes(),
            final(self).class_bits == old(self).class_bits,
            final(self).serverclass_map == old(self).serverclass_map,
            final(self).dt_map == old(self).dt_map,
            match delete_step(old(b).bytes(), old(b).position(), id as int, old(self).slots()) {
                EntityStep::Next { pos, id: i, slots } => r == Entry::Next(id) && i == id
                    && final(b).position() == pos && final(self).slots() == slots,
                EntityStep::OutOfData(s) => r == Entry::OutOfData && final(self).slots() == s,
                _ => false,
            },
    {
        broadcast use group_hash_axioms;

        proof {
            reveal(delete_step);
        }
        let ghost slots0 = self.slots();
        let key = id as u32;
        match &mut self.entities {
            Some(m) => {
                m.insert(key, None);
            },
            None => {},
        }
        assert(entity_views(self.entities.unwrap()@) =~= slots0.unwrap().insert(key, None));
        match b.read_bool() {
            None => Entry::OutOfData,
            Some(_) => Entry::Next(id),
        }
    }

    fn create_entry(&mut self, b: &mut BitReader, id: i32) -> (r: Entry)
        requires
            !(create_step(
                old(b).bytes(),
                old(b).position(),
                id as int,
                old(self).slots(),
                old(self).serverclass_map@,
                old(self).class_bits,
            ) is Fails),
        ensures
            final(b).bytes() == old(b).bytes(),
            final(self).class_bits == old(self).class_bits,
            final(self).serverclass_map == old(self).serverclass_map,
            final(self).dt_map == old(self).dt_map,
            match create_step(
                old(b).bytes(),
                old(b).position(),
                id as int,
                old(self).slots(),
                old(self).serverclass_map@,
                old(self).class_bits,
            ) {
                EntityStep::Next { pos, id: i, slots } => r == Entry::Next(id) && i == id
                    && final(b).position() == pos && final(self).slots() == slots,
                EntityStep::OutOfData(s) => r == Entry::OutOfData && final(self).slots() == s,
                _ => false,
            },
    {
        broadcast use group_hash_axioms;

        proof {
            reveal(create_step);
        }
        let ghost slots0 = self.slots();
        let cls_id = match b.read_nbits(self.class_bits) {
            None => return Entry::OutOfData,
            Some(c) => c,
        };
        let serial = match b.read_nbits(10) {
            None => return Entry::OutOfData,
            Some(s) => s,
        };
        let key = id as u32;
        let new_entitiy = Entity { class_id: cls_id, entity_id: key, serial: serial, props: Vec::new() };
        let ghost ev = new_entitiy@;
        match &mut self.entities {
            Some(m) => {
                m.insert(key, Some(new_entitiy));
            },
            None => {},
        }
        proof {
            assert(ev.props =~= seq![]);
            assert(entity_views(self.entities.unwrap()@) =~= slots0.unwrap().insert(key, Some(ev)));
        }
        let mut e = Entity { class_id: cls_id, entity_id: key, serial: serial, props: Vec::new() };
        match self.read_new_ent(&e, b) {
            None => Entry::OutOfData,
            Some(mut data) => {
                e.props.append(&mut data);
                Entry::Next(id)
            },
        }
    }

    fn update_entry(&mut self, b: &mut BitReader, id: i32) -> (r: Entry)
        requires
            !(update_step(
                old(b).bytes(),
                old(b).position(),
                id as int,
                old(self).slots(),
                old(self).serverclass_map@,
            ) is Fails),
        ensures
            final(b).bytes() == old(b).bytes(),
            final(self).class_bits == old(self).class_bits,
            final(self).serverclass_map == old(self).serverclass_map,
            final(self).dt_map == old(self).dt_map,
            match update_step(
                old(b).bytes(),
                old(b).position(),
                id as int,
                old(self).slots(),
                old(self).serverclass_map@,
            ) {
                EntityStep::Next { pos, id: i, slots } => r == Entry::Next(id) && i == id
                    && final(b).position() == pos && final(self).slots() == slots,
                EntityStep::OutOfData(s) => r == Entry::OutOfData && final(self).slots() == s,
                _ => false,
            },
    {
        broadcast use group_hash_axioms;

        proof {
            reveal(update_step);
        }
        let ghost slots0 = self.slots();
        let key = id as u32;
        let found = match &self.entities {
            Some(m) => m.get(&key),
            None => None,
        };
        let cur = found.unwrap();
        assert(slot(slots0, id as int) == Some(slot_view(*cur)));
        if let Some(x) = cur {
            let mut data = match self.read_new_ent(x, b) {
                None => return Entry::OutOfData,
                Some(d) => d,
            };
            let ghost before = self.entities;
            match &mut self.entities {
                Some(m) => {
                    match m.remove(&key) {
                        Some(Some(mut ent)) => {
                            let ghost old_ent = ent;
                            ent.props.append(&mut data);
                            assert(ent.props@ =~= old_ent.props@);
                            m.insert(key, Some(ent));
                        },
                        Some(None) => {
                            m.insert(key, None);
                        },
                        None => {},
                    }
                },
                None => {},
            }
            assert(entity_views(self.entities.unwrap()@) =~= entity_views(before.unwrap()@));
        }
        Entry::Next(id)
    }

    fn apply_entry(&mut self, b: &mut BitReader, prev: i32) -> (r: Entry)
        requires
            !(entity_step(
                old(b).bytes(),
                old(b).position(),
                prev as int,
                old(self).slots(),
                old(self).serverclass_map@,
                old(self).class_bits,
            ) is Fails),
        ensures
            final(b).bytes() == old(b).bytes(),
            final(self).class_bits == old(self).class_bits,
            final(self).serverclass_map == old(self).serverclass_map,
            final(self).dt_map == old(self).dt_map,
            match entity_step(
                old(b).bytes(),
                old(b).position(),
                prev as int,
                old(self).slots(),
                old(self).serverclass_map@,
                old(self).class_bits,
            ) {
                EntityStep::Next { pos, id, slots } => r matches Entry::Next(i) && i == id
                    && final(b).position() == pos && final(self).slots() == slots,
                EntityStep::Stop => r == Entry::Stop && final(self).slots() == old(self).slots(),
                EntityStep::OutOfData(s) => r == Entry::OutOfData && final(self).slots() == s,
                EntityStep::Fails => false,
            },
    {
        proof {
            reveal(entity_step);
        }
        let v = match b.read_u_bit_var() {
            Some(v) => v,
            None => return Entry::OutOfData,
        };
        let step = v as i32;
        assert((v < 0x8000_0000u32 ==> step as int == v as int) && (v >= 0x8000_0000u32
            ==> step as int == v as int - 0x1_0000_0000)) by (bit_vector)
            requires
                step == v as i32,
        ;
        let entity_id = prev + (1 + step);
        if entity_id > 25 {
            return Entry::Stop;
        }
        match b.read_bool() {
            None => Entry::OutOfData,
            Some(true) => self.delete_entry(b, entity_id),
            Some(false) => match b.read_bool() {
                None => Entry::OutOfData,
                Some(true) => self.create_entry(b, entity_id),
                Some(false) => self.update_entry(b, entity_id),
            },
        }
    }

    /// Applies the entries of a packet-entities message to the entity
    /// slots (see `entity_step`): each entry deletes, creates or updates
    /// the entity whose id it steps to, until `updated_entries` entries are
    /// read or an id goes past 25. `false` when the bits end first; the
    /// entries read before then stay applied. With no entries nothing is
    /// read or changed.
    pub fn parse_packet_entities(&mut self, pack_ents: PacketEntities) -> (complete: bool)
        requires
            pack_ents.entity_data@.len() * 8 <= usize::MAX,
            !(entity_run(
                pack_ents.entity_data@,
                0,
                -1,
                pack_ents.updated_entries as int,
                old(self).slots(),
                old(self).serverclass_map@,
                old(self).class_bits,
            ) is Fails),
        ensures
            final(self).class_bits == old(self).class_bits,
            final(self).serverclass_map == old(self).serverclass_map,
            final(self).dt_map == old(self).dt_map,
            match entity_run(
                pack_ents.entity_data@,
                0,
                -1,
                pack_ents.updated_entries as int,
                old(self).slots(),
                old(self).serverclass_map@,
                old(self).class_bits,
            ) {
                EntityRun::Complete(s) => complete && final(self).slots() == s,
                EntityRun::OutOfData(s) => !complete && final(self).slots() == s,
                EntityRun::Fails => false,
            },
            pack_ents.updated_entries <= 0 ==> complete && final(self).entities == old(
                self,
            ).entities,
    {
        let upd = pack_ents.updated_entries;
        if upd <= 0 {
            return true;
        }
        let ghost data = pack_ents.entity_data@;
        let ghost classes = self.serverclass_map@;
        let ghost target = entity_run(
            data,
            0,
            -1,
            upd as int,
            self.slots(),
            classes,
            self.class_bits,
        );
        let mut b = BitReader::new(pack_ents.entity_data.as_slice());
        let mut entity_id: i32 = -1;
        let mut inx: i32 = 0;
        while inx < upd
            invariant
                inx >= 0,
                data == pack_ents.entity_data@,
                upd == pack_ents.updated_entries,
                target == entity_run(
                    data,
                    0,
                    -1,
                    upd as int,
                    old(self).slots(),
                    old(self).serverclass_map@,
                    old(self).class_bits,
                ),
                b.bytes() == data,
                classes == self.serverclass_map@,
                self.class_bits == old(self).class_bits,
                self.serverclass_map == old(self).serverclass_map,
                self.dt_map == old(self).dt_map,
                entity_run(
                    data,
                    b.position(),
                    entity_id as int,
                    upd - inx,
                    self.slots(),
                    classes,
                    self.class_bits,
                ) == target,
                !(target is Fails),
            decreases upd - inx,
        {
            let ghost pos0 = b.position();
            let ghost slots0 = self.slots();
            let ghost step = entity_step(data, pos0, entity_id as int, slots0, classes, self.class_bits);
            assert(entity_run(data, pos0, entity_id as int, upd - inx, slots0, classes, self.class_bits)
                == match step {
                EntityStep::Stop => EntityRun::Complete(slots0),
                EntityStep::OutOfData(s) => EntityRun::OutOfData(s),
                EntityStep::Fails => EntityRun::Fails,
                EntityStep::Next { pos, id, slots } => entity_run(
                    data,
                    pos,
                    id,
                    upd - inx - 1,
                    slots,
                    classes,
                    self.class_bits,
                ),
            });
            match self.apply_entry(&mut b, entity_id) {
                Entry::Next(id) => {
                    entity_id = id;
                },
                Entry::Stop => {
                    return true;
                },
                Entry::OutOfData => {
                    return false;
                },
            }
            inx = inx + 1;
        }
        true
    }

    /// Reads the update of an entity of class `sv_cls` from `b`: the index
    /// list, then the value of each property it names. No value is kept:
    /// the result, when the update can be read, is empty; `None`, with `b`
    /// where it was, when the stream ends first or a value cannot be read.
    pub fn handle_entity_upd(&self, sv_cls: &ServerClass, b: &mut BitReader) -> (r: Option<
        Vec<PropData>,
    >)
        requires
            !entity_update_fails_hard(old(b).bytes(), old(b).position(), class_props(*sv_cls)),
        ensures
            final(b).bytes() == old(b).bytes(),
            match entity_update_end(old(b).bytes(), old(b).position(), class_props(*sv_cls)) {
                Some(e) => r matches Some(v) && v@.len() == 0 && final(b).position() == e,
                None => r is None && final(b).position() == old(b).position(),
            },
    {
        let ghost data = b.bytes();
        let start = b.tell();
        let mut val: i32 = -1;
        let new_way = match b.read_bool() {
            Some(v) => v,
            None => return None,
        };
        let ghost p1 = b.position();
        let mut indicies: Vec<i32> = Vec::new();
        loop
            invariant_except_break
                indices_fit(data, b.position(), val as int, new_way),
                indices_fit(data, p1, -1, new_way),
                match indices_from(data, b.position(), val as int, new_way) {
                    Some((rest, q)) => indices_from(data, p1, -1, new_way) == Some(
                        (as_ints(indicies@) + rest, q),
                    ),
                    None => indices_from(data, p1, -1, new_way) is None,
                },
            invariant
                b.bytes() == data,
                data == old(b).bytes(),
                start == old(b).position(),
                start <= data.len() * 8,
                read_bool_spec(data, start as nat) == Some((new_way, p1)),
                val == -1 || val >= 0,
                forall|j: int| 0 <= j < indicies@.len() ==> indicies@[j] >= 0,
            ensures
                indices_from(data, p1, -1, new_way) == Some((as_ints(indicies@), b.position())),
            decreases data.len() * 8 - b.position(),
        {
            let ghost pos = b.position();
            proof {
                lemma_read_inx(data, pos, val as int, new_way);
            }
            val = match b.read_inx(val, new_way) {
                Some(v) => v,
                None => {
                    b.seek(start);
                    return None;
                },
            };
            if val == -1 {
                assert(as_ints(indicies@) + seq![] =~= as_ints(indicies@));
                break;
            }
            let ghost prev = indicies@;
            indicies.push(val);
            proof {
                assert(as_ints(indicies@) =~= as_ints(prev).push(val as int));
                let rest = indices_from(data, b.position(), val as int, new_way);
                if let Some((r, q)) = rest {
                    assert(as_ints(prev) + (seq![val as int] + r) =~= as_ints(indicies@) + r);
                }
            }
        }
        let ghost idx = as_ints(indicies@);
        let ghost p2 = b.position();
        assert(idx.skip(0) =~= idx);
        let data_out: Vec<PropData> = Vec::new();
        if indicies.len() == 0 {
            return Some(data_out);
        }
        let fprops = sv_cls.fprops.as_ref().unwrap();
        let ghost fp = prop_views(fprops@);
        assert(class_props(*sv_cls) == Some(fp));
        let mut j: usize = 0;
        while j < indicies.len()
            invariant
                0 <= j <= indicies@.len(),
                b.bytes() == data,
                data == old(b).bytes(),
                start == old(b).position(),
                start <= data.len() * 8,
                idx == as_ints(indicies@),
                fp == prop_views(fprops@),
                read_bool_spec(data, start as nat) == Some((new_way, p1)),
                indices_from(data, p1, -1, new_way) == Some((idx, p2)),
                class_props(*sv_cls) == Some(fp),
                forall|m: int| 0 <= m < indicies@.len() ==> indicies@[m] >= 0,
                skip_props(data, b.position(), fp, idx.skip(j as int)) == skip_props(
                    data,
                    p2,
                    fp,
                    idx,
                ),
            decreases indicies@.len() - j,
        {
            let inx = indicies[j];
            proof {
                assert(idx.skip(j as int)[0] == inx as int);
                assert(idx.skip(j as int).drop_first() =~= idx.skip(j + 1));
            }
            assert(indicies@[j as int] >= 0);
            if fprops.len() > inx as usize {
                let prop = &fprops[inx as usize];
                assert(fp[inx as int] == prop@);
                if !b.skip_value(prop) {
                    b.seek(start);
                    return None;
                }
            }
            j = j + 1;
        }
        assert(idx.skip(idx.len() as int) =~= Seq::<int>::empty());
        Some(data_out)
    }
}

} // verus!
