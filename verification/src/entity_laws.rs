//! What a packet-entities update does to the entity slots as a whole.

use vstd::prelude::*;
use crate::bitreader::{lemma_read_inx, read_bool_spec, read_inx_spec, read_spec, u_bit_var_spec};
use crate::entities::{
    as_i32, create_step, delete_step, entity_run, entity_step, indices_from, new_ent_end,
    new_ent_fails_hard, slot, update_step, EntityRun, EntityStep, EntityView, Slots,
};
use crate::entities::ServerClass;

verus! {

/// `b` keeps every slot of `a` (a slot may be emptied or refilled, never
/// dropped), and the slots above 25 are the same in both.
pub open spec fn slots_kept(a: Slots, b: Slots) -> bool {
    match (a, b) {
        (Some(x), Some(y)) => {
            &&& forall|k: u32| #[trigger] x.contains_key(k) ==> y.contains_key(k)
            &&& forall|k: u32|
                k > 25 ==> (#[trigger] x.contains_key(k) == y.contains_key(k) && (x.contains_key(k)
                    ==> x[k] == y[k]))
        },
        (None, None) => true,
        _ => false,
    }
}

proof fn lemma_step_keeps_slots(
    data: Seq<u8>,
    pos: nat,
    prev: int,
    slots: Slots,
    classes: Map<u16, ServerClass>,
    class_bits: u32,
)
    ensures
        match entity_step(data, pos, prev, slots, classes, class_bits) {
            EntityStep::Next { pos: _, id, slots: s } => slots_kept(slots, s) && 0 <= id <= 25,
            EntityStep::OutOfData(s) => slots_kept(slots, s),
            _ => true,
        },
{
    reveal(entity_step);
    reveal(delete_step);
    reveal(create_step);
    reveal(update_step);
}

/// A packet-entities update, whether it reads all its entries or the bits
/// end first, keeps every entity slot that there was (a deleted entity's
/// slot stays, emptied), and changes no slot above 25.
pub proof fn lemma_entity_run_keeps_slots(
    data: Seq<u8>,
    pos: nat,
    prev: int,
    remaining: int,
    slots: Slots,
    classes: Map<u16, ServerClass>,
    class_bits: u32,
)
    ensures
        match entity_run(data, pos, prev, remaining, slots, classes, class_bits) {
            EntityRun::Complete(s) => slots_kept(slots, s),
            EntityRun::OutOfData(s) => slots_kept(slots, s),
            EntityRun::Fails => true,
        },
    decreases remaining,
{
    if remaining > 0 {
        lemma_step_keeps_slots(data, pos, prev, slots, classes, class_bits);
        match entity_step(data, pos, prev, slots, classes, class_bits) {
            EntityStep::Next { pos: p, id, slots: s } => {
                lemma_entity_run_keeps_slots(data, p, id, remaining - 1, s, classes, class_bits);
            },
            _ => {},
        }
    }
}

/// The property indices of one update are delta-coded: each is read with
/// the index before it as its base, so the indices read after `last`
/// (at least -1) are all above it and strictly increase; no property is
/// named twice.
pub proof fn lemma_indices_increase(data: Seq<u8>, pos: nat, last: int, new_way: bool)
    requires
        last >= -1,
    ensures
        indices_from(data, pos, last, new_way) matches Some((idx, _)) ==> {
            &&& forall|i: int| 0 <= i < idx.len() ==> #[trigger] idx[i] > last
            &&& forall|i: int, j: int| 0 <= i < j < idx.len() ==> #[trigger] idx[i] < #[trigger] idx[j]
        },
    decreases data.len() * 8 - pos,
{
    lemma_read_inx(data, pos, last, new_way);
    match read_inx_spec(data, pos, last, new_way) {
        None => {},
        Some((v, p)) => {
            if v != -1 {
                lemma_indices_increase(data, p, v, new_way);
                match indices_from(data, p, v, new_way) {
                    None => {},
                    Some((rest, q)) => {
                        let idx = seq![v] + rest;
                        assert(indices_from(data, pos, last, new_way) == Some((idx, q)));
                        assert forall|i: int| 0 <= i < idx.len() implies #[trigger] idx[i] > last by {
                            if i > 0 {
                                assert(idx[i] == rest[i - 1]);
                            }
                        }
                        assert forall|i: int, j: int| 0 <= i < j < idx.len() implies #[trigger] idx[i]
                            < #[trigger] idx[j] by {
                            assert(idx[j] == rest[j - 1]);
                            if i > 0 {
                                assert(idx[i] == rest[i - 1]);
                            }
                        }
                    },
                }
            }
        },
    }
}

/// An update entry (two clear bits after the id step) of an entity that
/// its slot holds reads that entity's update exactly as `read_new_ent`
/// reads it from there (see `new_ent_end`): the next entry starts where
/// that read ends, and the slots stay as they are; when that read runs out
/// of bits, so does the entry.
pub proof fn lemma_update_entry_reads_update(
    data: Seq<u8>,
    pos: nat,
    prev: int,
    slots: Slots,
    classes: Map<u16, ServerClass>,
    class_bits: u32,
    v: nat,
    p1: nat,
    p2: nat,
    p3: nat,
    e: EntityView,
)
    requires
        u_bit_var_spec(data, pos) == Some((v, p1)),
        1 + as_i32(v) <= i32::MAX,
        i32::MIN <= prev + 1 + as_i32(v) <= 25,
        read_bool_spec(data, p1) == Some((false, p2)),
        read_bool_spec(data, p2) == Some((false, p3)),
        slot(slots, prev + 1 + as_i32(v)) == Some(Some(e)),
        !new_ent_fails_hard(classes, e.class_id, data, p3),
    ensures
        entity_step(data, pos, prev, slots, classes, class_bits) == match new_ent_end(
            classes,
            e.class_id,
            data,
            p3,
        ) {
            Some(q) => EntityStep::Next { pos: q, id: prev + 1 + as_i32(v), slots },
            None => EntityStep::OutOfData(slots),
        },
{
    reveal(entity_step);
    reveal(update_step);
}

/// A delete entry (a set bit after the id step) empties the slot of its
/// entity, keeping the slot, changes no other slot, and reads one more bit.
pub proof fn lemma_delete_entry_empties_slot(
    data: Seq<u8>,
    pos: nat,
    prev: int,
    slots: Map<u32, Option<EntityView>>,
    classes: Map<u16, ServerClass>,
    class_bits: u32,
    v: nat,
    p1: nat,
    p2: nat,
)
    requires
        u_bit_var_spec(data, pos) == Some((v, p1)),
        1 + as_i32(v) <= i32::MAX,
        0 <= prev + 1 + as_i32(v) <= 25,
        read_bool_spec(data, p1) == Some((true, p2)),
    ensures
        ({
            let id = prev + 1 + as_i32(v);
            let emptied = Some(slots.insert(id as u32, None));
            entity_step(data, pos, prev, Some(slots), classes, class_bits) == match read_bool_spec(
                data,
                p2,
            ) {
                Some((_, p3)) => EntityStep::Next { pos: p3, id, slots: emptied },
                None => EntityStep::OutOfData(emptied),
            }
        }),
{
    reveal(entity_step);
    reveal(delete_step);
}

/// A create entry (a clear bit, then a set bit, after the id step) reads a
/// class id of `class_bits` bits and a ten-bit serial, puts in the slot an
/// entity of that class, id and serial with no property values, and then
/// reads the update of an entity of that class as `read_new_ent` does; the
/// next entry starts where that read ends.
pub proof fn lemma_create_entry_fills_slot(
    data: Seq<u8>,
    pos: nat,
    prev: int,
    slots: Map<u32, Option<EntityView>>,
    classes: Map<u16, ServerClass>,
    class_bits: u32,
    v: nat,
    p1: nat,
    p2: nat,
    p3: nat,
    cls: nat,
    p4: nat,
    serial: nat,
    p5: nat,
)
    requires
        u_bit_var_spec(data, pos) == Some((v, p1)),
        1 + as_i32(v) <= i32::MAX,
        0 <= prev + 1 + as_i32(v) <= 25,
        read_bool_spec(data, p1) == Some((false, p2)),
        read_bool_spec(data, p2) == Some((true, p3)),
        class_bits <= 32,
        read_spec(data, p3, class_bits as nat) == Some((cls, p4)),
        read_spec(data, p4, 10) == Some((serial, p5)),
        !new_ent_fails_hard(classes, cls as u32, data, p5),
    ensures
        ({
            let id = prev + 1 + as_i32(v);
            let e = EntityView {
                class_id: cls as u32,
                entity_id: id as u32,
                serial: serial as u32,
                props: seq![],
            };
            let filled = Some(slots.insert(id as u32, Some(e)));
            entity_step(data, pos, prev, Some(slots), classes, class_bits) == match new_ent_end(
                classes,
                cls as u32,
                data,
                p5,
            ) {
                Some(q) => EntityStep::Next { pos: q, id, slots: filled },
                None => EntityStep::OutOfData(filled),
            }
        }),
{
    reveal(entity_step);
    reveal(create_step);
}

} // verus!
