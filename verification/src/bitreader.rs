//! A reader of the bit stream of entity data: bits are taken from the
//! lowest bit of each byte upwards, bytes in order, and a group of bits
//! reads as an unsigned number whose first bit is the lowest.

use vstd::prelude::*;
use vstd::arithmetic::power2::{pow2, lemma_pow2_unfold, lemma_pow2_strictly_increases, lemma2_to64};
use crate::sendtable::{
    has_flag, Prop, SendProp, FLAG_CELL_COORD, FLAG_CELL_COORD_INTEGRAL,
    FLAG_CELL_COORD_LOWPRECISION, FLAG_COORD, FLAG_COORD_MP, FLAG_COORD_MP_INTEGRAL,
    FLAG_COORD_MP_LOWPRECISION, FLAG_NOSCALE, FLAG_NORMAL, FLAG_UNSIGNED, FLAG_VARINT,
    PROP_TYPE_ARRAY, PROP_TYPE_FLOAT, PROP_TYPE_INT, PROP_TYPE_INT64, PROP_TYPE_STRING,
    PROP_TYPE_VECTOR, PROP_TYPE_VECTORXY,
};

verus! {

/// Bit `i` of the stream `data`.
pub open spec fn bit_at(data: Seq<u8>, i: int) -> bool {
    (data[i / 8] >> ((i % 8) as u8)) & 1u8 == 1u8
}

/// The number that the `n` bits of `data` from bit `pos` stand for, first bit lowest.
pub open spec fn bits_value(data: Seq<u8>, pos: int, n: nat) -> nat
    decreases n,
{
    if n == 0 {
        0
    } else {
        bits_value(data, pos, (n - 1) as nat) + if bit_at(data, pos + n - 1) {
            pow2((n - 1) as nat)
        } else {
            0
        }
    }
}

/// Reading `n` bits at `pos`: their value and the position after them, or
/// `None` when the stream has fewer bits left.
pub open spec fn read_spec(data: Seq<u8>, pos: nat, n: nat) -> Option<(nat, nat)> {
    if pos + n <= data.len() * 8 {
        Some((bits_value(data, pos as int, n), pos + n))
    } else {
        None
    }
}

/// Reading one bit at `pos`.
pub open spec fn read_bool_spec(data: Seq<u8>, pos: nat) -> Option<(bool, nat)> {
    match read_spec(data, pos, 1) {
        Some((v, p)) => Some((v == 1, p)),
        None => None,
    }
}

/// A variable-length unsigned number: six bits, whose two high bits say
/// whether four, eight or twenty-eight more bits follow above the low four.
#[verifier::opaque]
pub open spec fn u_bit_var_spec(data: Seq<u8>, pos: nat) -> Option<(nat, nat)> {
    match read_spec(data, pos, 6) {
        None => None,
        Some((ret, p1)) => {
            let sel = (ret / 16) % 4;
            let more: nat = if sel == 1 {
                4
            } else if sel == 2 {
                8
            } else if sel == 3 {
                28
            } else {
                0
            };
            if sel == 0 {
                Some((ret, p1))
            } else {
                match read_spec(data, p1, more) {
                    None => None,
                    Some((v, p2)) => Some((ret % 16 + v * 16, p2)),
                }
            }
        },
    }
}

/// The next property index after `last`: with `new_way`, a set bit means
/// `last + 1`, and a second set bit means a three-bit step; otherwise a
/// seven-bit step whose two high bits say whether two, four or seven more
/// bits follow above the low five. A step of 4095 ends the list (-1).
#[verifier::opaque]
pub open spec fn read_inx_spec(data: Seq<u8>, pos: nat, last: int, new_way: bool) -> Option<
    (int, nat),
> {
    let first = if new_way {
        read_bool_spec(data, pos)
    } else {
        Some((false, pos))
    };
    match first {
        None => None,
        Some((true, p)) => Some((last + 1, p)),
        Some((false, p0)) => {
            let second = if new_way {
                read_bool_spec(data, p0)
            } else {
                Some((false, p0))
            };
            let step = match second {
                None => None,
                Some((true, p1)) => read_spec(data, p1, 3),
                Some((false, p1)) => match read_spec(data, p1, 7) {
                    None => None,
                    Some((ret, p2)) => {
                        let sel = (ret / 32) % 4;
                        let more: nat = if sel == 1 {
                            2
                        } else if sel == 2 {
                            4
                        } else {
                            7
                        };
                        if sel == 0 {
                            Some((ret, p2))
                        } else {
                            match read_spec(data, p2, more) {
                                None => None,
                                Some((v, p3)) => Some((ret % 32 + v * 32, p3)),
                            }
                        }
                    },
                },
            };
            match step {
                None => None,
                Some((ret, p)) => if ret == 4095 {
                    Some((-1, p))
                } else {
                    Some((last + 1 + ret, p))
                },
            }
        },
    }
}


/// The position after `n` more bits, if the stream has them.
pub open spec fn skip_spec(data: Seq<u8>, pos: nat, n: nat) -> Option<nat> {
    if pos + n <= data.len() * 8 {
        Some(pos + n)
    } else {
        None
    }
}

/// The end of a variable-length number of at most `max - count` more bytes:
/// bytes are read until one below 128.
pub open spec fn varint_end(data: Seq<u8>, pos: nat, count: nat, max: nat) -> Option<nat>
    decreases max - count,
{
    if count >= max {
        Some(pos)
    } else {
        match read_spec(data, pos, 8) {
            None => None,
            Some((b, p)) => if b < 128 {
                Some(p)
            } else {
                varint_end(data, p, count + 1, max)
            },
        }
    }
}

/// The end of a world coordinate: an integer flag, a fraction flag, and
/// when either is set a sign bit, fourteen integer bits and five fraction
/// bits as flagged.
pub open spec fn coord_end(data: Seq<u8>, pos: nat) -> Option<nat> {
    match read_bool_spec(data, pos) {
        None => None,
        Some((int_part, p1)) => match read_bool_spec(data, p1) {
            None => None,
            Some((fract_part, p2)) => if !int_part && !fract_part {
                Some(p2)
            } else {
                skip_spec(
                    data,
                    p2,
                    1 + (if int_part {
                        14nat
                    } else {
                        0nat
                    }) + (if fract_part {
                        5nat
                    } else {
                        0nat
                    }),
                )
            },
        },
    }
}

/// The end of a multiplayer coordinate: an in-bounds flag and an integer
/// flag; an integral one then has a sign and, when flagged, eleven (in
/// bounds) or fourteen integer bits; any other a sign, those integer bits
/// when flagged, and three (low precision) or five fraction bits.
pub open spec fn coord_mp_end(data: Seq<u8>, pos: nat, integral: bool, low_precision: bool) -> Option<
    nat,
> {
    match read_bool_spec(data, pos) {
        None => None,
        Some((in_bounds, p1)) => match read_bool_spec(data, p1) {
            None => None,
            Some((int_part, p2)) => {
                let int_bits: nat = if in_bounds {
                    11
                } else {
                    14
                };
                if integral {
                    if int_part {
                        skip_spec(data, p2, 1 + int_bits)
                    } else {
                        Some(p2)
                    }
                } else {
                    skip_spec(
                        data,
                        p2,
                        1 + (if int_part {
                            int_bits
                        } else {
                            0
                        }) + (if low_precision {
                            3nat
                        } else {
                            5nat
                        }),
                    )
                }
            },
        },
    }
}

/// The end of a float of a property with `flags` and `num_bits`; `None`
/// also when a bit count outside 0..=32 would be read.
pub open spec fn float_end(data: Seq<u8>, pos: nat, flags: i32, num_bits: i32) -> Option<nat> {
    if has_flag(flags, FLAG_COORD) {
        coord_end(data, pos)
    } else if has_flag(flags, FLAG_COORD_MP) {
        coord_mp_end(data, pos, false, false)
    } else if has_flag(flags, FLAG_COORD_MP_LOWPRECISION) {
        coord_mp_end(data, pos, false, true)
    } else if has_flag(flags, FLAG_COORD_MP_INTEGRAL) {
        coord_mp_end(data, pos, true, false)
    } else if has_flag(flags, FLAG_NOSCALE) {
        skip_spec(data, pos, 32)
    } else if has_flag(flags, FLAG_NORMAL) {
        skip_spec(data, pos, 12)
    } else if num_bits < 0 || num_bits > 32 {
        None
    } else if has_flag(flags, FLAG_CELL_COORD) {
        skip_spec(data, pos, num_bits as nat + 5)
    } else if has_flag(flags, FLAG_CELL_COORD_LOWPRECISION) {
        skip_spec(data, pos, num_bits as nat + 3)
    } else {
        skip_spec(data, pos, num_bits as nat)
    }
}

/// The number of bits that the element count of an array of at most
/// `n` elements takes: one more than the number of halvings of `n` before 0.
pub open spec fn count_bits(n: int) -> nat
    decreases n,
{
    if n < 2 {
        1
    } else {
        1 + count_bits(n / 2)
    }
}

/// The end of one value of a property that is not an array.
pub open spec fn scalar_end(data: Seq<u8>, pos: nat, p: SendProp) -> Option<nat> {
    if p.type_ == PROP_TYPE_INT {
        if has_flag(p.flags, FLAG_VARINT) {
            varint_end(data, pos, 0, 5)
        } else if 0 <= p.num_bits <= 32 {
            skip_spec(data, pos, p.num_bits as nat)
        } else {
            None
        }
    } else if p.type_ == PROP_TYPE_FLOAT {
        float_end(data, pos, p.flags, p.num_bits)
    } else if p.type_ == PROP_TYPE_VECTOR || p.type_ == PROP_TYPE_VECTORXY {
        match float_end(data, pos, p.flags, p.num_bits) {
            None => None,
            Some(p1) => match float_end(data, p1, p.flags, p.num_bits) {
                None => None,
                Some(p2) => if p.type_ == PROP_TYPE_VECTORXY {
                    Some(p2)
                } else if has_flag(p.flags, FLAG_NORMAL) {
                    skip_spec(data, p2, 1)
                } else {
                    float_end(data, p2, p.flags, p.num_bits)
                },
            },
        }
    } else if p.type_ == PROP_TYPE_STRING {
        match read_spec(data, pos, 9) {
            None => None,
            Some((len, p1)) => skip_spec(data, p1, len * 8),
        }
    } else if p.type_ == PROP_TYPE_INT64 {
        if has_flag(p.flags, FLAG_VARINT) {
            varint_end(data, pos, 0, 10)
        } else if has_flag(p.flags, FLAG_UNSIGNED) && 32 <= p.num_bits <= 64 {
            skip_spec(data, pos, p.num_bits as nat)
        } else if !has_flag(p.flags, FLAG_UNSIGNED) && 33 <= p.num_bits <= 65 {
            skip_spec(data, pos, p.num_bits as nat)
        } else {
            None
        }
    } else {
        None
    }
}

/// The end of `count` values of the element property `e`.
pub open spec fn elements_end(data: Seq<u8>, pos: nat, e: SendProp, count: nat) -> Option<nat>
    decreases count,
{
    if count == 0 {
        Some(pos)
    } else {
        match scalar_end(data, pos, e) {
            None => None,
            Some(p) => elements_end(data, p, e, (count - 1) as nat),
        }
    }
}

/// The end of one value of property `p`, whose elements, when it is an
/// array, are values of `arr`: an array sends its element count and then
/// the elements. `None` when the stream ends first or the property cannot
/// be read (an unknown type, a bit count out of range, an array without a
/// non-array element property or with a negative size).
#[verifier::opaque]
pub open spec fn value_end(data: Seq<u8>, pos: nat, p: SendProp, arr: Option<SendProp>) -> Option<
    nat,
> {
    if p.type_ == PROP_TYPE_ARRAY {
        match arr {
            None => None,
            Some(e) => if p.num_elements < 0 || e.type_ == PROP_TYPE_ARRAY {
                None
            } else {
                match read_spec(data, pos, count_bits(p.num_elements as int)) {
                    None => None,
                    Some((count, p1)) => elements_end(data, p1, e, count),
                }
            },
        }
    } else {
        scalar_end(data, pos, p)
    }
}

/// Reading an index moves at least one bit on and stays in the stream;
/// after an index of at least -1, the next is -1 or greater than it.
pub proof fn lemma_read_inx(data: Seq<u8>, pos: nat, last: int, new_way: bool)
    ensures
        read_inx_spec(data, pos, last, new_way) matches Some((v, p)) ==> {
            &&& pos < p <= data.len() * 8
            &&& v == -1 || v > last
        },
{
    reveal(read_inx_spec);
    if let Some((v, p)) = read_inx_spec(data, pos, last, new_way) {
        if new_way {
            let (b, p0) = read_bool_spec(data, pos).unwrap();
            assert(p0 == pos + 1);
            if !b {
                let (b2, p1) = read_bool_spec(data, p0).unwrap();
                assert(p1 == pos + 2);
                if b2 {
                    let (ret, p3) = read_spec(data, p1, 3).unwrap();
                    assert(p3 == p1 + 3);
                } else {
                    let (ret, p3) = read_spec(data, p1, 7).unwrap();
                    assert(p3 == p1 + 7);
                }
            }
        } else {
            let (ret, p3) = read_spec(data, pos, 7).unwrap();
            assert(p3 == pos + 7);
        }
    }
}

proof fn lemma_count_bits_bound(n: int, k: nat)
    requires
        0 <= n < pow2(k),
        k >= 1,
    ensures
        count_bits(n) <= k,
    decreases k,
{
    lemma_pow2_unfold(k);
    if n >= 2 {
        if k > 1 {
            lemma_count_bits_bound(n / 2, (k - 1) as nat);
        } else {
            lemma2_to64();
        }
    }
}

proof fn lemma_bits_value_bound(data: Seq<u8>, pos: int, n: nat)
    ensures
        bits_value(data, pos, n) < pow2(n),
    decreases n,
{
    if n > 0 {
        lemma_bits_value_bound(data, pos, (n - 1) as nat);
        lemma_pow2_unfold(n);
    } else {
        lemma2_to64();
    }
}

/// Every read of at most 32 bits gives a number below `2^n`, at most `2^32 - 1`.
proof fn lemma_read_bound(data: Seq<u8>, pos: int, n: nat)
    requires
        n <= 32,
    ensures
        bits_value(data, pos, n) < pow2(n),
        pow2(n) <= 0x1_0000_0000,
{
    lemma_bits_value_bound(data, pos, n);
    lemma2_to64();
    if n < 32 {
        lemma_pow2_strictly_increases(n, 32);
    }
}

/// A reader of the bits of a byte slice, at a position.
pub struct BitReader<'a> {
    data: &'a [u8],
    pos: usize,
}

impl<'a> BitReader<'a> {
    #[verifier::type_invariant]
    closed spec fn inv(self) -> bool {
        &&& self.data@.len() * 8 <= usize::MAX
        &&& self.pos <= self.data@.len() * 8
    }

    /// The bytes being read.
    pub closed spec fn bytes(&self) -> Seq<u8> {
        self.data@
    }

    /// The position of the next bit.
    pub closed spec fn position(&self) -> nat {
        self.pos as nat
    }

    /// A reader at the first bit of `data`.
    pub fn new(data: &'a [u8]) -> (r: Self)
        requires
            data@.len() * 8 <= usize::MAX,
        ensures
            r.bytes() == data@,
            r.position() == 0,
    {
        BitReader { data, pos: 0 }
    }

    /// The position of the next bit.
    pub fn tell(&self) -> (p: usize)
        ensures
            p == self.position(),
    {
        self.pos
    }

    /// Moves to bit `p` of the stream.
    pub fn seek(&mut self, p: usize)
        requires
            p <= old(self).bytes().len() * 8,
        ensures
            final(self).bytes() == old(self).bytes(),
            final(self).position() == p,
    {
        proof {
            use_type_invariant(&*self);
        }
        self.pos = p;
    }

    /// Reads `n` bits, first bit lowest; `None`, with the position unchanged,
    /// when fewer than `n` bits are left.
    pub fn read_nbits(&mut self, n: u32) -> (r: Option<u32>)
        requires
            n <= 32,
        ensures
            final(self).bytes() == old(self).bytes(),
            match read_spec(old(self).bytes(), old(self).position(), n as nat) {
                Some((v, p)) => r == Some(v as u32) && final(self).position() == p,
                None => r is None && final(self).position() == old(self).position(),
            },
    {
        proof {
            use_type_invariant(&*self);
        }
        let total = self.data.len() * 8;
        if (n as usize) > total - self.pos {
            return None;
        }
        let ghost data = self.data@;
        let start = self.pos;
        let mut v: u64 = 0;
        let mut mult: u64 = 1;
        let mut k: u32 = 0;
        proof {
            lemma2_to64();
        }
        while k < n
            invariant
                0 <= k <= n <= 32,
                start + n <= data.len() * 8,
                data.len() * 8 <= usize::MAX,
                data == self.data@,
                v == bits_value(data, start as int, k as nat),
                mult == pow2(k as nat),
                v < mult,
                mult <= 0x1_0000_0000,
            decreases n - k,
        {
            let idx = start + k as usize;
            let bit = (self.data[idx / 8] >> ((idx % 8) as u8)) & 1u8;
            proof {
                lemma_pow2_unfold((k + 1) as nat);
                lemma_read_bound(data, start as int, (k + 1) as nat);
            }
            if bit == 1u8 {
                v = v + mult;
            }
            mult = mult * 2;
            k = k + 1;
        }
        self.pos = start + n as usize;
        Some(v as u32)
    }

    /// Reads one bit.
    pub fn read_bool(&mut self) -> (r: Option<bool>)
        ensures
            final(self).bytes() == old(self).bytes(),
            match read_bool_spec(old(self).bytes(), old(self).position()) {
                Some((v, p)) => r == Some(v) && final(self).position() == p,
                None => r is None && final(self).position() == old(self).position(),
            },
    {
        proof {
            lemma_read_bound(self.bytes(), self.position() as int, 1);
        }
        match self.read_nbits(1) {
            Some(v) => Some(v == 1),
            None => None,
        }
    }

    /// Reads a variable-length unsigned number (see `u_bit_var_spec`).
    pub fn read_u_bit_var(&mut self) -> (r: Option<u32>)
        ensures
            final(self).bytes() == old(self).bytes(),
            match u_bit_var_spec(old(self).bytes(), old(self).position()) {
                Some((v, p)) => v <= u32::MAX && r == Some(v as u32) && final(self).position() == p,
                None => r is None && final(self).position() == old(self).position(),
            },
    {
        proof {
            use_type_invariant(&*self);
            reveal(u_bit_var_spec);
        }
        let start = self.pos;
        let ghost data = self.bytes();
        proof {
            lemma_read_bound(data, start as int, 6);
            lemma2_to64();
        }
        let ret = match self.read_nbits(6) {
            Some(v) => v,
            None => return None,
        };
        let sel = (ret / 16) % 4;
        if sel == 0 {
            return Some(ret);
        }
        let more: u32 = if sel == 1 {
            4
        } else if sel == 2 {
            8
        } else {
            28
        };
        proof {
            lemma_read_bound(data, start + 6, more as nat);
            if more < 28 {
                lemma_pow2_strictly_increases(more as nat, 28);
            }
        }
        match self.read_nbits(more) {
            Some(v) => Some(ret % 16 + v * 16),
            None => {
                self.pos = start;
                None
            },
        }
    }

    /// Reads the next property index after `last` (see `read_inx_spec`):
    /// -1 when the list ends.
    pub fn read_inx(&mut self, last: i32, new_way: bool) -> (r: Option<i32>)
        requires
            match read_inx_spec(old(self).bytes(), old(self).position(), last as int, new_way) {
                Some((v, _)) => v <= i32::MAX,
                None => true,
            },
        ensures
            final(self).bytes() == old(self).bytes(),
            match read_inx_spec(old(self).bytes(), old(self).position(), last as int, new_way) {
                Some((v, p)) => r == Some(v as i32) && final(self).position() == p,
                None => r is None && final(self).position() == old(self).position(),
            },
    {
        proof {
            use_type_invariant(&*self);
            reveal(read_inx_spec);
        }
        let start = self.pos;
        let ghost data = self.bytes();
        proof {
            lemma2_to64();
        }
        if new_way {
            match self.read_bool() {
                None => return None,
                Some(true) => return Some(last + 1),
                Some(false) => {},
            }
        }
        let p0 = self.pos;
        let short = if new_way {
            match self.read_bool() {
                None => {
                    self.pos = start;
                    return None;
                },
                Some(b) => b,
            }
        } else {
            false
        };
        let p1 = self.pos;
        let ret: u32;
        if short {
            proof {
                lemma_read_bound(data, p1 as int, 3);
            }
            match self.read_nbits(3) {
                None => {
                    self.pos = start;
                    return None;
                },
                Some(v) => {
                    ret = v;
                },
            }
        } else {
            proof {
                lemma_read_bound(data, p1 as int, 7);
            }
            let r7 = match self.read_nbits(7) {
                None => {
                    self.pos = start;
                    return None;
                },
                Some(v) => v,
            };
            let sel = (r7 / 32) % 4;
            if sel == 0 {
                ret = r7;
            } else {
                let more: u32 = if sel == 1 {
                    2
                } else if sel == 2 {
                    4
                } else {
                    7
                };
                proof {
                    lemma_read_bound(data, p1 + 7, more as nat);
                    if more < 7 {
                        lemma_pow2_strictly_increases(more as nat, 7);
                    }
                }
                match self.read_nbits(more) {
                    None => {
                        self.pos = start;
                        return None;
                    },
                    Some(v) => {
                        ret = r7 % 32 + v * 32;
                    },
                }
            }
        }
        if ret == 4095 {
            Some(-1)
        } else {
            Some(last + 1 + ret as i32)
        }
    }

    /// Moves `n` bits on; `false`, with the position unchanged, when fewer are left.
    pub fn skip(&mut self, n: usize) -> (ok: bool)
        ensures
            final(self).bytes() == old(self).bytes(),
            match skip_spec(old(self).bytes(), old(self).position(), n as nat) {
                Some(p) => ok && final(self).position() == p,
                None => !ok && final(self).position() == old(self).position(),
            },
    {
        proof {
            use_type_invariant(&*self);
        }
        if n <= self.data.len() * 8 - self.pos {
            self.pos = self.pos + n;
            true
        } else {
            false
        }
    }

    fn skip_varint(&mut self, max: u32) -> (ok: bool)
        ensures
            final(self).bytes() == old(self).bytes(),
            match varint_end(old(self).bytes(), old(self).position(), 0, max as nat) {
                Some(p) => ok && final(self).position() == p,
                None => !ok && final(self).position() == old(self).position(),
            },
    {
        proof {
            use_type_invariant(&*self);
        }
        let start = self.pos;
        let ghost data = self.bytes();
        let mut count: u32 = 0;
        while count < max
            invariant
                0 <= count <= max,
                self.bytes() == data,
                data == old(self).bytes(),
                start == old(self).position(),
                start <= data.len() * 8,
                varint_end(data, self.position(), count as nat, max as nat) == varint_end(
                    data,
                    start as nat,
                    0,
                    max as nat,
                ),
            decreases max - count,
        {
            proof {
                use_type_invariant(&*self);
                lemma_read_bound(data, self.position() as int, 8);
                lemma2_to64();
            }
            match self.read_nbits(8) {
                None => {
                    self.pos = start;
                    return false;
                },
                Some(b) => {
                    if b < 128 {
                        return true;
                    }
                },
            }
            count = count + 1;
        }
        true
    }

    fn skip_coord(&mut self) -> (ok: bool)
        ensures
            final(self).bytes() == old(self).bytes(),
            match coord_end(old(self).bytes(), old(self).position()) {
                Some(p) => ok && final(self).position() == p,
                None => !ok && final(self).position() == old(self).position(),
            },
    {
        proof {
            use_type_invariant(&*self);
        }
        let start = self.pos;
        let int_part = match self.read_bool() {
            None => return false,
            Some(b) => b,
        };
        let fract_part = match self.read_bool() {
            None => {
                self.pos = start;
                return false;
            },
            Some(b) => b,
        };
        if !int_part && !fract_part {
            return true;
        }
        let n: usize = 1 + (if int_part {
            14
        } else {
            0
        }) + (if fract_part {
            5
        } else {
            0
        });
        if self.skip(n) {
            true
        } else {
            self.pos = start;
            false
        }
    }

    fn skip_coord_mp(&mut self, integral: bool, low_precision: bool) -> (ok: bool)
        ensures
            final(self).bytes() == old(self).bytes(),
            match coord_mp_end(old(self).bytes(), old(self).position(), integral, low_precision) {
                Some(p) => ok && final(self).position() == p,
                None => !ok && final(self).position() == old(self).position(),
            },
    {
        proof {
            use_type_invariant(&*self);
        }
        let start = self.pos;
        let in_bounds = match self.read_bool() {
            None => return false,
            Some(b) => b,
        };
        let int_part = match self.read_bool() {
            None => {
                self.pos = start;
                return false;
            },
            Some(b) => b,
        };
        let int_bits: usize = if in_bounds {
            11
        } else {
            14
        };
        let n: usize = if integral {
            if int_part {
                1 + int_bits
            } else {
                0
            }
        } else {
            1 + (if int_part {
                int_bits
            } else {
                0
            }) + (if low_precision {
                3
            } else {
                5
            })
        };
        if self.skip(n) {
            true
        } else {
            self.pos = start;
            false
        }
    }

    fn skip_float(&mut self, flags: i32, num_bits: i32) -> (ok: bool)
        ensures
            final(self).bytes() == old(self).bytes(),
            match float_end(old(self).bytes(), old(self).position(), flags, num_bits) {
                Some(p) => ok && final(self).position() == p,
                None => !ok && final(self).position() == old(self).position(),
            },
    {
        if flags & FLAG_COORD != 0 {
            self.skip_coord()
        } else if flags & FLAG_COORD_MP != 0 {
            self.skip_coord_mp(false, false)
        } else if flags & FLAG_COORD_MP_LOWPRECISION != 0 {
            self.skip_coord_mp(false, true)
        } else if flags & FLAG_COORD_MP_INTEGRAL != 0 {
            self.skip_coord_mp(true, false)
        } else if flags & FLAG_NOSCALE != 0 {
            self.skip(32)
        } else if flags & FLAG_NORMAL != 0 {
            self.skip(12)
        } else if num_bits < 0 || num_bits > 32 {
            false
        } else if flags & FLAG_CELL_COORD != 0 {
            self.skip(num_bits as usize + 5)
        } else if flags & FLAG_CELL_COORD_LOWPRECISION != 0 {
            self.skip(num_bits as usize + 3)
        } else {
            self.skip(num_bits as usize)
        }
    }

    fn skip_scalar(&mut self, p: &SendProp) -> (ok: bool)
        ensures
            final(self).bytes() == old(self).bytes(),
            match scalar_end(old(self).bytes(), old(self).position(), *p) {
                Some(e) => ok && final(self).position() == e,
                None => !ok && final(self).position() == old(self).position(),
            },
    {
        proof {
            use_type_invariant(&*self);
        }
        let start = self.pos;
        if p.type_ == PROP_TYPE_INT {
            if p.flags & FLAG_VARINT != 0 {
                self.skip_varint(5)
            } else if 0 <= p.num_bits && p.num_bits <= 32 {
                self.skip(p.num_bits as usize)
            } else {
                false
            }
        } else if p.type_ == PROP_TYPE_FLOAT {
            self.skip_float(p.flags, p.num_bits)
        } else if p.type_ == PROP_TYPE_VECTOR || p.type_ == PROP_TYPE_VECTORXY {
            if !self.skip_float(p.flags, p.num_bits) {
                return false;
            }
            if !self.skip_float(p.flags, p.num_bits) {
                self.pos = start;
                return false;
            }
            let ok = if p.type_ == PROP_TYPE_VECTORXY {
                true
            } else if p.flags & FLAG_NORMAL != 0 {
                self.skip(1)
            } else {
                self.skip_float(p.flags, p.num_bits)
            };
            if !ok {
                self.pos = start;
            }
            ok
        } else if p.type_ == PROP_TYPE_STRING {
            proof {
                lemma_read_bound(self.bytes(), start as int, 9);
                lemma2_to64();
            }
            let len = match self.read_nbits(9) {
                None => return false,
                Some(v) => v,
            };
            if self.skip(len as usize * 8) {
                true
            } else {
                self.pos = start;
                false
            }
        } else if p.type_ == PROP_TYPE_INT64 {
            if p.flags & FLAG_VARINT != 0 {
                self.skip_varint(10)
            } else if p.flags & FLAG_UNSIGNED != 0 && 32 <= p.num_bits && p.num_bits <= 64 {
                self.skip(p.num_bits as usize)
            } else if p.flags & FLAG_UNSIGNED == 0 && 33 <= p.num_bits && p.num_bits <= 65 {
                self.skip(p.num_bits as usize)
            } else {
                false
            }
        } else {
            false
        }
    }

    /// Moves past one value of `prop` (see `value_end`); `false`, with the
    /// position unchanged, when the value cannot be read.
    pub fn skip_value(&mut self, prop: &Prop) -> (ok: bool)
        ensures
            final(self).bytes() == old(self).bytes(),
            match value_end(old(self).bytes(), old(self).position(), prop.prop, prop.arr) {
                Some(e) => ok && final(self).position() == e,
                None => !ok && final(self).position() == old(self).position(),
            },
    {
        proof {
            use_type_invariant(&*self);
            reveal(value_end);
        }
        if prop.prop.type_ != PROP_TYPE_ARRAY {
            return self.skip_scalar(&prop.prop);
        }
        let e = match &prop.arr {
            None => return false,
            Some(e) => e,
        };
        if prop.prop.num_elements < 0 || e.type_ == PROP_TYPE_ARRAY {
            return false;
        }
        let start = self.pos;
        let ghost data = self.bytes();
        proof {
            lemma2_to64();
            lemma_count_bits_bound(prop.prop.num_elements as int, 31);
        }
        let mut max_elements = prop.prop.num_elements;
        let mut num_bits: u32 = 1;
        while max_elements / 2 != 0
            invariant
                max_elements >= 0,
                1 <= num_bits,
                num_bits + count_bits(max_elements as int) - 1 == count_bits(
                    prop.prop.num_elements as int,
                ),
                count_bits(max_elements as int) + num_bits <= 33,
            decreases max_elements,
        {
            max_elements = max_elements / 2;
            num_bits = num_bits + 1;
        }
        assert(num_bits == count_bits(prop.prop.num_elements as int));
        proof {
            lemma_read_bound(data, start as int, num_bits as nat);
        }
        let count = match self.read_nbits(num_bits) {
            None => return false,
            Some(v) => v,
        };
        let mut k: u32 = 0;
        while k < count
            invariant
                0 <= k <= count,
                self.bytes() == data,
                data == old(self).bytes(),
                start == old(self).position(),
                start <= data.len() * 8,
                value_end(data, start as nat, prop.prop, prop.arr) == elements_end(
                    data,
                    self.position(),
                    *e,
                    (count - k) as nat,
                ),
            decreases count - k,
        {
            proof {
                use_type_invariant(&*self);
            }
            if !self.skip_scalar(e) {
                self.pos = start;
                return false;
            }
            k = k + 1;
        }
        true
    }
}

} // verus!
