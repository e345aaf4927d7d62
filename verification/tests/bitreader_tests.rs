use csgo_entities::bitreader::BitReader;
use csgo_entities::sendtable::{
    Prop, SendProp, SendTable, FLAG_COORD, FLAG_NORMAL, FLAG_UNSIGNED, FLAG_VARINT,
    PROP_TYPE_ARRAY, PROP_TYPE_FLOAT, PROP_TYPE_INT, PROP_TYPE_INT64, PROP_TYPE_STRING,
    PROP_TYPE_VECTOR,
};

/// Bits written lowest first, each value in `n` bits, first value first.
struct Bits {
    bits: Vec<bool>,
}

impl Bits {
    fn new() -> Self {
        Bits { bits: Vec::new() }
    }
    fn put(mut self, value: u64, n: usize) -> Self {
        for k in 0..n {
            self.bits.push((value >> k) & 1 == 1);
        }
        self
    }
    fn bytes(&self) -> Vec<u8> {
        let mut out = vec![0u8; (self.bits.len() + 7) / 8];
        for (i, b) in self.bits.iter().enumerate() {
            if *b {
                out[i / 8] |= 1 << (i % 8);
            }
        }
        out
    }
}

fn sprop(type_: i32, flags: i32, num_bits: i32, num_elements: i32) -> SendProp {
    SendProp {
        type_,
        var_name: "v".to_string(),
        flags,
        priority: 0,
        dt_name: String::new(),
        num_elements,
        num_bits,
    }
}

fn fprop(p: SendProp, arr: Option<SendProp>) -> Prop {
    Prop {
        prop: p,
        arr,
        table: SendTable { net_table_name: "T".to_string(), props: vec![] },
        col: 1,
        data: None,
    }
}

#[test]
fn read_nbits_takes_lowest_bits_first() {
    let data = [0b1010_0110u8];
    let mut b = BitReader::new(&data);
    assert_eq!(b.read_nbits(3), Some(6));
    assert_eq!(b.read_nbits(5), Some(20));
    assert_eq!(b.tell(), 8);
    assert_eq!(b.read_nbits(1), None);
    assert_eq!(b.tell(), 8);
}

#[test]
fn read_nbits_spans_bytes() {
    let data = [0xff, 0x01];
    let mut b = BitReader::new(&data);
    assert_eq!(b.read_nbits(4), Some(15));
    assert_eq!(b.read_nbits(9), Some(31));
    assert_eq!(b.read_nbits(32), None);
    assert_eq!(b.tell(), 13);
}

#[test]
fn read_nbits_full_word() {
    let data = [0x78, 0x56, 0x34, 0x12];
    let mut b = BitReader::new(&data);
    assert_eq!(b.read_nbits(32), Some(0x1234_5678));
}

#[test]
fn read_bool_reads_one_bit() {
    let data = [0b10];
    let mut b = BitReader::new(&data);
    assert_eq!(b.read_bool(), Some(false));
    assert_eq!(b.read_bool(), Some(true));
}

#[test]
fn read_u_bit_var_short_and_long_forms() {
    let bytes = Bits::new().put(5, 6).put(16 + 3, 6).put(2, 4).put(32 + 1, 6).put(200, 8)
        .put(48 + 15, 6).put(0xfff_ffff, 28).bytes();
    let mut b = BitReader::new(&bytes);
    assert_eq!(b.read_u_bit_var(), Some(5));
    assert_eq!(b.read_u_bit_var(), Some(3 + 2 * 16));
    assert_eq!(b.read_u_bit_var(), Some(1 + 200 * 16));
    assert_eq!(b.read_u_bit_var(), Some(0xffff_ffff));
}

#[test]
fn read_u_bit_var_out_of_data_keeps_position() {
    let bytes = Bits::new().put(16 + 3, 6).bytes();
    let mut b = BitReader::new(&bytes);
    assert_eq!(b.read_u_bit_var(), None);
    assert_eq!(b.tell(), 0);
}

#[test]
fn read_inx_new_way_steps() {
    let bytes = Bits::new().put(1, 1).put(0, 1).put(1, 1).put(5, 3).put(0, 1).put(0, 1)
        .put(31 + 96, 7).put(127, 7).bytes();
    let mut b = BitReader::new(&bytes);
    assert_eq!(b.read_inx(-1, true), Some(0));
    assert_eq!(b.read_inx(0, true), Some(6));
    assert_eq!(b.read_inx(6, true), Some(-1));
}

#[test]
fn read_inx_old_way_long_forms() {
    let bytes = Bits::new().put(7, 7).put(32 + 4, 7).put(3, 2).put(64 + 1, 7).put(9, 4).bytes();
    let mut b = BitReader::new(&bytes);
    assert_eq!(b.read_inx(-1, false), Some(7));
    assert_eq!(b.read_inx(7, false), Some(7 + 1 + 4 + 3 * 32));
    assert_eq!(b.read_inx(0, false), Some(1 + 1 + 9 * 32));
}

#[test]
fn skip_value_int_and_varint() {
    let bytes = Bits::new().put(0x55, 7).put(0x81, 8).put(0x02, 8).put(1, 1).bytes();
    let mut b = BitReader::new(&bytes);
    assert!(b.skip_value(&fprop(sprop(PROP_TYPE_INT, 0, 7, 0), None)));
    assert_eq!(b.tell(), 7);
    assert!(b.skip_value(&fprop(sprop(PROP_TYPE_INT, FLAG_VARINT, 32, 0), None)));
    assert_eq!(b.tell(), 23);
    assert!(!b.skip_value(&fprop(sprop(PROP_TYPE_INT, 0, 33, 0), None)));
    assert_eq!(b.tell(), 23);
}

#[test]
fn skip_value_string_and_int64() {
    let bytes = Bits::new().put(2, 9).put(0x4142, 16).put(0, 64).bytes();
    let mut b = BitReader::new(&bytes);
    assert!(b.skip_value(&fprop(sprop(PROP_TYPE_STRING, 0, 0, 0), None)));
    assert_eq!(b.tell(), 25);
    assert!(b.skip_value(&fprop(sprop(PROP_TYPE_INT64, FLAG_UNSIGNED, 64, 0), None)));
    assert_eq!(b.tell(), 89);
    let mut b2 = BitReader::new(&bytes);
    assert!(!b2.skip_value(&fprop(sprop(PROP_TYPE_INT64, 0, 32, 0), None)));
}

#[test]
fn skip_value_coord_and_normal_vector() {
    // A coordinate with an integer part and a fraction: 2 flags, sign, 14 + 5 bits.
    let bytes = Bits::new().put(1, 1).put(1, 1).put(0, 1).put(0, 19)
        // A coordinate that is zero: two clear flags.
        .put(0, 2).bytes();
    let mut b = BitReader::new(&bytes);
    assert!(b.skip_value(&fprop(sprop(PROP_TYPE_FLOAT, FLAG_COORD, 0, 0), None)));
    assert_eq!(b.tell(), 22);
    assert!(b.skip_value(&fprop(sprop(PROP_TYPE_FLOAT, FLAG_COORD, 0, 0), None)));
    assert_eq!(b.tell(), 24);
    // A normal vector: two 12-bit normals and a sign bit.
    let v = vec![0u8; 4];
    let mut b3 = BitReader::new(&v);
    assert!(b3.skip_value(&fprop(sprop(PROP_TYPE_VECTOR, FLAG_NORMAL, 0, 0), None)));
    assert_eq!(b3.tell(), 25);
}

#[test]
fn skip_value_array_reads_count_then_elements() {
    // At most 5 elements: a 3-bit count; 2 elements of 4 bits.
    let bytes = Bits::new().put(2, 3).put(0xf, 4).put(0x1, 4).bytes();
    let mut b = BitReader::new(&bytes);
    let elem = sprop(PROP_TYPE_INT, 0, 4, 0);
    assert!(b.skip_value(&fprop(sprop(PROP_TYPE_ARRAY, 0, 0, 5), Some(elem))));
    assert_eq!(b.tell(), 11);
    let mut b2 = BitReader::new(&bytes);
    assert!(!b2.skip_value(&fprop(sprop(PROP_TYPE_ARRAY, 0, 0, 5), None)));
    assert_eq!(b2.tell(), 0);
}
