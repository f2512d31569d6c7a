use lean::common::number::{dump_unsigned, load_unsigned, push_le, LoadError, Serde};
use lean::common::opcode::Opcode;
use lean::common::types::{Constant, Inst, SJ_BIAS};

fn encoded(v: u64) -> Vec<u8> {
    let mut w = Vec::new();
    dump_unsigned(v, &mut w);
    w
}

#[test]
fn unsigned_of_small_numbers_is_one_byte() {
    assert_eq!(encoded(0), vec![0x80]);
    assert_eq!(encoded(1), vec![0x81]);
    assert_eq!(encoded(127), vec![0xFF]);
}

#[test]
fn unsigned_groups_stand_highest_first() {
    assert_eq!(encoded(128), vec![0x01, 0x80]);
    assert_eq!(encoded(300), vec![0x02, 0xAC]);
    assert_eq!(encoded(0x3FFF), vec![0x7F, 0xFF]);
    assert_eq!(encoded(0x4000), vec![0x01, 0x00, 0x80]);
}

#[test]
fn unsigned_appends_to_what_is_there() {
    let mut w = vec![9, 9];
    dump_unsigned(5, &mut w);
    assert_eq!(w, vec![9, 9, 0x85]);
}

#[test]
fn unsigned_is_never_longer_than_nine_bytes() {
    for v in [0, 1, 127, 128, u32::MAX as u64, (1 << 62) + 5, (1 << 63) - 1, 1 << 63, u64::MAX] {
        let bytes = encoded(v);
        assert!(!bytes.is_empty() && bytes.len() <= 9, "{} bytes for {}", bytes.len(), v);
        assert!(bytes[..bytes.len() - 1].iter().all(|b| b & 0x80 == 0));
        assert!(bytes[bytes.len() - 1] & 0x80 != 0);
    }
    assert_eq!(encoded((1 << 63) - 1).len(), 9);
}

#[test]
fn unsigned_round_trip() {
    for v in [0, 1, 127, 128, 255, 256, 16383, 16384, 0x5678, u32::MAX as u64, (1 << 63) - 1] {
        let mut bytes = encoded(v);
        bytes.extend_from_slice(&[0xAA, 0xBB]);
        let (rest, back) = load_unsigned(&bytes).unwrap();
        assert_eq!(back, v);
        assert_eq!(rest, &[0xAA, 0xBB]);
    }
}

#[test]
fn unsigned_above_63_bits_loses_its_highest_bit() {
    assert_eq!(encoded(1 << 63), vec![0, 0, 0, 0, 0, 0, 0, 0, 0x80]);
    assert_eq!(encoded((1 << 63) + 300), vec![0, 0, 0, 0, 0, 0, 0, 0x02, 0xAC]);
    assert_eq!(encoded(u64::MAX), encoded((1 << 63) - 1));
    assert_eq!(encoded(u64::MAX), vec![0x7F, 0x7F, 0x7F, 0x7F, 0x7F, 0x7F, 0x7F, 0x7F, 0xFF]);
    let bytes = encoded((1 << 63) + 77);
    assert_eq!(bytes.len(), 9);
    assert_eq!(load_unsigned(&bytes).unwrap().1, 77);
    assert_eq!(load_unsigned(&encoded(1 << 63)).unwrap().1, 0);
}

#[test]
fn load_unsigned_accepts_leading_zero_groups() {
    let (rest, v) = load_unsigned(&[0x00, 0x00, 0x81, 0x07]).unwrap();
    assert_eq!(v, 1);
    assert_eq!(rest, &[0x07]);
}

#[test]
fn load_unsigned_fails_without_a_last_group() {
    assert_eq!(load_unsigned(&[]).unwrap_err(), LoadError::Malformed);
    assert_eq!(load_unsigned(&[0x01, 0x02]).unwrap_err(), LoadError::Malformed);
}

#[test]
fn load_unsigned_fails_on_a_tenth_group() {
    let nine_then_last = [0, 0, 0, 0, 0, 0, 0, 0, 0, 0x80];
    assert_eq!(load_unsigned(&nine_then_last).unwrap_err(), LoadError::Malformed);
    let eight_then_last = [0, 0, 0, 0, 0, 0, 0, 0, 0x83];
    assert_eq!(load_unsigned(&eight_then_last).unwrap().1, 3);
}

#[test]
fn fixed_width_values_are_little_endian() {
    let mut w = Vec::new();
    0x1234_5678u32.ser(&mut w);
    assert_eq!(w, vec![0x78, 0x56, 0x34, 0x12]);
    let mut w = Vec::new();
    0x5678i64.ser(&mut w);
    assert_eq!(w, vec![0x78, 0x56, 0, 0, 0, 0, 0, 0]);
    let mut w = Vec::new();
    (-2i64).ser(&mut w);
    assert_eq!(w, vec![0xFE, 0xFF, 0xFF, 0xFF, 0xFF, 0xFF, 0xFF, 0xFF]);
    let mut w = Vec::new();
    0x4077_2800_0000_0000u64.ser(&mut w);
    assert_eq!(w, 370.5f64.to_le_bytes().to_vec());
    let mut w = Vec::new();
    (-1i8).ser(&mut w);
    200u8.ser(&mut w);
    assert_eq!(w, vec![0xFF, 200]);
}

#[test]
fn every_width_is_little_endian() {
    let mut w = Vec::new();
    0x1234u16.ser(&mut w);
    (-2i16).ser(&mut w);
    (-3i32).ser(&mut w);
    assert_eq!(w, vec![0x34, 0x12, 0xFE, 0xFF, 0xFD, 0xFF, 0xFF, 0xFF]);
    let mut w = Vec::new();
    0x0102_0304_0506_0708_090A_0B0C_0D0E_0F10u128.ser(&mut w);
    assert_eq!(w, 0x0102_0304_0506_0708_090A_0B0C_0D0E_0F10u128.to_le_bytes().to_vec());
    let mut w = Vec::new();
    i128::MIN.ser(&mut w);
    assert_eq!(w, i128::MIN.to_le_bytes().to_vec());
}

#[test]
fn every_width_is_read_back() {
    assert_eq!(u16::deser(&[0x34, 0x12, 9]).unwrap(), (&[9u8][..], 0x1234));
    assert_eq!(i16::deser(&[0xFE, 0xFF]).unwrap().1, -2);
    assert_eq!(i32::deser(&[0xFD, 0xFF, 0xFF, 0xFF]).unwrap().1, -3);
    let mut bytes = 0x0102_0304_0506_0708_090A_0B0C_0D0E_0F10u128.to_le_bytes().to_vec();
    bytes.push(7);
    assert_eq!(
        u128::deser(&bytes).unwrap(),
        (&[7u8][..], 0x0102_0304_0506_0708_090A_0B0C_0D0E_0F10)
    );
    assert_eq!(i128::deser(&i128::MIN.to_le_bytes()).unwrap().1, i128::MIN);
    assert_eq!(u16::deser(&[1]).unwrap_err(), LoadError::Malformed);
    assert_eq!(i16::deser(&[1]).unwrap_err(), LoadError::Malformed);
    assert_eq!(i32::deser(&[1, 2, 3]).unwrap_err(), LoadError::Malformed);
    assert_eq!(u128::deser(&[0; 15]).unwrap_err(), LoadError::Malformed);
    assert_eq!(i128::deser(&[0; 15]).unwrap_err(), LoadError::Malformed);
}

#[test]
fn push_le_writes_the_lowest_bytes() {
    let mut w = vec![1];
    push_le(&mut w, 0x0102_0304_0506_0708, 3);
    assert_eq!(w, vec![1, 0x08, 0x07, 0x06]);
    push_le(&mut w, 7, 0);
    assert_eq!(w.len(), 4);
}

#[test]
fn fixed_width_values_are_read_back() {
    let input = [0x78, 0x56, 0x34, 0x12, 0xEE];
    let (rest, v) = u32::deser(&input).unwrap();
    assert_eq!(v, 0x1234_5678);
    assert_eq!(rest, &[0xEE]);
    let input = [0xFE, 0xFF, 0xFF, 0xFF, 0xFF, 0xFF, 0xFF, 0xFF];
    assert_eq!(i64::deser(&input).unwrap().1, -2);
    assert_eq!(u64::deser(&input).unwrap().1, u64::MAX - 1);
    assert_eq!(i8::deser(&[0x80, 1]).unwrap(), (&[1u8][..], -128));
    assert_eq!(u8::deser(&[0x80, 1]).unwrap(), (&[1u8][..], 128));
}

#[test]
fn fixed_width_values_need_all_their_bytes() {
    assert_eq!(u8::deser(&[]).unwrap_err(), LoadError::Malformed);
    assert_eq!(i8::deser(&[]).unwrap_err(), LoadError::Malformed);
    assert_eq!(u32::deser(&[1, 2, 3]).unwrap_err(), LoadError::Malformed);
    assert_eq!(u64::deser(&[1, 2, 3, 4, 5, 6, 7]).unwrap_err(), LoadError::Malformed);
    assert_eq!(i64::deser(&[1, 2, 3, 4, 5, 6, 7]).unwrap_err(), LoadError::Malformed);
}

#[test]
fn opcode_of_a_tag() {
    assert_eq!(Opcode::from(0), Opcode::Move);
    assert_eq!(Opcode::from(56), Opcode::Jmp);
    assert_eq!(Opcode::from(71), Opcode::Return0);
    assert_eq!(Opcode::from(82), Opcode::ExtraArg);
    assert_eq!(Opcode::from(83), Opcode::Invalid);
    assert_eq!(Opcode::from(84), Opcode::Invalid);
    assert_eq!(Opcode::from(255), Opcode::Invalid);
}

#[test]
fn tag_of_an_opcode() {
    assert_eq!(u8::from(Opcode::Move), 0);
    assert_eq!(u8::from(Opcode::Closure), 79);
    assert_eq!(u8::from(Opcode::Invalid), 83);
    for tag in 0..=83u8 {
        assert_eq!(u8::from(Opcode::from(tag)), tag);
    }
}

#[test]
fn opcode_names_are_those_of_the_variants() {
    for tag in 0..=83u8 {
        let op = Opcode::from(tag);
        assert_eq!(op.name(), format!("{:?}", op));
    }
}

#[test]
fn instruction_fields() {
    let inst = Inst { inner: 0xFFFF_FFFF };
    assert_eq!(inst.opcode(), Opcode::Invalid);
    assert!(inst.k());
    assert_eq!(inst.ax(), 0x1FF_FFFF);
    assert_eq!(inst.bx(), 0x1_FFFF);
    assert_eq!(inst.sj(), SJ_BIAS + 1);

    let inst = Inst { inner: 56 };
    assert_eq!(inst.opcode(), Opcode::Jmp);
    assert!(!inst.k());
    assert_eq!(inst.ax(), 0);
    assert_eq!(inst.bx(), 0);
    assert_eq!(inst.sj(), -SJ_BIAS);

    let inst = Inst { inner: (5 << 15) | (1 << 7) | 3 };
    assert_eq!(inst.opcode(), Opcode::LoadK);
    assert!(inst.k());
    assert_eq!(inst.bx(), 5);
    assert_eq!(inst.ax(), (5 << 8) | 1);
    assert_eq!(inst.sj(), ((5 << 8) | 1) - SJ_BIAS);

    let inst = Inst { inner: (1 << 14) | 78 };
    assert_eq!(inst.opcode(), Opcode::SetList);
    assert!(!inst.k());
}

#[test]
fn instruction_of_an_opcode() {
    assert_eq!(Inst::from(Opcode::Return0).inner, 71);
    assert_eq!(Inst::default().inner, 83);
    assert_eq!(Inst::default().opcode(), Opcode::Invalid);
}

#[test]
fn constant_kinds() {
    assert!(Constant::try_from(0x00) == Some(Constant::Nil));
    assert!(Constant::try_from(0x01) == Some(Constant::False));
    assert!(Constant::try_from(0x11) == Some(Constant::True));
    assert!(Constant::try_from(0x03) == Some(Constant::Integer));
    assert!(Constant::try_from(0x13) == Some(Constant::Number));
    assert!(Constant::try_from(0x04) == Some(Constant::ShortString));
    assert!(Constant::try_from(0x14) == Some(Constant::LongString));
    assert!(Constant::try_from(0x02).is_none());
    assert!(Constant::try_from(0x05).is_none());
    assert!(Constant::try_from(0xFF).is_none());
    assert_eq!(u8::from(Constant::Number), 0x13);
    assert_eq!(u8::from(Constant::LongString), 0x14);
}
