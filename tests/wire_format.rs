use googapis::field::{decode_field, decode_fields, encode_fields, put_field, DecodeError, Field, WireValue};
use googapis::wire::{get_fixed32, get_fixed64, get_varint, put_fixed32, put_fixed64, put_varint};

fn varint(v: u64) -> Vec<u8> {
    let mut buf = Vec::new();
    put_varint(&mut buf, v);
    buf
}

#[test]
fn varint_small_values_take_one_byte() {
    assert_eq!(varint(0), vec![0x00]);
    assert_eq!(varint(1), vec![0x01]);
    assert_eq!(varint(127), vec![0x7f]);
}

#[test]
fn varint_multi_byte_values() {
    assert_eq!(varint(128), vec![0x80, 0x01]);
    assert_eq!(varint(300), vec![0xac, 0x02]);
    assert_eq!(varint(16384), vec![0x80, 0x80, 0x01]);
}

#[test]
fn varint_of_largest_value_takes_ten_bytes() {
    let b = varint(u64::MAX);
    assert_eq!(b, vec![0xff, 0xff, 0xff, 0xff, 0xff, 0xff, 0xff, 0xff, 0xff, 0x01]);
    assert_eq!(get_varint(&b, 0), Some((u64::MAX, 10)));
}

#[test]
fn varint_appends_to_existing_bytes() {
    let mut buf = vec![9u8];
    put_varint(&mut buf, 300);
    assert_eq!(buf, vec![9, 0xac, 0x02]);
}

#[test]
fn get_varint_reads_at_position() {
    let b = vec![0x05, 0xac, 0x02, 0x07];
    assert_eq!(get_varint(&b, 0), Some((5, 1)));
    assert_eq!(get_varint(&b, 1), Some((300, 3)));
    assert_eq!(get_varint(&b, 3), Some((7, 4)));
}

#[test]
fn get_varint_accepts_non_minimal_forms() {
    assert_eq!(get_varint(&[0x80, 0x00], 0), Some((0, 2)));
    assert_eq!(get_varint(&[0x81, 0x80, 0x00], 0), Some((1, 3)));
}

#[test]
fn get_varint_rejects_truncated_and_overlong_input() {
    assert_eq!(get_varint(&[], 0), None);
    assert_eq!(get_varint(&[0x80], 0), None);
    assert_eq!(get_varint(&[0x80, 0x80], 0), None);
    assert_eq!(get_varint(&[0xff; 11], 0), None);
    let too_big = vec![0xff, 0xff, 0xff, 0xff, 0xff, 0xff, 0xff, 0xff, 0xff, 0x02];
    assert_eq!(get_varint(&too_big, 0), None);
}

#[test]
fn fixed_width_values_are_little_endian() {
    let mut b = Vec::new();
    put_fixed32(&mut b, 0x3f00_0001);
    assert_eq!(b, vec![0x01, 0x00, 0x00, 0x3f]);
    assert_eq!(get_fixed32(&b, 0), 0x3f00_0001);
    let mut c = vec![0xaa];
    put_fixed64(&mut c, 0x0102_0304_0506_0708);
    assert_eq!(c, vec![0xaa, 0x08, 0x07, 0x06, 0x05, 0x04, 0x03, 0x02, 0x01]);
    assert_eq!(get_fixed64(&c, 1), 0x0102_0304_0506_0708);
}

#[test]
fn each_wire_type_is_written_after_its_key() {
    let mut b = Vec::new();
    put_field(&mut b, &Field { number: 1, value: WireValue::Varint(150) });
    assert_eq!(b, vec![0x08, 0x96, 0x01]);
    let mut b = Vec::new();
    put_field(&mut b, &Field { number: 2, value: WireValue::Bytes(b"testing".to_vec()) });
    assert_eq!(b, vec![0x12, 0x07, b't', b'e', b's', b't', b'i', b'n', b'g']);
    let mut b = Vec::new();
    put_field(&mut b, &Field { number: 3, value: WireValue::Fixed32(1) });
    assert_eq!(b, vec![0x1d, 0x01, 0x00, 0x00, 0x00]);
    let mut b = Vec::new();
    put_field(&mut b, &Field { number: 16, value: WireValue::Fixed64(2) });
    assert_eq!(b, vec![0x81, 0x01, 0x02, 0, 0, 0, 0, 0, 0, 0]);
}

#[test]
fn fields_round_trip_through_bytes() {
    let fs = vec![
        Field { number: 1, value: WireValue::Varint(0) },
        Field { number: 7, value: WireValue::Bytes(vec![]) },
        Field { number: 536870911, value: WireValue::Fixed32(0xdead_beef) },
        Field { number: 2, value: WireValue::Fixed64(u64::MAX) },
        Field { number: 1, value: WireValue::Varint(u64::MAX) },
    ];
    let b = encode_fields(&fs);
    assert_eq!(decode_fields(&b), Ok(fs));
}

#[test]
fn empty_input_holds_no_fields() {
    assert_eq!(decode_fields(&[]), Ok(vec![]));
    assert_eq!(encode_fields(&vec![]), Vec::<u8>::new());
}

#[test]
fn decode_field_reports_next_position() {
    let b = vec![0x08, 0x96, 0x01, 0x12, 0x01, 0x41];
    assert_eq!(decode_field(&b, 0), Ok((Field { number: 1, value: WireValue::Varint(150) }, 3)));
    assert_eq!(decode_field(&b, 3), Ok((Field { number: 2, value: WireValue::Bytes(vec![0x41]) }, 6)));
}

#[test]
fn malformed_fields_are_refused() {
    // field number zero
    assert_eq!(decode_fields(&[0x00, 0x01]), Err(DecodeError));
    // group wire types and unknown wire types
    assert_eq!(decode_fields(&[0x0b]), Err(DecodeError));
    assert_eq!(decode_fields(&[0x0c]), Err(DecodeError));
    assert_eq!(decode_fields(&[0x0e, 0x01]), Err(DecodeError));
    // payloads cut short
    assert_eq!(decode_fields(&[0x0a, 0x05, 0x61]), Err(DecodeError));
    assert_eq!(decode_fields(&[0x0d, 0x01, 0x02]), Err(DecodeError));
    assert_eq!(decode_fields(&[0x09, 0x01]), Err(DecodeError));
    assert_eq!(decode_fields(&[0x08]), Err(DecodeError));
    // a key above 32 bits
    assert_eq!(decode_fields(&[0x80, 0x80, 0x80, 0x80, 0x10, 0x00]), Err(DecodeError));
}
