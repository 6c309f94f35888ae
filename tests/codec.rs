use firmware_setup::codec::{order_by_buffer, serialize};
use firmware_setup::element::ElementOption;
use firmware_setup::value::{encode, Value};

fn opts(values: &[Value]) -> Vec<ElementOption> {
    values
        .iter()
        .enumerate()
        .map(|(i, v)| ElementOption { value: *v, prompt: format!("option {}", i) })
        .collect()
}

fn values(o: &[ElementOption]) -> Vec<Value> {
    o.iter().map(|x| x.value).collect()
}

#[test]
fn encodes_little_endian_native_width() {
    assert_eq!(encode(Value::U8(0xab)), vec![0xab]);
    assert_eq!(encode(Value::U16(0x0201)), vec![0x01, 0x02]);
    assert_eq!(encode(Value::U32(0x0403_0201)), vec![1, 2, 3, 4]);
    assert_eq!(encode(Value::U64(0x0807_0605_0403_0201)), vec![1, 2, 3, 4, 5, 6, 7, 8]);
    assert_eq!(encode(Value::Bool(true)), Vec::<u8>::new());
    assert_eq!(encode(Value::Other(3, 0, 0)), Vec::<u8>::new());
}

#[test]
fn serialize_pads_with_zeros() {
    let o = opts(&[Value::U16(0x0103), Value::U16(0x0201)]);
    assert_eq!(serialize(&o, 6), vec![0x03, 0x01, 0x01, 0x02, 0, 0]);
}

#[test]
fn serialize_stops_at_first_value_that_does_not_fit() {
    let o = opts(&[Value::U16(0x0103), Value::U16(0x0201), Value::U16(0x0302)]);
    assert_eq!(serialize(&o, 5), vec![0x03, 0x01, 0x01, 0x02, 0]);
    assert_eq!(serialize(&o, 0), Vec::<u8>::new());
}

#[test]
fn order_follows_buffer() {
    let mut o = opts(&[Value::U8(1), Value::U8(2), Value::U8(3)]);
    order_by_buffer(&mut o, &vec![3, 1, 2, 0]);
    assert_eq!(values(&o), vec![Value::U8(3), Value::U8(1), Value::U8(2)]);
    assert_eq!(o[0].prompt, "option 2");
}

#[test]
fn order_keeps_unmatched_options_in_place() {
    let mut o = opts(&[Value::U8(1), Value::U8(2), Value::U8(3)]);
    order_by_buffer(&mut o, &vec![9, 3, 0]);
    assert_eq!(values(&o), vec![Value::U8(1), Value::U8(2), Value::U8(3)]);

    let mut o = opts(&[Value::U8(1), Value::U8(2), Value::U8(3)]);
    order_by_buffer(&mut o, &vec![2, 9]);
    assert_eq!(values(&o), vec![Value::U8(2), Value::U8(1), Value::U8(3)]);
}

#[test]
fn order_with_empty_buffer_is_unchanged() {
    let mut o = opts(&[Value::U16(5), Value::U16(6)]);
    order_by_buffer(&mut o, &vec![]);
    assert_eq!(values(&o), vec![Value::U16(5), Value::U16(6)]);
}

#[test]
fn serialize_then_order_round_trips() {
    let chosen = opts(&[Value::U32(30), Value::U32(10), Value::U32(20)]);
    let buf = serialize(&chosen, 16);
    assert_eq!(buf.len(), 16);
    let mut o = opts(&[Value::U32(10), Value::U32(20), Value::U32(30)]);
    order_by_buffer(&mut o, &buf);
    assert_eq!(values(&o), values(&chosen));
}
