use polars_row::buffer::Buffer;
use polars_row::data::{ArrayData, PrimitiveArray, PrimitiveType};

fn flags(bits: &[bool]) -> Option<Buffer<'static, bool>> {
    Some(Buffer::from_vec(bits.to_vec()))
}

fn flags_of(bitmap: &Option<Buffer<'static, bool>>) -> Option<Vec<bool>> {
    bitmap.as_ref().map(|b| b.as_slice().to_vec())
}

#[test]
fn to_data_describes_the_column() {
    let column = PrimitiveArray {
        dtype: PrimitiveType::Int32,
        values: Buffer::from_vec(vec![1i32, -2, 3]),
        validity: flags(&[true, false, true]),
    };
    let data = column.to_data();
    assert_eq!(data.data_type, PrimitiveType::Int32);
    assert_eq!(data.len, 3);
    assert_eq!(data.offset, 0);
    assert_eq!(data.buffers.len(), 1);
    assert_eq!(data.buffers[0].as_slice(), &[1i32, -2, 3]);
    assert_eq!(flags_of(&data.nulls), Some(vec![true, false, true]));
    assert_eq!(column.values.as_slice(), &[1i32, -2, 3]);
}

#[test]
fn to_data_of_a_window_starts_at_zero() {
    let mut values = Buffer::from_vec(vec![1u16, 2, 3, 4, 5]);
    values.slice(1, 3);
    let column = PrimitiveArray { dtype: PrimitiveType::UInt16, values, validity: None };
    let data = column.to_data();
    assert_eq!(data.len, 3);
    assert_eq!(data.offset, 0);
    assert_eq!(data.buffers[0].as_slice(), &[2u16, 3, 4]);
    assert!(data.nulls.is_none());
    let back = PrimitiveArray::from_data(&data);
    assert_eq!(back.values.as_slice(), &[2u16, 3, 4]);
    assert!(back.validity.is_none());
}

#[test]
fn from_data_applies_offset_and_len() {
    let data = ArrayData {
        data_type: PrimitiveType::UInt64,
        len: 3,
        offset: 2,
        buffers: vec![Buffer::from_vec(vec![10u64, 20, 30, 40, 50, 60])],
        nulls: flags(&[true, true, false]),
    };
    let column = PrimitiveArray::from_data(&data);
    assert_eq!(column.dtype, PrimitiveType::UInt64);
    assert_eq!(column.values.as_slice(), &[30u64, 40, 50]);
    assert_eq!(flags_of(&column.validity), Some(vec![true, true, false]));
    assert_eq!(data.buffers[0].as_slice(), &[10u64, 20, 30, 40, 50, 60]);
}

#[test]
fn from_data_without_nulls_has_no_validity() {
    let data = ArrayData {
        data_type: PrimitiveType::Int8,
        len: 0,
        offset: 4,
        buffers: vec![Buffer::from_vec(vec![1i8, 2, 3, 4])],
        nulls: None,
    };
    let column = PrimitiveArray::from_data(&data);
    assert!(column.values.as_slice().is_empty());
    assert!(column.validity.is_none());
}

#[test]
fn round_trip_keeps_values_and_validity() {
    let column = PrimitiveArray {
        dtype: PrimitiveType::Float64,
        values: Buffer::from_vec(vec![1.5f64, -0.25, 8.0, 0.0]),
        validity: flags(&[false, true, true, false]),
    };
    let back = PrimitiveArray::from_data(&column.to_data());
    assert_eq!(back.dtype, column.dtype);
    assert_eq!(back.values.as_slice(), &[1.5f64, -0.25, 8.0, 0.0]);
    assert_eq!(flags_of(&back.validity), Some(vec![false, true, true, false]));
}

#[test]
fn round_trip_of_a_window() {
    let data = ArrayData {
        data_type: PrimitiveType::Int16,
        len: 2,
        offset: 1,
        buffers: vec![Buffer::from_vec(vec![7i16, 8, 9, 10])],
        nulls: None,
    };
    let column = PrimitiveArray::from_data(&data);
    let again = column.to_data();
    assert_eq!(again.offset, 0);
    assert_eq!(again.len, 2);
    assert_eq!(again.buffers[0].as_slice(), &[8i16, 9]);
    assert!(again.nulls.is_none());
    let back = PrimitiveArray::from_data(&again);
    assert_eq!(back.values.as_slice(), &[8i16, 9]);
    assert!(back.validity.is_none());
}

fn window(len: usize, offset: usize, nulls: Option<Buffer<'static, bool>>) -> ArrayData<'static, i32> {
    ArrayData {
        data_type: PrimitiveType::Int32,
        len,
        offset,
        buffers: vec![Buffer::from_vec(vec![1i32, 2, 3])],
        nulls,
    }
}

#[test]
fn is_valid_checks_the_window() {
    assert!(window(2, 1, flags(&[true, false])).is_valid());
    assert!(window(3, 0, None).is_valid());
    assert!(window(0, 3, None).is_valid());
    assert!(!window(3, 1, None).is_valid());
    assert!(!window(1, usize::MAX, None).is_valid());
    assert!(!window(2, 1, flags(&[true])).is_valid());
    let mut no_buffer = window(0, 0, None);
    no_buffer.buffers.clear();
    assert!(!no_buffer.is_valid());
    let mut two_buffers = window(2, 1, None);
    two_buffers.buffers.push(Buffer::from_vec(vec![4i32]));
    assert!(!two_buffers.is_valid());
}

#[test]
fn column_is_valid_when_flags_match_values() {
    let mut column = PrimitiveArray {
        dtype: PrimitiveType::UInt8,
        values: Buffer::from_vec(vec![1u8, 2]),
        validity: flags(&[true, true]),
    };
    assert!(column.is_valid());
    column.validity = flags(&[true]);
    assert!(!column.is_valid());
    column.validity = None;
    assert!(column.is_valid());
}
