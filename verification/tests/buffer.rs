use polars_row::buffer::Buffer;

#[test]
fn from_vec_holds_all_elements() {
    let buffer = Buffer::from_vec(vec![1u32, 2, 3]);
    assert_eq!(buffer.len(), 3);
    assert_eq!(buffer.as_slice(), &[1u32, 2, 3]);
}

#[test]
fn from_slice_borrows_the_elements() {
    let values = [4i64, 5, 6, 7];
    let buffer = Buffer::from_slice(&values);
    assert_eq!(buffer.len(), 4);
    assert_eq!(buffer.as_slice(), &values);
    assert_eq!(buffer.as_slice().as_ptr(), values.as_ptr());
}

#[test]
fn slice_narrows_the_window() {
    let mut buffer = Buffer::from_vec(vec![0u8, 1, 2, 3, 4, 5, 6, 7]);
    buffer.slice(2, 5);
    assert_eq!(buffer.as_slice(), &[2u8, 3, 4, 5, 6]);
    buffer.slice(1, 2);
    assert_eq!(buffer.as_slice(), &[3u8, 4]);
    assert_eq!(buffer.len(), 2);
    buffer.slice(2, 0);
    assert!(buffer.as_slice().is_empty());
    assert_eq!(buffer.len(), 0);
}

#[test]
fn share_copies_no_element() {
    let mut buffer = Buffer::from_vec(vec![9u64, 8, 7]);
    buffer.slice(1, 2);
    let other = buffer.share();
    assert_eq!(other.as_slice(), &[8u64, 7]);
    assert_eq!(other.as_slice().as_ptr(), buffer.as_slice().as_ptr());
    let mut third = other.share();
    third.slice(1, 1);
    assert_eq!(third.as_slice(), &[7u64]);
    assert_eq!(other.as_slice(), &[8u64, 7]);
    assert_eq!(buffer.as_slice(), &[8u64, 7]);
}

#[test]
fn empty_buffer_has_no_elements() {
    let buffer: Buffer<'static, u8> = Buffer::from_vec(Vec::new());
    assert_eq!(buffer.len(), 0);
    assert!(buffer.as_slice().is_empty());
    assert!(buffer.share().as_slice().is_empty());
}

#[test]
fn clone_shares_the_storage() {
    let mut buffer = Buffer::from_vec(vec![1i16, 2, 3, 4]);
    buffer.slice(1, 2);
    let twin = buffer.clone();
    assert_eq!(twin.as_slice(), &[2i16, 3]);
    assert_eq!(twin.as_slice().as_ptr(), buffer.as_slice().as_ptr());
}
