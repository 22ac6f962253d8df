use fsuipc::raw::{MutRawBytes, RawBytes};

#[test]
fn should_read_from_rawbytes() {
    let src = vec![1u8, 2, 3, 4];
    let mut dest = vec![0u8, 0, 0, 0];
    let mut raw = RawBytes::new(src);
    assert_eq!(raw.read(&mut dest).unwrap(), 4);
    assert_eq!(dest[0], 1);
    assert_eq!(dest[1], 2);
    assert_eq!(dest[2], 3);
    assert_eq!(dest[3], 4);
}

#[test]
fn should_read_from_rawbytes_with_underflow() {
    let src = vec![1u8, 2, 3, 4];
    let mut dest = vec![0u8, 0];
    let mut raw = RawBytes::new(src);
    assert_eq!(raw.read(&mut dest).unwrap(), 2);
    assert_eq!(dest[0], 1);
    assert_eq!(dest[1], 2);
}

#[test]
fn should_read_from_rawbytes_with_overflow() {
    let src = vec![1u8, 2, 3, 4];
    let mut dest = vec![0u8, 0, 0, 0, 0, 0];
    let mut raw = RawBytes::new(src);
    assert_eq!(raw.read(&mut dest).unwrap(), 4);
    assert_eq!(dest[0], 1);
    assert_eq!(dest[1], 2);
    assert_eq!(dest[2], 3);
    assert_eq!(dest[3], 4);
    assert_eq!(dest[4], 0);
    assert_eq!(dest[5], 0);
}

#[test]
fn should_count_consumed_for_mutrawbytes() {
    let src = vec![1u8, 2, 3, 4];
    let mut dest = vec![0u8, 0];
    let mut raw = RawBytes::new(src);
    raw.read(&mut dest).unwrap();
    assert_eq!(raw.consumed(), 2);
    raw.read(&mut dest).unwrap();
    assert_eq!(raw.consumed(), 4);
}

#[test]
fn should_write_to_mutrawbytes() {
    let src = [1u8, 2, 3, 4];
    let mut raw = MutRawBytes::new(vec![0u8, 0, 0, 0]);
    assert_eq!(raw.write(&src).unwrap(), 4);
    let dest = raw.into_inner();
    assert_eq!(dest[0], 1);
    assert_eq!(dest[1], 2);
    assert_eq!(dest[2], 3);
    assert_eq!(dest[3], 4);
}

#[test]
fn should_write_to_mutrawbytes_with_underflow() {
    let src = [1u8, 2, 3, 4];
    let mut raw = MutRawBytes::new(vec![0u8, 0, 0, 0, 0, 0]);
    assert_eq!(raw.write(&src).unwrap(), 4);
    let dest = raw.into_inner();
    assert_eq!(dest[0], 1);
    assert_eq!(dest[1], 2);
    assert_eq!(dest[2], 3);
    assert_eq!(dest[3], 4);
    assert_eq!(dest[4], 0);
    assert_eq!(dest[5], 0);
}

#[test]
fn should_write_to_mutrawbytes_with_overflow() {
    let src = [1u8, 2, 3, 4];
    let mut raw = MutRawBytes::new(vec![0u8, 0]);
    assert_eq!(raw.write(&src).unwrap(), 2);
    let dest = raw.into_inner();
    assert_eq!(dest[0], 1);
    assert_eq!(dest[1], 2);
}

#[test]
fn flush_changes_nothing() {
    let mut raw = MutRawBytes::new(vec![7u8, 8]);
    assert!(raw.flush().is_ok());
    let dest = raw.into_inner();
    assert_eq!(dest, vec![7u8, 8]);
}
