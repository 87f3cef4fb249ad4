use blockundo::cursor::Cursor;
use blockundo::error::DecodeError;

#[test]
fn new_cursor_is_at_the_start() {
    let bytes = [1u8, 2, 3];
    let d = Cursor::new(&bytes);
    assert_eq!(d.position(), 0);
    assert_eq!(d.remaining(), 3);
}

#[test]
fn bytes_are_read_in_order() {
    let bytes = [10u8, 20, 30];
    let mut d = Cursor::new(&bytes);
    assert_eq!(d.read_u8(), Ok(10));
    assert_eq!(d.read_u8(), Ok(20));
    assert_eq!(d.position(), 2);
    assert_eq!(d.remaining(), 1);
    assert_eq!(d.read_u8(), Ok(30));
    assert_eq!(d.read_u8(), Err(DecodeError::TruncatedInput));
    assert_eq!(d.position(), 3);
    assert_eq!(d.remaining(), 0);
}

#[test]
fn fixed_size_reads_return_the_bytes() {
    let bytes = [1u8, 2, 3, 4, 5];
    let mut d = Cursor::new(&bytes);
    assert_eq!(d.read_bytes(2), Ok(vec![1, 2]));
    assert_eq!(d.read_bytes(0), Ok(vec![]));
    assert_eq!(d.read_bytes(3), Ok(vec![3, 4, 5]));
    assert_eq!(d.read_bytes(0), Ok(vec![]));
    assert_eq!(d.position(), 5);
}

#[test]
fn fixed_size_read_past_the_end_reads_nothing() {
    let bytes = [1u8, 2, 3];
    let mut d = Cursor::new(&bytes);
    assert_eq!(d.read_u8(), Ok(1));
    assert_eq!(d.read_bytes(3), Err(DecodeError::TruncatedInput));
    assert_eq!(d.read_bytes(usize::MAX), Err(DecodeError::TruncatedInput));
    assert_eq!(d.position(), 1);
    assert_eq!(d.read_bytes(2), Ok(vec![2, 3]));
}

#[test]
fn a_read_succeeds_exactly_when_enough_bytes_are_left() {
    let bytes = [1u8, 2, 3, 4];
    for start in 0..=bytes.len() {
        for len in 0..=6usize {
            let mut d = Cursor::new(&bytes);
            assert!(d.read_bytes(start).is_ok());
            let left = d.remaining();
            assert_eq!(left, bytes.len() - start);
            assert_eq!(d.read_bytes(len).is_ok(), len <= left);
            assert!(d.position() <= bytes.len());
        }
    }
}
