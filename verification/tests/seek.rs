use overlay_read::utils::{SeekError, SeekFrom};

#[test]
fn seek_from_start() {
    assert_eq!(SeekFrom::Start(5).eval(100, 10), Ok(5));
    assert_eq!(SeekFrom::Start(0).eval(3, 4), Ok(0));
}

#[test]
fn seek_from_end() {
    assert_eq!(SeekFrom::End(0).eval(0, 10), Ok(10));
    assert_eq!(SeekFrom::End(3).eval(0, 10), Ok(13));
    assert_eq!(SeekFrom::End(-3).eval(0, 10), Ok(7));
    assert_eq!(SeekFrom::End(-10).eval(0, 10), Ok(0));
}

#[test]
fn seek_from_end_underflow() {
    assert_eq!(SeekFrom::End(-11).eval(0, 10), Err(SeekError::InputUnderflow));
}

#[test]
fn seek_from_current() {
    assert_eq!(SeekFrom::Current(5).eval(3, 10), Ok(8));
    assert_eq!(SeekFrom::Current(-3).eval(3, 10), Ok(0));
    assert_eq!(SeekFrom::Current(0).eval(7, 10), Ok(7));
}

#[test]
fn seek_from_current_underflow() {
    assert_eq!(SeekFrom::Current(-1).eval(0, 10), Err(SeekError::InputUnderflow));
}
