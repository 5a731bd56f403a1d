use overlay_read::buf;

#[test]
fn fill() {
    let mut buf = buf::new::<10, i32>();
    buf.put_slice(&[1, 2, 3, 4, 5]);
    buf.put_slice_guard(&[6, 7, 8, 9, 10, 11]);
    assert_eq!(buf.filled(), &[1, 2, 3, 4, 5, 6, 7, 8, 9, 10]);
    assert_eq!(buf.filled_mut(), &mut [1, 2, 3, 4, 5, 6, 7, 8, 9, 10]);
}

#[test]
fn default_impl_take() {
    let mut buf = buf::new::<10, i32>();
    buf.put_slice(&[1, 2, 3, 4, 5]);
    let slice = buf.take(4);
    slice.put_slice(&mut buf, &[6]);
    assert_eq!(buf.filled(), &[1, 2, 3, 4, 5, 6]);
}

#[test]
fn slice_take() {
    let mut buf = buf::new::<10, i32>();
    buf.put_slice(&[1, 2, 3, 4, 5]);
    let slice = buf.take(4);
    slice.put_slice(&mut buf, &[6]);
    assert_eq!(slice.filled(&buf), &[6]);
    assert_eq!(slice.filled_mut(&mut buf), &mut [6]);

    assert_eq!(buf.filled(), &[1, 2, 3, 4, 5, 6]);
}

#[test]
fn guard_writes_exactly_min() {
    let mut buf = buf::new_boxed::<u8>(3);
    let written = buf.put_slice_guard(&[7, 8, 9, 10, 11]);
    assert_eq!(written, 3);
    assert_eq!(buf.filled(), &[7, 8, 9]);

    let mut buf2 = buf::new_boxed::<u8>(8);
    let written2 = buf2.put_slice_guard(&[1, 2]);
    assert_eq!(written2, 2);
    assert_eq!(buf2.filled(), &[1, 2]);

    let written3 = buf2.put_slice_guard(&[]);
    assert_eq!(written3, 0);
    assert_eq!(buf2.filled(), &[1, 2]);
}

#[test]
fn guard_on_window_respects_window() {
    let mut buf = buf::new::<10, i32>();
    buf.put_slice(&[1, 2]);
    let win = buf.take(3);
    let written = win.put_slice_guard(&mut buf, &[5, 6, 7, 8]);
    assert_eq!(written, 3);
    assert_eq!(buf.filled(), &[1, 2, 5, 6, 7]);
}

#[test]
fn shrink_gives_back() {
    let mut buf = buf::new::<10, i32>();
    buf.put_slice(&[1, 2, 3, 4]);
    buf.shrink(2);
    assert_eq!(buf.filled(), &[1, 2]);
    buf.put_slice(&[9]);
    assert_eq!(buf.filled(), &[1, 2, 9]);
}

#[test]
fn filled_mut_writes_through() {
    let mut buf = buf::new::<4, i32>();
    buf.put_slice(&[1, 2, 3]);
    buf.filled_mut()[1] = 42;
    assert_eq!(buf.filled(), &[1, 42, 3]);
}

#[test]
fn window_filled_mut_writes_through() {
    let mut buf = buf::new::<6, i32>();
    buf.put_slice(&[1, 2]);
    let win = buf.take(3);
    win.put_slice(&mut buf, &[7, 8]);
    win.filled_mut(&mut buf)[0] = 70;
    assert_eq!(win.filled(&buf), &[70, 8]);
    assert_eq!(buf.filled(), &[1, 2, 70, 8]);
}

#[test]
fn window_shrink_gives_back() {
    let mut buf = buf::new::<8, i32>();
    buf.put_slice(&[1, 2]);
    let win = buf.take(4);
    win.put_slice(&mut buf, &[3, 4, 5]);
    win.shrink(&mut buf, 2);
    assert_eq!(win.filled(&buf), &[3]);
    assert_eq!(buf.filled(), &[1, 2, 3]);
}

#[test]
fn capacity_is_fixed() {
    let mut buf = buf::new_boxed::<i32>(5);
    assert_eq!(buf.capacity(), 5);
    buf.put_slice(&[1]);
    assert_eq!(buf.capacity(), 5);
}

#[test]
fn watermarks_stay_ordered() {
    let mut buf = buf::new::<6, i32>();
    assert!(buf.filled().len() <= buf.capacity());
    buf.put_slice(&[1, 2, 3, 4]);
    assert!(buf.filled().len() <= buf.capacity());
    buf.shrink(3);
    let win = buf.take(5);
    win.put_slice(&mut buf, &[8, 9]);
    assert!(buf.filled().len() <= buf.capacity());
    assert_eq!(buf.filled(), &[1, 8, 9]);
    buf.put_slice_guard(&[5, 6, 7, 8]);
    assert_eq!(buf.filled(), &[1, 8, 9, 5, 6, 7]);
    assert!(buf.filled().len() <= buf.capacity());
}
