use overlay_read::buf;
use overlay_read::limit::Limit;
use overlay_read::overlay_list::OverlayList;
use overlay_read::overlay_once::OverlayOnce;
use overlay_read::reader::{read_to_hole0, AsyncDataRead};
use overlay_read::shift::{ShiftLeft, ShiftRight};

#[test]
fn overlay_once_basic() {
    let source = OverlayOnce::new(0, vec![1, 2, 3, 4, 5, 6, 7, 8, 9, 10]);
    let mut buf = buf::new::<5, i32>();
    let next = source.read_single_pass(1, &mut buf).expect("Read failed!");

    assert_eq!(next, Some(6));
    assert_eq!(buf.filled(), &mut [2, 3, 4, 5, 6])
}

#[test]
fn no_head() {
    let source = OverlayOnce::new(5, vec![1, 2, 3, 4, 5, 6, 7, 8, 9, 10]);
    let mut buf = buf::new::<10, i32>();
    let next = source.read_single_pass(0, &mut buf).expect("Read failed!");

    assert_eq!(next, Some(5));
    assert_eq!(buf.filled(), &mut [])
}

#[test]
fn right_oob() {
    let source = OverlayOnce::new(0, vec![1, 2, 3, 4, 5, 6, 7, 8, 9, 10]);
    let mut buf = buf::new::<10, i32>();
    let next = source.read_single_pass(69, &mut buf).expect("Read failed!");

    assert_eq!(next, None);
    assert_eq!(buf.filled(), &mut [])
}

#[test]
fn right_oob_partial() {
    let source = OverlayOnce::new(0, vec![1, 2, 3, 4, 5, 6, 7, 8, 9, 10]);
    let mut buf = buf::new::<10, i32>();
    let next = source.read_single_pass(0, &mut buf).expect("Read failed!");

    assert_eq!(next, None);
    assert_eq!(buf.filled(), &mut [1, 2, 3, 4, 5, 6, 7, 8, 9, 10])
}

#[test]
fn left_basic() {
    let source = OverlayOnce::new(0, vec![1, 2, 3, 4, 5, 6, 7, 8, 9, 10]);
    let ss = ShiftLeft::new(source, 1);
    let mut buf = buf::new::<3, i32>();
    let next = ss.read_single_pass(0, &mut buf).expect("Read failed!");

    assert_eq!(next, Some(3));
    assert_eq!(buf.filled(), &[2, 3, 4]);
}

#[test]
fn left_oob_left() {
    let source = OverlayOnce::new(10, vec![1, 2, 3, 4, 5, 6, 7, 8, 9, 10]);
    let ss = ShiftLeft::new(source, 1);
    let mut buf = buf::new::<10, i32>();
    let next = ss.read_single_pass(0, &mut buf).expect("Read failed!");

    assert_eq!(next, Some(9));
    assert_eq!(buf.filled(), &[]);
}

#[test]
fn right_basic() {
    let source = OverlayOnce::new(0, vec![1, 2, 3, 4, 5, 6, 7, 8, 9, 10]);
    let ss = ShiftRight::new(source, 1);
    let mut buf = buf::new::<3, i32>();
    let next = ss.read_single_pass(0, &mut buf).expect("Read failed!");

    assert_eq!(next, Some(1));
    assert_eq!(buf.filled(), &[]);
}

#[test]
fn limit_basic() {
    let source = OverlayOnce::new(0, vec![1, 2, 3, 4, 5, 6, 7, 8, 9, 10]);
    let ss = Limit::new(source, 3);
    let mut buf = buf::new::<10, i32>();
    let next = ss.read_single_pass(0, &mut buf).expect("Read failed!");

    assert_eq!(next, None);
    assert_eq!(buf.filled(), &[1, 2, 3]);
}

#[test]
fn overlay_basic() {
    let source = OverlayOnce::new(0, vec![1, 2, 3, 4, 5, 6, 7, 8, 9, 10]).overlay_once(
        5,
        vec![100, 100],
    );
    let mut buf = buf::new::<10, i32>();
    let next = source.read_single_pass(1, &mut buf).expect("Read failed!");

    assert_eq!(next, Some(5));
    assert_eq!(buf.filled(), &mut [2, 3, 4, 5]);
}

#[test]
fn overlay_priority_full_range() {
    let source = OverlayOnce::new(0, vec![1, 2, 3, 4, 5, 6, 7, 8, 9, 10]).overlay(
        OverlayOnce::new(5, vec![100, 100]),
    );
    let mut buf = buf::new::<10, i32>();
    let next = read_to_hole0(&source, &mut buf, 0).expect("Read failed!");

    assert_eq!(next, None);
    assert_eq!(buf.filled(), &[1, 2, 3, 4, 5, 100, 100, 8, 9, 10]);
}

#[test]
fn overlay_list_single_pass() {
    let first = OverlayOnce::new(0, vec![1, 2, 3]);
    let mid = OverlayOnce::new(3, vec![4, 5, 6]);
    let last = OverlayOnce::new(6, vec![7, 8, 9]);
    let ol = OverlayList::new(vec![first, mid, last]);

    let mut bf = buf::new::<10, i32>();
    let next = ol.read_single_pass(0, &mut bf).expect("Read failed!");
    assert_eq!(next, Some(3));
    assert_eq!(bf.filled(), &[1, 2, 3]);
}

#[test]
fn overlay_list_read_all_overlap() {
    let first = OverlayOnce::new(0, vec![1, 2, 3, 4]);
    let mid = OverlayOnce::new(3, vec![4, 5, 6, 7]);
    let last = OverlayOnce::new(6, vec![7, 8, 9, 10]);
    let mut ol = OverlayList::new(Vec::new());
    ol.push(first);
    ol.push(mid);
    ol.push(last);

    let mut bf = buf::new::<10, i32>();
    let next = read_to_hole0(&ol, &mut bf, 0).expect("Read failed!");
    assert_eq!(next, None);
    assert_eq!(bf.filled(), &[1, 2, 3, 4, 5, 6, 7, 8, 9, 10]);
}

#[test]
fn overlay_list_empty_is_exhausted() {
    let ol: OverlayList<OverlayOnce<i32>> = OverlayList::new(Vec::new());
    let mut bf = buf::new::<4, i32>();
    let next = ol.read_single_pass(0, &mut bf).expect("Read failed!");
    assert_eq!(next, None);
    assert_eq!(bf.filled(), &[]);
}

#[test]
fn overlay_list_later_wins() {
    let early = OverlayOnce::new(0, vec![1, 1, 1]);
    let late = OverlayOnce::new(1, vec![9]);
    let ol = OverlayList::new(vec![early, late]);

    let mut bf = buf::new::<3, i32>();
    let next = read_to_hole0(&ol, &mut bf, 0).expect("Read failed!");
    assert_eq!(next, None);
    assert_eq!(bf.filled(), &[1, 9, 1]);
}

#[test]
fn shift_round_trip_matches_source() {
    let data = vec![1, 2, 3];
    let source = OverlayOnce::new(5, data.clone());
    let composed = ShiftRight::new(ShiftLeft::new(OverlayOnce::new(5, data), 2), 2);

    let mut direct = buf::new::<10, i32>();
    let next_direct = source.read_single_pass(5, &mut direct).expect("Read failed!");

    let mut via = buf::new::<10, i32>();
    let next_via = composed.read_single_pass(5, &mut via).expect("Read failed!");

    assert_eq!(next_via, next_direct);
    assert_eq!(via.filled(), direct.filled());
    assert_eq!(via.filled(), &[1, 2, 3]);
}

#[test]
fn slice_reads_subrange() {
    let source = OverlayOnce::new(0, vec![10, 20, 30, 40, 50]);
    let sliced = source.slice(1, 4);
    let mut buf = buf::new::<3, i32>();
    let next = sliced.read_single_pass(0, &mut buf).expect("Read failed!");

    assert_eq!(next, None);
    assert_eq!(buf.filled(), &[20, 30, 40]);
}

#[test]
fn full_buffer_makes_no_progress() {
    let source = OverlayOnce::new(0, vec![1, 2]);
    let mut buf = buf::new::<0, i32>();
    let next = source.read_single_pass(0, &mut buf).expect("Read failed!");

    assert_eq!(next, Some(0));
    assert_eq!(buf.filled(), &[]);
}

#[test]
fn read_to_hole_stops_at_hole() {
    let source = OverlayOnce::new(2, vec![8, 9]);
    let mut buf = buf::new::<10, i32>();
    let next = read_to_hole0(&source, &mut buf, 0).expect("Read failed!");

    assert_eq!(next, Some(2));
    assert_eq!(buf.filled(), &[]);
}
