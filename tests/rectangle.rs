use rect_arena::{coalesce_all, Error, Rectangle};

fn rect(x: u32, y: u32, width: u32, height: u32) -> Rectangle {
    Rectangle { x, y, width, height }
}

#[test]
fn far_edges() {
    let r = rect(2, 3, 4, 5);
    assert_eq!(r.end_x(), 6);
    assert_eq!(r.end_y(), 8);
}

#[test]
fn id_is_the_corner() {
    assert_eq!(rect(2, 3, 4, 5).id(), (2, 3));
}

#[test]
fn coalesce_stacked_either_order() {
    let top = rect(0, 0, 4, 2);
    let bottom = rect(0, 2, 4, 3);
    assert_eq!(top.coalesce(&bottom), Some(rect(0, 0, 4, 5)));
    assert_eq!(bottom.coalesce(&top), Some(rect(0, 0, 4, 5)));
}

#[test]
fn coalesce_side_by_side_either_order() {
    let left = rect(1, 1, 2, 4);
    let right = rect(3, 1, 3, 4);
    assert_eq!(left.coalesce(&right), Some(rect(1, 1, 5, 4)));
    assert_eq!(right.coalesce(&left), Some(rect(1, 1, 5, 4)));
}

#[test]
fn coalesce_refuses_non_adjacent() {
    assert_eq!(rect(0, 0, 4, 2).coalesce(&rect(0, 3, 4, 2)), None);
    assert_eq!(rect(0, 0, 4, 2).coalesce(&rect(0, 2, 3, 2)), None);
    assert_eq!(rect(0, 0, 2, 4).coalesce(&rect(2, 0, 2, 3)), None);
    assert_eq!(rect(0, 0, 2, 2).coalesce(&rect(2, 2, 2, 2)), None);
}

#[test]
fn split_h_cuts_a_left_column() {
    assert_eq!(rect(1, 2, 10, 4).split_h(3), (rect(1, 2, 3, 4), rect(4, 2, 7, 4)));
}

#[test]
fn split_v_cuts_a_top_row() {
    assert_eq!(rect(1, 2, 10, 4).split_v(1), (rect(1, 2, 10, 1), rect(1, 3, 10, 3)));
}

#[test]
fn split_at_full_extent_leaves_an_empty_rest() {
    assert_eq!(rect(1, 2, 10, 4).split_h(10), (rect(1, 2, 10, 4), rect(11, 2, 0, 4)));
    assert_eq!(rect(1, 2, 10, 4).split_v(4), (rect(1, 2, 10, 4), rect(1, 6, 10, 0)));
}

#[test]
fn coalesce_all_merges_quadrants() {
    let mut v = vec![rect(0, 0, 5, 5), rect(5, 0, 5, 5), rect(0, 5, 5, 5), rect(5, 5, 5, 5)];
    assert_eq!(coalesce_all(&mut v), 3);
    assert_eq!(v, vec![rect(0, 0, 10, 10)]);
}

#[test]
fn coalescing_twice_changes_nothing_more() {
    let mut v = vec![rect(0, 0, 5, 5), rect(0, 5, 5, 5), rect(5, 0, 5, 3), rect(7, 3, 3, 7)];
    coalesce_all(&mut v);
    let once = v.clone();
    assert_eq!(once, vec![rect(5, 0, 5, 3), rect(7, 3, 3, 7), rect(0, 0, 5, 10)]);
    assert_eq!(coalesce_all(&mut v), 0);
    assert_eq!(v, once);
}

#[test]
fn coalesce_all_leaves_unmergeable_alone() {
    let mut v = vec![rect(0, 0, 2, 2), rect(3, 3, 2, 2)];
    assert_eq!(coalesce_all(&mut v), 0);
    assert_eq!(v, vec![rect(0, 0, 2, 2), rect(3, 3, 2, 2)]);
}

#[test]
fn error_messages() {
    assert_eq!(Error::InvalidSize.message(), "Invalid size");
    assert_eq!(Error::OutOfSpace.message(), "Out of space");
    assert_eq!(Error::RectangleNotFound.message(), "Rectangle not found");
}
