use rect_arena::{Arena, Error, Rectangle};

fn rect(x: u32, y: u32, width: u32, height: u32) -> Rectangle {
    Rectangle { x, y, width, height }
}

fn overlap(a: &Rectangle, b: &Rectangle) -> bool {
    a.x < b.end_x() && b.x < a.end_x() && a.y < b.end_y() && b.y < a.end_y()
}

#[test]
fn new_arena_is_empty() {
    let a = Arena::new(10, 7);
    assert!(a.allocated().is_empty());
    assert_eq!(a.dimensions(), (10, 7));
}

#[test]
fn invalid_size_rejection() {
    let mut a = Arena::new(10, 10);
    assert_eq!(a.allocate(0, 5), Err(Error::InvalidSize));
    assert_eq!(a.allocate(5, 0), Err(Error::InvalidSize));
    assert_eq!(a.allocate(11, 5), Err(Error::InvalidSize));
    assert_eq!(a.allocate(5, 11), Err(Error::InvalidSize));
    assert!(a.allocated().is_empty());
    assert_eq!(a.allocate(10, 10), Ok(rect(0, 0, 10, 10)));
}

#[test]
fn exhaustion() {
    let mut a = Arena::new(10, 10);
    let whole = a.allocate(10, 10).unwrap();
    assert_eq!(whole, rect(0, 0, 10, 10));
    assert_eq!(a.allocate(1, 1), Err(Error::OutOfSpace));
    assert_eq!(a.allocated(), vec![whole]);
    assert_eq!(a.free(whole), Ok(()));
    assert_eq!(a.allocate(10, 10), Ok(rect(0, 0, 10, 10)));
}

#[test]
fn fragmentation_recovery_via_coalescing() {
    let mut a = Arena::new(10, 10);
    let first = a.allocate(10, 5).unwrap();
    let second = a.allocate(10, 5).unwrap();
    assert_eq!(first, rect(0, 0, 10, 5));
    assert_eq!(second, rect(0, 5, 10, 5));
    assert_eq!(a.allocate(1, 1), Err(Error::OutOfSpace));
    assert_eq!(a.free(first), Ok(()));
    assert_eq!(a.free(second), Ok(()));
    assert_eq!(a.allocate(10, 10), Ok(rect(0, 0, 10, 10)));
}

#[test]
fn double_release_is_not_found() {
    let mut a = Arena::new(10, 10);
    let r = a.allocate(2, 2).unwrap();
    assert_eq!(a.free(r), Ok(()));
    assert_eq!(a.free(r), Err(Error::RectangleNotFound));
}

#[test]
fn release_of_unknown_rectangle_is_not_found() {
    let mut a = Arena::new(10, 10);
    assert_eq!(a.free(rect(5, 5, 1, 1)), Err(Error::RectangleNotFound));
    let r = a.allocate(3, 3).unwrap();
    assert_eq!(a.free(rect(3, 0, 7, 10)), Err(Error::RectangleNotFound));
    assert_eq!(a.allocated(), vec![r]);
}

#[test]
fn release_finds_by_corner() {
    let mut a = Arena::new(10, 10);
    let r = a.allocate(3, 3).unwrap();
    assert_eq!(r, rect(0, 0, 3, 3));
    assert_eq!(a.free(rect(0, 0, 1, 1)), Ok(()));
    assert!(a.allocated().is_empty());
}

#[test]
fn round_trip_restores_free_area() {
    let mut a = Arena::new(10, 10);
    let r = a.allocate(3, 4).unwrap();
    assert_eq!(r, rect(0, 0, 3, 4));
    assert_eq!(a.free(r), Ok(()));
    assert!(a.allocated().is_empty());
    assert_eq!(a.allocate(10, 10), Ok(rect(0, 0, 10, 10)));
}

#[test]
fn general_fit_splits_column_then_row() {
    let mut a = Arena::new(10, 10);
    assert_eq!(a.allocate(3, 4), Ok(rect(0, 0, 3, 4)));
    assert_eq!(a.allocate(7, 10), Ok(rect(3, 0, 7, 10)));
    assert_eq!(a.allocate(3, 6), Ok(rect(0, 4, 3, 6)));
    assert_eq!(a.allocate(1, 1), Err(Error::OutOfSpace));
}

#[test]
fn width_match_splits_along_height() {
    let mut a = Arena::new(10, 10);
    assert_eq!(a.allocate(10, 3), Ok(rect(0, 0, 10, 3)));
    assert_eq!(a.allocate(10, 3), Ok(rect(0, 3, 10, 3)));
    assert_eq!(a.allocate(10, 4), Ok(rect(0, 6, 10, 4)));
    assert_eq!(a.allocate(1, 1), Err(Error::OutOfSpace));
}

#[test]
fn height_match_splits_along_width() {
    let mut a = Arena::new(10, 10);
    assert_eq!(a.allocate(4, 10), Ok(rect(0, 0, 4, 10)));
    assert_eq!(a.allocate(6, 10), Ok(rect(4, 0, 6, 10)));
    assert_eq!(a.allocate(1, 1), Err(Error::OutOfSpace));
}

#[test]
fn exact_fit_is_preferred_over_an_earlier_larger_rectangle() {
    let mut a = Arena::new(10, 10);
    let top = a.allocate(10, 5).unwrap();
    assert_eq!(a.allocate(4, 5), Ok(rect(0, 5, 4, 5)));
    let right = a.allocate(6, 5).unwrap();
    assert_eq!(right, rect(4, 5, 6, 5));
    assert_eq!(a.free(top), Ok(()));
    assert_eq!(a.free(right), Ok(()));
    assert_eq!(a.allocate(6, 5), Ok(rect(4, 5, 6, 5)));
}

#[test]
fn failed_allocation_changes_nothing() {
    let mut a = Arena::new(4, 4);
    let r = a.allocate(4, 2).unwrap();
    assert_eq!(a.allocate(4, 3), Err(Error::OutOfSpace));
    assert_eq!(a.allocated(), vec![r]);
    assert_eq!(a.allocate(4, 2), Ok(rect(0, 2, 4, 2)));
}

#[test]
fn area_conservation_fills_exactly_the_arena() {
    let mut a = Arena::new(10, 10);
    for _ in 0..100 {
        assert!(a.allocate(1, 1).is_ok());
    }
    assert_eq!(a.allocate(1, 1), Err(Error::OutOfSpace));
    assert_eq!(a.allocated().len(), 100);
}

#[test]
fn allocations_do_not_overlap_and_stay_in_bounds() {
    let mut a = Arena::new(20, 15);
    let sizes = [(3, 4), (20, 2), (5, 5), (1, 9), (7, 3), (2, 2), (4, 6)];
    let mut placed = 0;
    let mut placed_area = 0;
    for (w, h) in sizes {
        match a.allocate(w, h) {
            Ok(r) => {
                assert_eq!((r.width, r.height), (w, h));
                placed += 1;
                placed_area += w * h;
            }
            Err(e) => assert_eq!(e, Error::OutOfSpace),
        }
    }
    assert!(placed >= 3);
    let all = a.allocated();
    assert_eq!(all.len(), placed);
    let area: u32 = all.iter().map(|r| r.width * r.height).sum();
    assert_eq!(area, placed_area);
    for (i, r) in all.iter().enumerate() {
        assert!(r.end_x() <= 20 && r.end_y() <= 15);
        for s in all.iter().skip(i + 1) {
            assert!(!overlap(r, s));
        }
    }
}

#[test]
fn released_space_is_reused_after_coalescing() {
    let mut a = Arena::new(8, 8);
    let mut rs = Vec::new();
    for _ in 0..4 {
        rs.push(a.allocate(8, 2).unwrap());
    }
    assert_eq!(a.allocate(1, 1), Err(Error::OutOfSpace));
    for r in rs {
        assert_eq!(a.free(r), Ok(()));
    }
    assert_eq!(a.allocate(8, 8), Ok(rect(0, 0, 8, 8)));
}
