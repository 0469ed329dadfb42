use shr_daw::geometry::{contains, rect, visible_index, Rect};

#[test]
fn scrolled_hit_testing() {
    assert_eq!(visible_index(Rect::new(1, 4, 38, 8), 10, 2, 7), Some(13));
    assert_eq!(visible_index(Rect::new(1, 4, 38, 8), 10, 0, 7), None);
}

#[test]
fn rectangles_are_cut_to_stay_inside_the_coordinate_range() {
    assert_eq!(rect(65_530, 0, 20, 3), Rect { x: 65_530, y: 0, width: 5, height: 3 });
    assert_eq!(Rect::new(2, 65_535, 4, 9), Rect { x: 2, y: 65_535, width: 4, height: 0 });
}

#[test]
fn edges_and_empty_rectangles() {
    let area = rect(1, 4, 38, 8);
    assert!(contains(area, 1, 4));
    assert!(contains(area, 38, 11));
    assert!(!contains(area, 39, 11));
    assert!(!contains(area, 38, 12));
    assert!(!contains(rect(3, 3, 0, 5), 3, 3));
}
