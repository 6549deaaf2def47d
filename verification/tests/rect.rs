use plinth::rect::{with_colors, with_radii, RectPart};

#[test]
fn colors_go_to_the_corners_of_their_part() {
    assert_eq!(with_colors([0, 0, 0, 0], &[]), [0, 0, 0, 0]);
    assert_eq!(with_colors([0, 0, 0, 0], &[RectPart::Left(1)]), [1, 0, 0, 1]);
    assert_eq!(with_colors([0, 0, 0, 0], &[RectPart::Right(2)]), [0, 2, 2, 0]);
    assert_eq!(with_colors([0, 0, 0, 0], &[RectPart::Top(3)]), [3, 3, 0, 0]);
    assert_eq!(with_colors([0, 0, 0, 0], &[RectPart::Bottom(4)]), [0, 0, 4, 4]);
    assert_eq!(with_colors([0, 0, 0, 0], &[RectPart::TopLeft(5)]), [5, 0, 0, 0]);
    assert_eq!(with_colors([0, 0, 0, 0], &[RectPart::TopRight(6)]), [0, 6, 0, 0]);
    assert_eq!(with_colors([0, 0, 0, 0], &[RectPart::BottomLeft(7)]), [0, 0, 7, 0]);
    assert_eq!(with_colors([0, 0, 0, 0], &[RectPart::BottomRight(8)]), [0, 0, 0, 8]);
    // a later part overrides an earlier one
    assert_eq!(
        with_colors([9, 9, 9, 9], &[RectPart::Left(1), RectPart::Top(2)]),
        [2, 2, 9, 1]
    );
}

#[test]
fn radii_go_to_the_corners_of_their_part() {
    assert_eq!(with_radii([0, 0, 0, 0], &[RectPart::Left(1)]), [0, 0, 1, 1]);
    assert_eq!(with_radii([0, 0, 0, 0], &[RectPart::Right(2)]), [2, 2, 0, 0]);
    assert_eq!(with_radii([0, 0, 0, 0], &[RectPart::Top(3)]), [0, 3, 0, 3]);
    assert_eq!(with_radii([0, 0, 0, 0], &[RectPart::Bottom(4)]), [4, 0, 4, 0]);
    assert_eq!(with_radii([0, 0, 0, 0], &[RectPart::TopLeft(5)]), [0, 0, 0, 5]);
    assert_eq!(with_radii([0, 0, 0, 0], &[RectPart::TopRight(6)]), [0, 6, 0, 0]);
    assert_eq!(with_radii([0, 0, 0, 0], &[RectPart::BottomLeft(7)]), [0, 0, 7, 0]);
    assert_eq!(with_radii([0, 0, 0, 0], &[RectPart::BottomRight(8)]), [8, 0, 0, 0]);
    assert_eq!(
        with_radii([9.5f32; 4], &[RectPart::Bottom(1.0), RectPart::TopLeft(2.0)]),
        [1.0, 9.5, 1.0, 2.0]
    );
}
