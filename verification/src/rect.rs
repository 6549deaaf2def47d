//! Sides and corners of a rectangle, and how a value given for one of them is
//! spread over the four corners.

use vstd::prelude::*;

verus! {

/// A value for a side or a corner of a rectangle.
#[derive(Clone, Copy, Debug)]
pub enum RectPart<T> {
    Left(T),
    Right(T),
    Top(T),
    Bottom(T),
    TopLeft(T),
    TopRight(T),
    BottomLeft(T),
    BottomRight(T),
}

/// The four slots with the color of `part` put where it belongs.
pub open spec fn color_slots<T>(colors: Seq<T>, part: RectPart<T>) -> Seq<T> {
    match part {
        RectPart::Left(color) => colors.update(0, color).update(3, color),
        RectPart::Right(color) => colors.update(1, color).update(2, color),
        RectPart::Top(color) => colors.update(0, color).update(1, color),
        RectPart::Bottom(color) => colors.update(2, color).update(3, color),
        RectPart::TopLeft(color) => colors.update(0, color),
        RectPart::TopRight(color) => colors.update(1, color),
        RectPart::BottomLeft(color) => colors.update(2, color),
        RectPart::BottomRight(color) => colors.update(3, color),
    }
}

/// The four slots with the radius of `part` put where it belongs.
pub open spec fn radius_slots<T>(radii: Seq<T>, part: RectPart<T>) -> Seq<T> {
    match part {
        RectPart::Left(radius) => radii.update(2, radius).update(3, radius),
        RectPart::Right(radius) => radii.update(0, radius).update(1, radius),
        RectPart::Top(radius) => radii.update(1, radius).update(3, radius),
        RectPart::Bottom(radius) => radii.update(0, radius).update(2, radius),
        RectPart::TopLeft(radius) => radii.update(3, radius),
        RectPart::TopRight(radius) => radii.update(1, radius),
        RectPart::BottomLeft(radius) => radii.update(2, radius),
        RectPart::BottomRight(radius) => radii.update(0, radius),
    }
}

/// The colors of the four corners after the colors of `parts` were put on, one
/// part after the other; a later part overrides an earlier one.
pub fn with_colors<T: Copy>(colors: [T; 4], parts: &[RectPart<T>]) -> (r: [T; 4])
    ensures
        r@ == parts@.fold_left(colors@, |slots: Seq<T>, part: RectPart<T>| color_slots(slots, part)),
{
    let mut slots = colors;
    let mut i: usize = 0;
    while i < parts.len()
        invariant
            i <= parts@.len(),
            slots@ == parts@.subrange(0, i as int).fold_left(
                colors@,
                |slots: Seq<T>, part: RectPart<T>| color_slots(slots, part),
            ),
        decreases parts@.len() - i,
    {
        let ghost before = slots@;
        match parts[i] {
            RectPart::Left(color) => {
                slots[0] = color;
                slots[3] = color;
            },
            RectPart::Right(color) => {
                slots[1] = color;
                slots[2] = color;
            },
            RectPart::Top(color) => {
                slots[0] = color;
                slots[1] = color;
            },
            RectPart::Bottom(color) => {
                slots[2] = color;
                slots[3] = color;
            },
            RectPart::TopLeft(color) => {
                slots[0] = color;
            },
            RectPart::TopRight(color) => {
                slots[1] = color;
            },
            RectPart::BottomLeft(color) => {
                slots[2] = color;
            },
            RectPart::BottomRight(color) => {
                slots[3] = color;
            },
        }
        assert(slots@ =~= color_slots(before, parts@[i as int]));
        proof {
            let prefix = parts@.subrange(0, i + 1);
            assert(prefix.drop_last() =~= parts@.subrange(0, i as int));
            assert(prefix.last() == parts@[i as int]);
        }
        i = i + 1;
    }
    assert(parts@.subrange(0, i as int) =~= parts@);
    slots
}

/// The radii of the four corners after the radii of `parts` were put on, one
/// part after the other; a later part overrides an earlier one.
pub fn with_radii<T: Copy>(radii: [T; 4], parts: &[RectPart<T>]) -> (r: [T; 4])
    ensures
        r@ == parts@.fold_left(radii@, |slots: Seq<T>, part: RectPart<T>| radius_slots(slots, part)),
{
    let mut slots = radii;
    let mut i: usize = 0;
    while i < parts.len()
        invariant
            i <= parts@.len(),
            slots@ == parts@.subrange(0, i as int).fold_left(
                radii@,
                |slots: Seq<T>, part: RectPart<T>| radius_slots(slots, part),
            ),
        decreases parts@.len() - i,
    {
        let ghost before = slots@;
        match parts[i] {
            RectPart::Left(radius) => {
                slots[2] = radius;
                slots[3] = radius;
            },
            RectPart::Right(radius) => {
                slots[0] = radius;
                slots[1] = radius;
            },
            RectPart::Top(radius) => {
                slots[1] = radius;
                slots[3] = radius;
            },
            RectPart::Bottom(radius) => {
                slots[0] = radius;
                slots[2] = radius;
            },
            RectPart::TopLeft(radius) => {
                slots[3] = radius;
            },
            RectPart::TopRight(radius) => {
                slots[1] = radius;
            },
            RectPart::BottomLeft(radius) => {
                slots[2] = radius;
            },
            RectPart::BottomRight(radius) => {
                slots[0] = radius;
            },
        }
        assert(slots@ =~= radius_slots(before, parts@[i as int]));
        proof {
            let prefix = parts@.subrange(0, i + 1);
            assert(prefix.drop_last() =~= parts@.subrange(0, i as int));
            assert(prefix.last() == parts@[i as int]);
        }
        i = i + 1;
    }
    assert(parts@.subrange(0, i as int) =~= parts@);
    slots
}

} // verus!
