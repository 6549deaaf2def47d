//! Units of length that coordinates are measured in.

use vstd::prelude::*;

verus! {

/// Pixels of an image or a render target.
#[derive(Clone, Copy, Debug, Default, PartialEq, Eq)]
pub struct Px();

/// Pixels of the screen.
#[derive(Clone, Copy, Debug, Default, PartialEq, Eq)]
pub struct ScreenPx();

} // verus!
