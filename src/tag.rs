use vstd::prelude::*;

verus! {

/// Marker that tells apart the kinds of three-component values: colours and
/// geometric vectors share a representation but must not be mixed.
pub trait Tag: Copy + Default {}

/// Marks a colour.
#[derive(Clone, Copy, Debug, Default, PartialEq, Eq)]
pub struct ColourTag;

/// Marks a point or direction in space.
#[derive(Clone, Copy, Debug, Default, PartialEq, Eq)]
pub struct VectorTag;

impl Tag for ColourTag {}

impl Tag for VectorTag {}

} // verus!
