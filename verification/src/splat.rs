//! The packed record.

use vstd::prelude::*;

verus! {

/// One Gaussian splat in its packed form: 32 bytes when laid out as a record.
///
/// `pos` and `scale` hold IEEE-754 single-precision bit patterns; `color` is
/// R, G, B, A; `rot` is the quantised unit quaternion, each component mapped
/// from [-1, 1] to [0, 255].
#[derive(Debug, Clone, Copy, PartialEq, Eq)]
pub struct SplatPoint {
    /// Position (x, y, z), as bit patterns.
    pub pos: [u32; 3],
    /// Linear scale (x, y, z), as bit patterns.
    pub scale: [u32; 3],
    /// Colour (R, G, B, A).
    pub color: [u8; 4],
    /// Quantised rotation quaternion.
    pub rot: [u8; 4],
}

} // verus!
