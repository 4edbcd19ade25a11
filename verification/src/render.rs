//! Image geometry of the offline spectrogram: which column and which band a
//! pixel shows. Positions along an axis are later scaled to indices in
//! floating point by the renderer.
use vstd::prelude::*;

verus! {

/// Where a pixel reads from: the position and extent along the time axis
/// (columns) and along the frequency axis (bands).
#[derive(Clone, Copy, Debug, PartialEq, Eq, Structural)]
pub struct PixelAxes {
    pub col_pos: u32,
    pub col_extent: u32,
    pub bin_pos: u32,
    pub bin_extent: u32,
}

/// Image size actually drawn: at least one pixel each way.
pub fn image_size(width: u32, height: u32) -> (r: (u32, u32))
    ensures
        r.0 == (if width >= 1 { width } else { 1 }),
        r.1 == (if height >= 1 { height } else { 1 }),
{
    (if width >= 1 { width } else { 1 }, if height >= 1 { height } else { 1 })
}

/// The axes of pixel `(x, y)`. Scrolling right to left, time runs along x
/// and frequency up the image (row `height - 1` is the lowest band);
/// otherwise time runs down the image and frequency along x.
pub fn pixel_axes(x: u32, y: u32, width: u32, height: u32, right_to_left: bool) -> (r: PixelAxes)
    requires
        x < width,
        y < height,
    ensures
        right_to_left ==> r == (PixelAxes { col_pos: x, col_extent: width, bin_pos: (height - 1 - y) as u32, bin_extent: height }),
        !right_to_left ==> r == (PixelAxes { col_pos: y, col_extent: height, bin_pos: x, bin_extent: width }),
{
    if right_to_left {
        PixelAxes { col_pos: x, col_extent: width, bin_pos: height - 1 - y, bin_extent: height }
    } else {
        PixelAxes { col_pos: y, col_extent: height, bin_pos: x, bin_extent: width }
    }
}

/// The value of band `bin` in column `col`, or `fill` when either is out of
/// range.
pub fn sample_column<T: Copy>(columns: &[Vec<T>], col: usize, bin: usize, fill: T) -> (r: T)
    ensures
        r == (if col < columns@.len() && bin < columns@[col as int]@.len() {
            columns@[col as int]@[bin as int]
        } else {
            fill
        }),
{
    if col < columns.len() && bin < columns[col].len() {
        columns[col][bin]
    } else {
        fill
    }
}

} // verus!
