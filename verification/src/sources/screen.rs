//! The pixels of a captured frame that are sampled for its brightness.
//!
//! A frame is sampled on a grid of every 8th pixel in both directions,
//! starting 4 pixels in. Each pixel is 4 bytes; the colour bytes sit in the
//! order the frame's format gives.

use crate::text::{chars_of, has_prefix, starts_with};
use vstd::prelude::*;

verus! {

/// Spacing of the sampling grid, in pixels.
pub const GRID_STEP: usize = 8;

/// Byte order of a 32-bit pixel in a captured frame.
#[derive(Debug, Clone, Copy, PartialEq, Eq, Structural)]
pub enum PixelOrder {
    Bgrx,
    Rgbx,
}

/// The colour bytes of one pixel.
#[derive(Debug, Clone, Copy, PartialEq, Eq, Structural)]
pub struct Rgb {
    pub r: u8,
    pub g: u8,
    pub b: u8,
}

/// Number of grid positions `4, 12, 20, ...` below `n`.
pub open spec fn grid_len(n: nat) -> nat {
    if n > 4 {
        ((n - 4 + 7) / 8) as nat
    } else {
        0
    }
}

/// Whether the frame's geometry is unusable: empty, rows shorter than the
/// width, or fewer bytes than the last row needs.
pub open spec fn bad_geometry(len: nat, width: nat, height: nat, stride: nat) -> bool {
    width == 0 || height == 0 || stride < width * 4 || len < stride * (height - 1) + width * 4
}

/// The colour of the pixel whose bytes start at `at`.
pub open spec fn rgb_at(pixels: Seq<u8>, at: int, order: PixelOrder) -> Rgb {
    match order {
        PixelOrder::Bgrx => Rgb { r: pixels[at + 2], g: pixels[at + 1], b: pixels[at] },
        PixelOrder::Rgbx => Rgb { r: pixels[at], g: pixels[at + 1], b: pixels[at + 2] },
    }
}

/// The sampled pixels, row by row: row `i` is `4 + 8i`, column `j` is
/// `4 + 8j`.
pub open spec fn grid_points(
    pixels: Seq<u8>,
    width: nat,
    height: nat,
    stride: nat,
    order: PixelOrder,
) -> Seq<Rgb> {
    let cols = grid_len(width);
    Seq::new(
        grid_len(height) * cols,
        |k: int| rgb_at(pixels, (4 + 8 * (k / cols as int)) * stride + (4 + 8 * (k % cols as int)) * 4, order),
    )
}

/// The colours of the sampled pixels, or `None` when the geometry does not
/// fit the buffer.
pub fn sample_points(
    pixels: &[u8],
    width: usize,
    height: usize,
    stride: usize,
    order: PixelOrder,
) -> (r: Option<Vec<Rgb>>)
    requires
        width > 0 && height > 0 ==> width * 4 <= usize::MAX,
        width > 0 && height > 0 && stride >= width * 4 ==> stride * (height - 1) + width * 4
            <= usize::MAX,
    ensures
        r is None <==> bad_geometry(pixels@.len(), width as nat, height as nat, stride as nat),
        r matches Some(v) ==> v@ == grid_points(
            pixels@,
            width as nat,
            height as nat,
            stride as nat,
            order,
        ),
{
    if width == 0 || height == 0 || stride < width * 4 || pixels.len() < stride * (height - 1)
        + width * 4 {
        return None;
    }
    let (ri, bi): (usize, usize) = match order {
        PixelOrder::Bgrx => (2, 0),
        PixelOrder::Rgbx => (0, 2),
    };
    let ghost cols = grid_len(width as nat);
    let ghost all = grid_points(pixels@, width as nat, height as nat, stride as nat, order);
    let mut out: Vec<Rgb> = Vec::new();
    let mut y: usize = 4;
    let mut row: usize = 0;
    while y < height
        invariant
            y == 4 + 8 * row,
            row <= grid_len(height as nat),
            y < height ==> row < grid_len(height as nat),
            y >= height ==> row == grid_len(height as nat),
            cols == grid_len(width as nat),
            all == grid_points(pixels@, width as nat, height as nat, stride as nat, order),
            all.len() == grid_len(height as nat) * cols,
            out@ == all.take(row * cols),
            width > 0,
            height > 0,
            stride >= width * 4,
            pixels@.len() >= stride * (height - 1) + width * 4,
            stride * (height - 1) + width * 4 <= usize::MAX,
            (order == PixelOrder::Bgrx && ri == 2 && bi == 0) || (order == PixelOrder::Rgbx && ri
                == 0 && bi == 2),
        decreases grid_len(height as nat) - row,
    {
        assert(y * stride <= stride * (height - 1)) by (nonlinear_arith)
            requires
                y <= height - 1,
        ;
        assert(4 * (height - 1) <= stride * (height - 1)) by (nonlinear_arith)
            requires
                stride >= width * 4,
                width > 0,
                height > 0,
        ;
        let base = y * stride;
        let mut x: usize = 4;
        let mut col: usize = 0;
        while x < width
            invariant
                x == 4 + 8 * col,
                col <= cols,
                x < width ==> col < cols,
                x >= width ==> col == cols,
                cols == grid_len(width as nat),
                y == 4 + 8 * row,
                row < grid_len(height as nat),
                y < height,
                base == y * stride,
                base <= stride * (height - 1),
                width * 4 <= stride,
                4 * (height - 1) <= stride * (height - 1),
                all == grid_points(pixels@, width as nat, height as nat, stride as nat, order),
                all.len() == grid_len(height as nat) * cols,
                out@ == all.take(row * cols + col),
                pixels@.len() >= stride * (height - 1) + width * 4,
                stride * (height - 1) + width * 4 <= usize::MAX,
                (order == PixelOrder::Bgrx && ri == 2 && bi == 0) || (order == PixelOrder::Rgbx
                    && ri == 0 && bi == 2),
            decreases cols - col,
        {
            let at = base + x * 4;
            assert(at == (4 + 8 * row) * stride + (4 + 8 * col) * 4);
            let pixel = Rgb { r: pixels[at + ri], g: pixels[at + 1], b: pixels[at + bi] };
            proof {
                let k = row * cols + col;
                assert(k < grid_len(height as nat) * cols) by (nonlinear_arith)
                    requires
                        row < grid_len(height as nat),
                        col < cols,
                        k == row * cols + col,
                ;
                vstd::arithmetic::div_mod::lemma_fundamental_div_mod_converse(
                    k as int,
                    cols as int,
                    row as int,
                    col as int,
                );
                assert((k as int) / (cols as int) == row && (k as int) % (cols as int) == col);
                assert(all[k as int] == rgb_at(pixels@, at as int, order));
                assert(all[k as int] == pixel);
                assert(all.take(k + 1) =~= all.take(k as int).push(pixel));
            }
            out.push(pixel);
            x = x + 8;
            col = col + 1;
        }
        proof {
            assert((row + 1) * cols == row * cols + cols) by (nonlinear_arith);
        }
        y = y + 8;
        row = row + 1;
    }
    proof {
        assert(all.take(row * cols) =~= all);
    }
    Some(out)
}

/// Whether an output name is that of a built-in panel (eDP, LVDS or DSI).
pub open spec fn names_panel(name: Option<String>) -> bool {
    name matches Some(n) && (starts_with(n@, "eDP"@) || starts_with(n@, "LVDS"@) || starts_with(
        n@,
        "DSI"@,
    ))
}

/// The output to capture among outputs with these names (`None` where an
/// output has not told its name): the first built-in panel, or else the first
/// output.
pub open spec fn is_output_to_capture(names: Seq<Option<String>>, i: int) -> bool {
    if exists|k: int| 0 <= k < names.len() && names_panel(#[trigger] names[k]) {
        0 <= i < names.len() && names_panel(names[i]) && forall|k: int|
            0 <= k < i ==> !names_panel(#[trigger] names[k])
    } else {
        i == 0
    }
}

fn is_panel(name: &Option<String>) -> (b: bool)
    ensures
        b == names_panel(*name),
{
    match name {
        Some(n) => {
            let v = chars_of(n.as_str());
            has_prefix(&v, "eDP") || has_prefix(&v, "LVDS") || has_prefix(&v, "DSI")
        },
        None => false,
    }
}

/// The position of the output to capture: the first built-in panel, or 0.
pub fn internal_output(names: &[Option<String>]) -> (i: usize)
    ensures
        is_output_to_capture(names@, i as int),
{
    let mut i: usize = 0;
    while i < names.len()
        invariant
            i <= names@.len(),
            forall|k: int| 0 <= k < i ==> !names_panel(#[trigger] names@[k]),
        decreases names@.len() - i,
    {
        if is_panel(&names[i]) {
            return i;
        }
        i = i + 1;
    }
    0
}

} // verus!
