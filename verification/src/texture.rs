//! Procedural textures: a colour function evaluated at every pixel.

use vstd::prelude::*;

verus! {

/// The four bytes of pixel `(x, y)` in a row-major RGBA buffer of rows
/// `width` pixels wide.
pub open spec fn pixel_bytes(data: Seq<u8>, width: int, x: int, y: int) -> Seq<u8> {
    let start = 4 * (y * width + x);
    data.subrange(start, start + 4)
}

/// Whether pixel `(x, y)` of `data` holds a colour that `f` may answer for
/// that pixel.
pub open spec fn pixel_made_by<F: Fn(u32, u32) -> [u8; 4]>(
    f: F,
    data: Seq<u8>,
    width: u32,
    x: u32,
    y: u32,
) -> bool {
    exists|rgba: [u8; 4]|
        #[trigger] f.ensures((x, y), rgba) && rgba@ == pixel_bytes(data, width as int, x as int, y as int)
}

/// Number of bytes of a `width` by `height` RGBA image, computed in `u32`
/// as the image APIs take it.
pub fn texture_byte_len(width: u32, height: u32) -> (n: usize)
    requires
        width * height * 4 <= u32::MAX,
    ensures
        n == width * height * 4,
{
    (width * height * 4) as usize
}

/// Builds a `width` by `height` RGBA image, row by row from the top, by
/// asking `pixel_color_func` for the colour of each pixel `(x, y)`.
pub fn generate_texture<F: Fn(u32, u32) -> [u8; 4]>(
    width: u32,
    height: u32,
    pixel_color_func: F,
) -> (pixels: Vec<u8>)
    requires
        width * height * 4 <= u32::MAX,
        forall|x: u32, y: u32| x < width && y < height ==> #[trigger] pixel_color_func.requires((x, y)),
    ensures
        pixels@.len() == width * height * 4,
        forall|x: u32, y: u32|
            x < width && y < height ==> #[trigger] pixel_made_by(pixel_color_func, pixels@, width, x, y),
{
    let mut pixel_data: Vec<u8> = Vec::with_capacity(texture_byte_len(width, height));
    let mut y: u32 = 0;
    while y < height
        invariant
            width * height * 4 <= u32::MAX,
            forall|x: u32, y: u32| x < width && y < height ==> #[trigger] pixel_color_func.requires((x, y)),
            0 <= y <= height,
            pixel_data@.len() == y * width * 4,
            forall|px: u32, py: u32|
                px < width && py < y ==> #[trigger] pixel_made_by(pixel_color_func, pixel_data@, width, px, py),
        decreases height - y,
    {
        let mut x: u32 = 0;
        while x < width
            invariant
                width * height * 4 <= u32::MAX,
                forall|x: u32, y: u32| x < width && y < height ==> #[trigger] pixel_color_func.requires((x, y)),
                0 <= y < height,
                0 <= x <= width,
                pixel_data@.len() == (y * width + x) * 4,
                forall|px: u32, py: u32|
                    (px < width && py < y) || (px < x && py == y) ==> #[trigger] pixel_made_by(
                        pixel_color_func,
                        pixel_data@,
                        width,
                        px,
                        py,
                    ),
            decreases width - x,
        {
            let rgba = pixel_color_func(x, y);
            let ghost before = pixel_data@;
            pixel_data.extend_from_slice(&rgba);
            proof {
                assert(pixel_data@ == before + rgba@);
                assert((y * width + x + 1) * 4 <= width * height * 4) by (nonlinear_arith)
                    requires
                        y < height,
                        x < width,
                ;
                assert forall|px: u32, py: u32|
                    (px < width && py < y) || (px < x + 1 && py == y) implies #[trigger] pixel_made_by(
                    pixel_color_func,
                    pixel_data@,
                    width,
                    px,
                    py,
                ) by {
                    let start = 4 * (py * width + px);
                    assert(start + 4 <= before.len()
                        || (px == x && py == y)) by (nonlinear_arith)
                        requires
                            (px < width && py < y) || (px < x + 1 && py == y),
                            before.len() == (y * width + x) * 4,
                            start == 4 * (py * width + px),
                    ;
                    if px == x && py == y {
                        assert(pixel_bytes(pixel_data@, width as int, px as int, py as int) =~= rgba@);
                    } else {
                        assert(pixel_made_by(pixel_color_func, before, width, px, py));
                        let q = choose|q: [u8; 4]|
                            #[trigger] pixel_color_func.ensures((px, py), q) && q@ == pixel_bytes(
                                before,
                                width as int,
                                px as int,
                                py as int,
                            );
                        assert(pixel_bytes(pixel_data@, width as int, px as int, py as int) =~= pixel_bytes(
                            before,
                            width as int,
                            px as int,
                            py as int,
                        ));
                    }
                }
            }
            x = x + 1;
        }
        proof {
            assert((y * width + width) * 4 == (y + 1) * width * 4) by (nonlinear_arith);
        }
        y = y + 1;
    }
    proof {
        assert(height * width * 4 == width * height * 4) by (nonlinear_arith);
    }
    pixel_data
}

} // verus!
