use vstd::prelude::*;

verus! {

/// Pixels per row of the picture.
pub const ROW_PIXELS: usize = 512;

/// The pixel at `(x, y)` lies inside the disc of radius 200 centred at (256, 256).
pub open spec fn in_circle(x: int, y: int) -> bool {
    (x - 256) * (x - 256) + (y - 256) * (y - 256) < 200 * 200
}

/// Byte `j` (blue, green, red, alpha) of pixel `p`: inside the disc a
/// blue-green gradient, mostly opaque; outside, fully transparent.
pub open spec fn pixel_byte(p: int, j: int) -> u8 {
    let x = p % 512;
    let y = p / 512;
    if in_circle(x, y) {
        if j == 0 {
            (x / 2) as u8
        } else if j == 1 {
            (y / 2) as u8
        } else if j == 2 {
            0
        } else {
            192
        }
    } else {
        0
    }
}

fn circle_test(x: usize, y: usize) -> (r: bool)
    requires
        x < 512,
    ensures
        r == in_circle(x as int, y as int),
{
    if y >= 512 {
        assert(!in_circle(x as int, y as int)) by (nonlinear_arith)
            requires
                y >= 512,
                x < 512,
        ;
        false
    } else {
        let cx: i64 = x as i64 - 256;
        let cy: i64 = y as i64 - 256;
        assert(0 <= cx * cx <= 65536) by (nonlinear_arith)
            requires
                -256 <= cx <= 256,
        ;
        assert(0 <= cy * cy <= 65536) by (nonlinear_arith)
            requires
                -256 <= cy <= 256,
        ;
        let sx: i64 = cx * cx;
        let sy: i64 = cy * cy;
        sx + sy < 40000
    }
}

/// Fills a mapped region, row after row of 512 four-byte pixels, with a
/// partly transparent disc on a transparent background.
pub fn draw(bytes: &mut [u8])
    requires
        old(bytes)@.len() % 4 == 0,
    ensures
        final(bytes)@.len() == old(bytes)@.len(),
        forall|k: int| 0 <= k < final(bytes)@.len() ==> #[trigger] final(bytes)@[k] == pixel_byte(k / 4, k % 4),
{
    let n: usize = bytes.len() / 4;
    let mut p: usize = 0;
    while p < n
        invariant
            bytes@.len() == old(bytes)@.len(),
            n * 4 == bytes@.len(),
            bytes@.len() <= usize::MAX,
            p <= n,
            forall|k: int| 0 <= k < p * 4 ==> #[trigger] bytes@[k] == pixel_byte(k / 4, k % 4),
        decreases n - p,
    {
        let x: usize = p % ROW_PIXELS;
        let y: usize = p / ROW_PIXELS;
        let b: usize = p * 4;
        if circle_test(x, y) {
            assert(y < 456) by (nonlinear_arith)
                requires
                    in_circle(x as int, y as int),
            ;
            bytes[b] = (x / 2) as u8;
            bytes[b + 1] = (y / 2) as u8;
            bytes[b + 2] = 0;
            bytes[b + 3] = 192;
        } else {
            bytes[b] = 0;
            bytes[b + 1] = 0;
            bytes[b + 2] = 0;
            bytes[b + 3] = 0;
        }
        assert forall|k: int| 0 <= k < (p + 1) * 4 implies #[trigger] bytes@[k] == pixel_byte(k / 4, k % 4) by {
            if k >= p * 4 {
                assert(k / 4 == p);
            }
        }
        p = p + 1;
    }
}

} // verus!
