use vstd::prelude::*;
use crate::escape::MAX_ITER;
use crate::palette::{color_of, shade};

verus! {

/// The four bytes of pixel `i` in a tightly packed RGBA8 frame.
pub open spec fn pixel(bytes: Seq<u8>, i: int) -> Seq<u8> {
    bytes.subrange(4 * i, 4 * i + 4)
}

/// Column of pixel `i` in a row-major frame `width` pixels wide.
pub open spec fn column(i: int, width: u32) -> u32 {
    (i % width as int) as u32
}

/// Row of pixel `i` in a row-major frame `width` pixels wide.
pub open spec fn row(i: int, width: u32) -> u32 {
    (i / width as int) as u32
}

/// Pixel `i` of a frame `width` pixels wide holds the colour of a count
/// that `eval` gives for its column and row.
pub open spec fn painted<F: Fn(u32, u32) -> u32>(eval: F, bytes: Seq<u8>, width: u32, i: int) -> bool {
    exists|n: u32|
        #[trigger] eval.ensures((column(i, width), row(i, width)), n)
            && pixel(bytes, i) == shade(n as int)
}

/// Fill `frame`, a `width` by `height` RGBA8 frame in row-major order, by
/// asking `eval` for the escape-time count of each pixel (column, row) and
/// writing the colour of that count over the pixel's four bytes.
pub fn render<F: Fn(u32, u32) -> u32>(frame: &mut [u8], width: u32, height: u32, eval: F)
    requires
        old(frame)@.len() == width as int * height as int * 4,
        forall|x: u32, y: u32| x < width && y < height ==> #[trigger] eval.requires((x, y)),
        forall|x: u32, y: u32, n: u32| #[trigger] eval.ensures((x, y), n) ==> n <= MAX_ITER,
    ensures
        final(frame)@.len() == old(frame)@.len(),
        forall|i: int| 0 <= i < width as int * height as int ==> painted(eval, final(frame)@, width, i),
{
    let len: usize = frame.len();
    let total: usize = len / 4;
    assert(total == width as int * height as int);
    let ghost counts: Seq<u32> = Seq::empty();
    let mut i: usize = 0;
    while i < total
        invariant
            total == width as int * height as int,
            frame@.len() == total * 4,
            len == total * 4,
            old(frame)@.len() == total * 4,
            0 <= i <= total,
            counts.len() == i,
            forall|x: u32, y: u32| x < width && y < height ==> #[trigger] eval.requires((x, y)),
            forall|x: u32, y: u32, n: u32| #[trigger] eval.ensures((x, y), n) ==> n <= MAX_ITER,
            forall|j: int| 0 <= j < i ==> {
                &&& #[trigger] eval.ensures((column(j, width), row(j, width)), counts[j])
                &&& pixel(frame@, j) == shade(counts[j] as int)
            },
        decreases total - i,
    {
        proof {
            assert(0 < width) by (nonlinear_arith)
                requires i < width as int * height as int;
            assert((i as int) / (width as int) < height) by (nonlinear_arith)
                requires i < width as int * height as int, 0 < width;
        }
        let x: u32 = (i % width as usize) as u32;
        let y: u32 = (i / width as usize) as u32;
        let n = eval(x, y);
        let rgba = color_of(n);
        let ghost before = frame@;
        let base: usize = 4 * i;
        frame[base] = rgba[0];
        frame[base + 1] = rgba[1];
        frame[base + 2] = rgba[2];
        frame[base + 3] = rgba[3];
        proof {
            counts = counts.push(n);
            assert forall|j: int| 0 <= j < i implies pixel(frame@, j) == pixel(before, j) by {
                assert(pixel(frame@, j) =~= pixel(before, j));
            }
            assert(pixel(frame@, i as int) =~= rgba@);
        }
        i = i + 1;
    }
    assert forall|i: int| 0 <= i < width as int * height as int implies painted(eval, frame@, width, i) by {
        assert(eval.ensures((column(i, width), row(i, width)), counts[i]));
    }
}

} // verus!
