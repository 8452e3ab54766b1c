use vstd::prelude::*;
use vstd::math::min;
use crate::escape::MAX_ITER;

verus! {

/// Red channel of an escaped point: full red is reached after 50 iterations.
pub open spec fn red_of(n: int) -> int {
    min(255, n * 255 / 50)
}

/// Green channel of an escaped point: full green would take the whole budget.
pub open spec fn green_of(n: int) -> int {
    min(255, n * 255 / 100)
}

/// RGBA colour of an escape-time count: opaque black inside the set, a
/// red-to-yellow gradient outside it.
pub open spec fn shade(n: int) -> Seq<u8> {
    if n == MAX_ITER {
        seq![0u8, 0u8, 0u8, 255u8]
    } else {
        seq![red_of(n) as u8, green_of(n) as u8, 0u8, 255u8]
    }
}

/// Colour of the pixel whose escape-time count is `n`.
pub fn color_of(n: u32) -> (rgba: [u8; 4])
    requires
        n <= MAX_ITER,
    ensures
        rgba@ == shade(n as int),
{
    if n == MAX_ITER {
        [0, 0, 0, 255]
    } else {
        let red: u32 = if n * 255 / 50 < 255 { n * 255 / 50 } else { 255 };
        let green: u32 = if n * 255 / 100 < 255 { n * 255 / 100 } else { 255 };
        let rgba: [u8; 4] = [red as u8, green as u8, 0, 255];
        assert(rgba@ =~= shade(n as int));
        rgba
    }
}

/// Where the gradient saturates: for every escaped count the red channel is
/// full exactly from 50 iterations on, and the green channel never is.
pub proof fn gradient_thresholds(n: u32)
    requires
        n < MAX_ITER,
    ensures
        (shade(n as int)[0] == 255u8) == (n >= 50),
        shade(n as int)[1] < 255u8,
        shade(n as int)[2] == 0u8,
        shade(n as int)[3] == 255u8,
{
}

} // verus!
