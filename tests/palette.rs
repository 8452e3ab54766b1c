use mandelbrot::{color_of, MAX_ITER};

#[test]
fn inside_is_opaque_black() {
    assert_eq!(color_of(MAX_ITER), [0, 0, 0, 255]);
}

#[test]
fn red_saturates_at_fifty() {
    assert_eq!(color_of(50), [255, 127, 0, 255]);
    assert_eq!(color_of(49), [249, 124, 0, 255]);
    assert_eq!(color_of(51), [255, 130, 0, 255]);
}

#[test]
fn green_never_saturates_outside() {
    assert_eq!(color_of(99), [255, 252, 0, 255]);
    for n in 0..MAX_ITER {
        assert!(color_of(n)[1] < 255);
    }
}

#[test]
fn red_full_exactly_from_fifty() {
    for n in 0..MAX_ITER {
        assert_eq!(color_of(n)[0] == 255, n >= 50);
    }
}

#[test]
fn small_counts_are_dark_red() {
    assert_eq!(color_of(0), [0, 0, 0, 255]);
    assert_eq!(color_of(1), [5, 2, 0, 255]);
    assert_eq!(color_of(10), [51, 25, 0, 255]);
}
