use pheng::{isqrt, Fixed, Vec2, SCALE};

fn fx(raw: i32) -> Fixed {
    Fixed { raw }
}

fn v(x: i32, y: i32) -> Vec2 {
    Vec2::new(fx(x), fx(y))
}

fn dot(a: Vec2, b: Vec2) -> i128 {
    (a.x.raw as i128) * (b.x.raw as i128) + (a.y.raw as i128) * (b.y.raw as i128)
}

fn cross(a: Vec2, b: Vec2) -> i128 {
    (a.x.raw as i128) * (b.y.raw as i128) - (a.y.raw as i128) * (b.x.raw as i128)
}

#[test]
fn scale_is_two_to_the_sixteenth() {
    assert_eq!(SCALE, 65536);
}

#[test]
fn isqrt_of_small_numbers() {
    assert_eq!(isqrt(0), 0);
    assert_eq!(isqrt(1), 1);
    assert_eq!(isqrt(2), 1);
    assert_eq!(isqrt(3), 1);
    assert_eq!(isqrt(4), 2);
    assert_eq!(isqrt(15), 3);
    assert_eq!(isqrt(16), 4);
    assert_eq!(isqrt(17), 4);
    assert_eq!(isqrt(1_000_000), 1000);
    assert_eq!(isqrt(999_999), 999);
}

#[test]
fn isqrt_of_the_largest_numbers() {
    assert_eq!(isqrt(u128::MAX), u64::MAX);
    let top: u128 = (u64::MAX as u128) * (u64::MAX as u128);
    assert_eq!(isqrt(top), u64::MAX);
    assert_eq!(isqrt(top - 1), u64::MAX - 1);
    assert_eq!(isqrt(1u128 << 64), 1u64 << 32);
    assert_eq!(isqrt((1u128 << 64) - 1), (1u64 << 32) - 1);
}

#[test]
fn isqrt_brackets_its_argument() {
    let mut n: u128 = 1;
    while n < (1u128 << 100) {
        let r: u128 = isqrt(n) as u128;
        assert!(r * r <= n);
        assert!(n < (r + 1) * (r + 1));
        n = n * 7 + 3;
    }
}

#[test]
fn zero_is_zero() {
    assert_eq!(Fixed::zero(), fx(0));
    assert_eq!(Vec2::zero(), v(0, 0));
}

#[test]
fn whole_numbers() {
    assert_eq!(Fixed::from_int(1), fx(65536));
    assert_eq!(Fixed::from_int(500), fx(32768000));
    assert_eq!(Fixed::from_int(-3), fx(-196608));
    assert_eq!(Fixed::from_int(32767), fx(2147418112));
    assert_eq!(Fixed::from_int(-32768), fx(i32::MIN));
}

#[test]
fn whole_numbers_saturate() {
    assert_eq!(Fixed::from_int(32768), fx(i32::MAX));
    assert_eq!(Fixed::from_int(i32::MAX), fx(i32::MAX));
    assert_eq!(Fixed::from_int(-32769), fx(i32::MIN));
    assert_eq!(Fixed::from_int(i32::MIN), fx(i32::MIN));
}

#[test]
fn ratios_round_toward_zero() {
    assert_eq!(Fixed::from_ratio(1, 60), Some(fx(1092)));
    assert_eq!(Fixed::from_ratio(1, 3), Some(fx(21845)));
    assert_eq!(Fixed::from_ratio(-1, 3), Some(fx(-21845)));
    assert_eq!(Fixed::from_ratio(1, -3), Some(fx(-21845)));
    assert_eq!(Fixed::from_ratio(-1, -3), Some(fx(21845)));
    assert_eq!(Fixed::from_ratio(7, 2), Some(fx(229376)));
    assert_eq!(Fixed::from_ratio(0, 5), Some(fx(0)));
}

#[test]
fn ratio_with_zero_divisor_is_refused() {
    assert_eq!(Fixed::from_ratio(1, 0), None);
    assert_eq!(Fixed::from_ratio(0, 0), None);
}

#[test]
fn ratios_saturate() {
    assert_eq!(Fixed::from_ratio(i32::MAX, 1), Some(fx(i32::MAX)));
    assert_eq!(Fixed::from_ratio(i32::MIN, 1), Some(fx(i32::MIN)));
    assert_eq!(Fixed::from_ratio(i32::MIN, -1), Some(fx(i32::MAX)));
}

#[test]
fn sums_saturate() {
    assert_eq!(fx(5).saturating_add(fx(-7)), fx(-2));
    assert_eq!(fx(i32::MAX).saturating_add(fx(1)), fx(i32::MAX));
    assert_eq!(fx(i32::MIN).saturating_add(fx(-1)), fx(i32::MIN));
    assert_eq!(v(1, i32::MAX).saturating_add(v(2, 5)), v(3, i32::MAX));
}

#[test]
fn reflect_about_a_horizontal_surface_is_exact() {
    let n = v(0, -65536);
    assert_eq!(v(196608, -458752).reflect(n), v(196608, 458752));
    assert_eq!(v(12345, 21840000).reflect(n), v(12345, -21840000));
    assert_eq!(v(12345, 21840000).reflect(v(0, 65536)), v(12345, -21840000));
    assert_eq!(v(-7, 9).reflect(v(0, 3)), v(-7, -9));
}

#[test]
fn reflect_about_a_vertical_surface_is_exact() {
    assert_eq!(v(-1966080, 2621440).reflect(v(65536, 0)), v(1966080, 2621440));
    assert_eq!(v(5, i32::MAX).reflect(v(-65536, 0)), v(-5, i32::MAX));
}

#[test]
fn reflect_about_the_zero_normal_changes_nothing() {
    assert_eq!(v(123, -456).reflect(v(0, 0)), v(123, -456));
}

#[test]
fn reflect_saturates() {
    assert_eq!(v(0, i32::MIN).reflect(v(0, 65536)), v(0, i32::MAX));
}

#[test]
fn reflect_about_a_slanted_normal() {
    assert_eq!(v(65536, 0).reflect(v(46341, 46341)), v(0, -65536));
    assert_eq!(v(6553600, 3276800).reflect(v(39321, 52428)), v(-1310720, -7208960));
    assert_eq!(v(0, 6553600).reflect(v(-39958, -51945)), v(-6334347, -1680987));
}

#[test]
fn reflect_of_a_vector_too_short_to_turn() {
    assert_eq!(v(1, 0).reflect(v(39322, 52429)), v(1, 0));
}

#[test]
fn reflect_turns_the_normal_part_and_keeps_the_rest() {
    let normals = [v(39321, 52428), v(46340, 46340), v(-39958, -51945), v(65536, 0), v(3, -4)];
    let vectors = [v(6553600, 3276800), v(-1, 77), v(123456789, -987654321), v(0, 0), v(5, 5)];
    for n in normals {
        let bound: i128 = (n.x.raw as i128).abs() + (n.y.raw as i128).abs();
        for w in vectors {
            let r = w.reflect(n);
            assert!((dot(r, n) + dot(w, n)).abs() < bound);
            assert!((cross(n, r) - cross(n, w)).abs() < bound);
        }
    }
}

#[test]
fn reflect_twice_about_an_axis_gives_the_vector_back() {
    let n = v(0, -65536);
    let w = v(-31, 4242);
    assert_eq!(w.reflect(n).reflect(n), w);
}
