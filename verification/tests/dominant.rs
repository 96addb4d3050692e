use apixels::colors::Rgb24;
use apixels::dominant::{isqrt, two_most_dominant};

#[test]
fn identical_pixels_give_that_pixel_twice() {
    for p in [(0u8, 0u8, 0u8), (255, 255, 255), (255, 0, 0), (17, 99, 203)] {
        for n in [1usize, 2, 6, 100] {
            let mut bytes = Vec::new();
            for _ in 0..n {
                bytes.extend_from_slice(&[p.0, p.1, p.2]);
            }
            let pair = two_most_dominant(&bytes);
            let colour = Rgb24 { r: p.0, g: p.1, b: p.2 };
            assert_eq!(pair, [colour, colour]);
        }
    }
}

#[test]
fn summary_is_the_quadratic_mean() {
    let bytes = [10, 20, 30, 10, 20, 30, 200, 100, 50];
    let pair = two_most_dominant(&bytes);
    // red: (100 + 100 + 40000) / 3 = 13400, root 115; green: 3600, root 60;
    // blue: (900 + 900 + 2500) / 3 = 1433, root 37
    assert_eq!(pair[1], Rgb24 { r: 115, g: 60, b: 37 });
    // the mode (10, 20, 30) blended with the summary
    assert_eq!(pair[0], Rgb24 { r: 62, g: 40, b: 33 });
}

#[test]
fn ties_go_to_the_least_colour() {
    let pair = two_most_dominant(&[5, 5, 5, 1, 2, 3]);
    // squares: (25 + 1) / 2 = 13 -> 3, (25 + 4) / 2 = 14 -> 3, (25 + 9) / 2 = 17 -> 4
    assert_eq!(pair[1], Rgb24 { r: 3, g: 3, b: 4 });
    assert_eq!(pair[0], Rgb24 { r: 2, g: 2, b: 3 });
    let other_order = two_most_dominant(&[1, 2, 3, 5, 5, 5]);
    assert_eq!(other_order, pair);
    let by_green = two_most_dominant(&[9, 9, 0, 9, 1, 200]);
    // the mode is (9, 1, 200): equal red, less green
    assert_eq!(by_green[1], Rgb24 { r: 9, g: 6, b: 141 });
    assert_eq!(by_green[0], Rgb24 { r: 9, g: 3, b: 170 });
}

#[test]
fn most_frequent_colour_wins() {
    let bytes = [
        0, 0, 0, 255, 255, 255, 255, 255, 255, 0, 0, 0, 255, 255, 255,
    ];
    let pair = two_most_dominant(&bytes);
    // squares: 3 * 65025 / 5 = 39015, root 197
    assert_eq!(pair[1], Rgb24 { r: 197, g: 197, b: 197 });
    assert_eq!(pair[0], Rgb24 { r: 226, g: 226, b: 226 });
}

#[test]
fn bytes_after_the_last_whole_pixel_are_left_out() {
    let pair = two_most_dominant(&[7, 8, 9, 200, 200]);
    assert_eq!(pair, [Rgb24 { r: 7, g: 8, b: 9 }, Rgb24 { r: 7, g: 8, b: 9 }]);
}

#[test]
fn isqrt_rounds_down() {
    assert_eq!(isqrt(0), 0);
    assert_eq!(isqrt(1), 1);
    assert_eq!(isqrt(3), 1);
    assert_eq!(isqrt(4), 2);
    assert_eq!(isqrt(65024), 254);
    assert_eq!(isqrt(65025), 255);
    assert_eq!(isqrt(u32::MAX), 65535);
    for n in 0..2000u32 {
        let r = isqrt(n);
        assert!(r * r <= n && n < (r + 1) * (r + 1));
    }
}
