use mandelbrot::image::ImageSize;
use mandelbrot::viewport::{pixel_to_point, Viewport, COORDINATE_LIMIT};

const P: u32 = 20;

fn whole_set() -> Viewport {
    Viewport::new(0, 0, 4 << P, P).unwrap()
}

fn parts(v: &Viewport) -> (i64, i64, i64, u32) {
    (v.center_re(), v.center_im(), v.width(), v.precision())
}

fn size(side: u32) -> ImageSize {
    ImageSize::new(side).unwrap()
}

#[test]
fn viewport_bounds() {
    assert!(Viewport::new(0, 0, 1, 0).is_some());
    assert!(Viewport::new(0, 0, 0, 0).is_none());
    assert!(Viewport::new(0, 0, -1, 0).is_none());
    assert!(Viewport::new(0, 0, 1, 60).is_some());
    assert!(Viewport::new(0, 0, 1, 61).is_none());
    assert!(Viewport::new(COORDINATE_LIMIT, -COORDINATE_LIMIT, COORDINATE_LIMIT, 3).is_some());
    assert!(Viewport::new(COORDINATE_LIMIT + 1, 0, 1, 3).is_none());
    assert!(Viewport::new(0, -COORDINATE_LIMIT - 1, 1, 3).is_none());
    assert!(Viewport::new(0, 0, COORDINATE_LIMIT + 1, 3).is_none());
    assert_eq!(parts(&Viewport::new(-7, 9, 11, 13).unwrap()), (-7, 9, 11, 13));
}

#[test]
fn pixels_map_to_their_middles() {
    let v = whole_set();
    let corner = pixel_to_point(0, 0, v, size(4));
    assert_eq!((corner.re_raw(), corner.im_raw(), corner.precision()), (-1_572_864, -1_572_864, P));
    let opposite = pixel_to_point(3, 3, v, size(4));
    assert_eq!((opposite.re_raw(), opposite.im_raw()), (1_572_864, 1_572_864));
    let inner = pixel_to_point(1, 2, v, size(4));
    assert_eq!((inner.re_raw(), inner.im_raw()), (-524_288, 524_288));
    let row: Vec<i64> = (0..8).map(|x| pixel_to_point(x, 0, v, size(8)).re_raw()).collect();
    assert_eq!(
        row,
        vec![-1_835_008, -1_310_720, -786_432, -262_144, 262_144, 786_432, 1_310_720, 1_835_008]
    );
}

#[test]
fn mapping_rounds_toward_the_centre() {
    let v = Viewport::new(100, -200, 1000, 10).unwrap();
    let a = pixel_to_point(0, 0, v, size(3));
    assert_eq!((a.re_raw(), a.im_raw(), a.precision()), (-233, -533, 10));
    let b = pixel_to_point(1, 1, v, size(3));
    assert_eq!((b.re_raw(), b.im_raw()), (100, -200));
    let c = pixel_to_point(2, 0, v, size(3));
    assert_eq!((c.re_raw(), c.im_raw()), (433, -533));
}

#[test]
fn single_pixel_maps_to_the_centre() {
    let v = Viewport::new(-12, 34, 999, 5).unwrap();
    let p = pixel_to_point(0, 0, v, size(1));
    assert_eq!((p.re_raw(), p.im_raw(), p.precision()), (-12, 34, 5));
}

#[test]
fn mapping_is_deterministic() {
    let v = whole_set();
    for x in 0..16 {
        for y in 0..16 {
            assert_eq!(pixel_to_point(x, y, v, size(16)), pixel_to_point(x, y, v, size(16)));
        }
    }
}

#[test]
fn mapping_at_the_limits_stays_in_range() {
    let v = Viewport::new(COORDINATE_LIMIT, -COORDINATE_LIMIT, COORDINATE_LIMIT, 60).unwrap();
    let side = 16384;
    let low = pixel_to_point(0, 0, v, size(side));
    let high = pixel_to_point(side - 1, side - 1, v, size(side));
    assert_eq!(low.re_raw(), COORDINATE_LIMIT - 1_152_851_135_862_669_312);
    assert_eq!(high.re_raw(), COORDINATE_LIMIT + 1_152_851_135_862_669_312);
    assert_eq!(low.im_raw(), -COORDINATE_LIMIT - 1_152_851_135_862_669_312);
    assert_eq!(high.im_raw(), -COORDINATE_LIMIT + 1_152_851_135_862_669_312);
}

#[test]
fn pan_moves_the_centre_against_the_drag() {
    let v = whole_set();
    assert_eq!(parts(&v.panned(10, -5, size(100))), (-419_430, 209_715, 4 << P, P));
    assert_eq!(parts(&v.panned(-3, 7, size(2000))), (6_291, -14_680, 4 << P, P));
    assert_eq!(parts(&v.panned(0, 0, size(100))), parts(&v));
}

#[test]
fn pan_stops_at_the_limit() {
    let v = Viewport::new(COORDINATE_LIMIT - 5, 0, 1000, 10).unwrap();
    assert_eq!(parts(&v.panned(-100, 0, size(10))), (COORDINATE_LIMIT, 0, 1000, 10));
    let w = Viewport::new(0, -COORDINATE_LIMIT, COORDINATE_LIMIT, 0).unwrap();
    assert_eq!(
        parts(&w.panned(i32::MIN, i32::MAX, size(1))),
        (COORDINATE_LIMIT, -COORDINATE_LIMIT, COORDINATE_LIMIT, 0)
    );
}

#[test]
fn zoom_scales_the_width_per_tick() {
    let v = whole_set();
    assert_eq!(parts(&v.zoomed(0)), parts(&v));
    assert_eq!(parts(&v.zoomed(1)), (0, 0, 4_404_019, P));
    assert_eq!(parts(&v.zoomed(-1)), (0, 0, 3_984_588, P));
    assert_eq!(parts(&v.zoomed(3)), (0, 0, 4_855_429, P));
    assert_eq!(parts(&v.zoomed(-3)), (0, 0, 3_596_090, P));
    assert_eq!(parts(&v.zoomed(2)), parts(&v.zoomed(1).zoomed(1)));
}

#[test]
fn zoom_keeps_the_width_admissible() {
    let small = Viewport::new(0, 0, 10, P).unwrap();
    assert_eq!(small.zoomed(-1).width(), 9);
    assert_eq!(small.zoomed(1).width(), 10);
    let least = Viewport::new(0, 0, 1, P).unwrap();
    assert_eq!(least.zoomed(-5).width(), 1);
    assert_eq!(least.zoomed(i32::MIN / 1_000_000).width(), 1);
    let widest = Viewport::new(0, 0, COORDINATE_LIMIT, 0).unwrap();
    assert_eq!(widest.zoomed(1).width(), COORDINATE_LIMIT);
    let wide = Viewport::new(0, 0, COORDINATE_LIMIT - 1, 0).unwrap();
    assert_eq!(wide.zoomed(2).width(), COORDINATE_LIMIT);
}

#[test]
fn selection_replaces_the_viewport() {
    let v = whole_set();
    let chosen = v.selected(size(8), 2, 2, 5, 4).unwrap();
    assert_eq!(parts(&chosen), (0, -262_144, 1_572_864, P));
    let mirrored = v.selected(size(8), 5, 4, 2, 2).unwrap();
    assert_eq!(parts(&mirrored), parts(&chosen));
    let whole = v.selected(size(8), 0, 0, 7, 7).unwrap();
    assert_eq!(parts(&whole), (0, 0, 3_670_016, P));
}

#[test]
fn empty_or_outlying_selection_selects_nothing() {
    let v = whole_set();
    assert!(v.selected(size(8), 3, 3, 3, 3).is_none());
    assert!(v.selected(size(8), 8, 0, 1, 1).is_none());
    assert!(v.selected(size(8), 0, 8, 1, 1).is_none());
    assert!(v.selected(size(8), 0, 0, 8, 1).is_none());
    assert!(v.selected(size(8), 0, 0, 1, u32::MAX).is_none());
    let coarse = Viewport::new(0, 0, 1, 0).unwrap();
    assert!(coarse.selected(size(8), 0, 0, 7, 7).is_none());
}

#[test]
fn refine_adds_fractional_bits() {
    let v = Viewport::new(1000, -2000, 4000, 20).unwrap();
    assert_eq!(parts(&v.refined(20).unwrap()), (1000, -2000, 4000, 20));
    assert_eq!(parts(&v.refined(28).unwrap()), (256_000, -512_000, 1_024_000, 28));
    assert_eq!(parts(&v.refined(60).unwrap()), (1000 << 40, -(2000 << 40), 4000 << 40, 60));
}

#[test]
fn refine_never_lowers_the_precision() {
    let v = Viewport::new(1000, -2000, 4000, 20).unwrap();
    assert!(v.refined(19).is_none());
    assert!(v.refined(0).is_none());
    assert!(v.refined(61).is_none());
    let wide = Viewport::new(0, 0, COORDINATE_LIMIT, 10).unwrap();
    assert!(wide.refined(11).is_none());
    assert!(wide.refined(10).is_some());
    let off = Viewport::new(1 << 60, 0, 5, 10).unwrap();
    assert!(off.refined(11).is_some());
    assert!(off.refined(12).is_none());
}

#[test]
fn deepen_adds_bits_to_narrow_viewports() {
    assert_eq!(parts(&whole_set().deepened()), (0, 0, 1_073_741_824, 28));
    let v = Viewport::new(1000, -2000, 4000, 20).unwrap();
    assert_eq!(parts(&v.deepened()), (256_000, -512_000, 1_024_000, 28));
    let wide = Viewport::new(0, 0, 1 << 32, 20).unwrap();
    assert_eq!(parts(&wide.deepened()), parts(&wide));
    let full = Viewport::new(0, 0, 4000, 53).unwrap();
    assert_eq!(parts(&full.deepened()), parts(&full));
    let last = Viewport::new(0, 0, 4000, 52).unwrap();
    assert_eq!(parts(&last.deepened()), (0, 0, 1_024_000, 60));
    let off = Viewport::new(1 << 60, 0, 5, 10).unwrap();
    assert_eq!(parts(&off.deepened()), parts(&off));
}

#[test]
fn viewports_compare_by_value() {
    let v = whole_set();
    assert!(v.same(&whole_set()));
    assert!(!v.same(&v.zoomed(1)));
    assert!(!v.same(&v.panned(1, 0, size(10))));
    assert!(!v.same(&Viewport::new(0, 0, 4 << 21, 21).unwrap()));
}
