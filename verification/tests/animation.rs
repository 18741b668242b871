use style_values::animate::{
    add_box_shadow, add_filter, add_filter_list, add_simple_shadow, animate_box_shadow,
    animate_filter_list, box_shadow_distance, filter_distance, filter_list_distance,
    interpolate_box_shadow, interpolate_filter, interpolate_filter_list, interpolate_simple_shadow,
    rgba_distance, simple_shadow_distance,
};
use style_values::axis::{Angle, Factor, Length, Progress, Rgba};
use style_values::effects::{ComputedBoxShadow, ComputedFilter, ComputedSimpleShadow, GenericBoxShadow, GenericSimpleShadow};
use style_values::Incompatible;

fn rgba(red: u8, green: u8, blue: u8, alpha: u8) -> Rgba {
    Rgba { red, green, blue, alpha }
}

fn shadow(color: Rgba, h: i32, v: i32, blur: i32) -> ComputedSimpleShadow {
    GenericSimpleShadow {
        color,
        horizontal: Length { au: h },
        vertical: Length { au: v },
        blur: Length { au: blur },
    }
}

fn box_shadow(h: i32, v: i32, blur: i32, spread: i32, inset: bool) -> ComputedBoxShadow {
    GenericBoxShadow {
        base: shadow(rgba(255, 0, 0, 255), h, v, blur),
        spread: Length { au: spread },
        inset,
    }
}

#[test]
fn distance_is_zero_on_identical_values() {
    let a = box_shadow(200, 200, 400, 0, false);
    assert_eq!(box_shadow_distance(&a, &a), Ok(0));
    let s = shadow(rgba(1, 2, 3, 4), -100, 50, 0);
    assert_eq!(simple_shadow_distance(&s, &s), 0);
    let chain = vec![ComputedFilter::Blur(Length { au: 200 })];
    assert_eq!(filter_list_distance(&chain, &chain), Ok(0));
}

#[test]
fn distance_is_symmetric() {
    let a = box_shadow(200, 200, 400, 0, false);
    let b = box_shadow(-100, 300, 0, 500, false);
    assert_eq!(box_shadow_distance(&a, &b), box_shadow_distance(&b, &a));
    let ca = vec![ComputedFilter::Brightness(Factor { milli: 1500 })];
    let cb = vec![ComputedFilter::Brightness(Factor { milli: 800 })];
    assert_eq!(filter_list_distance(&ca, &cb), filter_list_distance(&cb, &ca));
}

#[test]
fn distance_is_nonzero_on_different_values() {
    let a = box_shadow(200, 200, 400, 0, true);
    let b = box_shadow(200, 200, 401, 0, true);
    assert_eq!(box_shadow_distance(&a, &b), Ok(1));
}

#[test]
fn distance_combines_squared_per_field_distances() {
    let a = shadow(rgba(0, 0, 0, 255), 0, 0, 0);
    let b = shadow(rgba(3, 0, 0, 255), 4, 0, 0);
    // 3 * 3 on the red channel plus 4 * 4 on the horizontal offset.
    assert_eq!(simple_shadow_distance(&a, &b), 25);
    assert_eq!(rgba_distance(&rgba(10, 0, 0, 0), &rgba(0, 10, 0, 0)), 200);
}

#[test]
fn interpolation_hits_both_endpoints() {
    let a = box_shadow(200, -100, 400, 0, true);
    let b = box_shadow(-300, 500, 0, 700, true);
    assert_eq!(interpolate_box_shadow(&a, &b, Progress::new(0)), Ok(a));
    assert_eq!(interpolate_box_shadow(&a, &b, Progress::new(1000)), Ok(b));
}

#[test]
fn interpolation_midpoint_is_exact() {
    let a = shadow(rgba(0, 0, 0, 255), 100, 0, 0);
    let b = shadow(rgba(200, 0, 0, 255), 300, 0, 400);
    let mid = interpolate_simple_shadow(&a, &b, Progress::new(500));
    assert_eq!(mid, shadow(rgba(100, 0, 0, 255), 200, 0, 200));
}

#[test]
fn interpolation_distance_grows_with_progress() {
    let a = box_shadow(0, 0, 0, 0, false);
    let b = box_shadow(1000, -800, 600, 400, false);
    let early = interpolate_box_shadow(&a, &b, Progress::new(250)).unwrap();
    let late = interpolate_box_shadow(&a, &b, Progress::new(750)).unwrap();
    let d_early = box_shadow_distance(&early, &a).unwrap();
    let d_late = box_shadow_distance(&late, &a).unwrap();
    assert!(d_early <= d_late);
}

#[test]
fn inset_mismatch_is_not_animatable() {
    let inset = box_shadow(200, 200, 400, 0, true);
    let outset = box_shadow(200, 200, 400, 0, false);
    assert_eq!(interpolate_box_shadow(&inset, &outset, Progress::new(500)), Err(Incompatible {}));
    assert_eq!(box_shadow_distance(&inset, &outset), Err(Incompatible {}));
    assert_eq!(add_box_shadow(&inset, &outset), Err(Incompatible {}));
}

#[test]
fn inset_mismatch_falls_back_to_a_discrete_switch() {
    let inset = box_shadow(200, 200, 400, 0, true);
    let outset = box_shadow(-100, 0, 0, 300, false);
    let at_half = animate_box_shadow(&inset, &outset, Progress::new(500));
    // The blend at half progress is exactly one of the endpoints, never a
    // value with a blended inset flag.
    assert!(at_half == inset || at_half == outset);
    assert_eq!(animate_box_shadow(&inset, &outset, Progress::new(499)), inset);
    assert_eq!(animate_box_shadow(&inset, &outset, Progress::new(500)), outset);
    assert_eq!(animate_box_shadow(&inset, &outset, Progress::new(1000)), outset);
}

#[test]
fn variant_mismatch_is_not_animatable() {
    let blur = ComputedFilter::Blur(Length { au: 200 });
    let brightness = ComputedFilter::Brightness(Factor { milli: 1500 });
    assert_eq!(interpolate_filter(&blur, &brightness, Progress::new(500)), Err(Incompatible {}));
    assert_eq!(filter_distance(&blur, &brightness), Err(Incompatible {}));
}

#[test]
fn blur_to_brightness_falls_back_to_a_discrete_switch() {
    let a = vec![ComputedFilter::Blur(Length { au: 200 })];
    let b = vec![ComputedFilter::Brightness(Factor { milli: 1500 })];
    assert_eq!(interpolate_filter_list(&a, &b, Progress::new(500)), Err(Incompatible {}));
    assert_eq!(animate_filter_list(&a, &b, Progress::new(499)), a);
    assert_eq!(animate_filter_list(&a, &b, Progress::new(500)), b);
}

#[test]
fn url_references_never_interpolate() {
    let u = ComputedFilter::Url(style_values::axis::UrlRef { handle: 7 });
    assert_eq!(interpolate_filter(&u, &u, Progress::new(0)), Err(Incompatible {}));
    assert_eq!(filter_distance(&u, &u), Err(Incompatible {}));
}

#[test]
fn chain_length_mismatch_is_not_animatable() {
    let a = vec![ComputedFilter::Sepia(Factor { milli: 100 })];
    let b = vec![
        ComputedFilter::Sepia(Factor { milli: 100 }),
        ComputedFilter::Invert(Factor { milli: 200 }),
    ];
    assert_eq!(interpolate_filter_list(&a, &b, Progress::new(500)), Err(Incompatible {}));
}

#[test]
fn compatible_chains_interpolate_entrywise() {
    let a = vec![
        ComputedFilter::Blur(Length { au: 0 }),
        ComputedFilter::HueRotate(Angle { millideg: 0 }),
    ];
    let b = vec![
        ComputedFilter::Blur(Length { au: 400 }),
        ComputedFilter::HueRotate(Angle { millideg: 90000 }),
    ];
    let mid = interpolate_filter_list(&a, &b, Progress::new(500)).unwrap();
    assert_eq!(
        mid,
        vec![
            ComputedFilter::Blur(Length { au: 200 }),
            ComputedFilter::HueRotate(Angle { millideg: 45000 }),
        ]
    );
}

#[test]
fn additive_composition_adds_fieldwise_and_saturates() {
    let a = shadow(rgba(200, 100, 0, 255), 100, -100, 300);
    let b = shadow(rgba(100, 50, 1, 255), 50, -50, 100);
    let sum = add_simple_shadow(&a, &b);
    assert_eq!(sum, shadow(rgba(255, 150, 1, 255), 150, -150, 400));
    const AXIS_MAX: i32 = 0x100_0000;
    let big = shadow(rgba(0, 0, 0, 255), AXIS_MAX, -AXIS_MAX, AXIS_MAX);
    let clamped = add_simple_shadow(&big, &big);
    assert_eq!(clamped, shadow(rgba(0, 0, 0, 255), AXIS_MAX, -AXIS_MAX, AXIS_MAX));
}

#[test]
fn additive_composition_of_chains_is_entrywise() {
    let a = vec![ComputedFilter::Saturate(Factor { milli: 1200 })];
    let b = vec![ComputedFilter::Saturate(Factor { milli: 300 })];
    assert_eq!(
        add_filter_list(&a, &b),
        Ok(vec![ComputedFilter::Saturate(Factor { milli: 1500 })])
    );
    let blur = ComputedFilter::Blur(Length { au: 100 });
    let sepia = ComputedFilter::Sepia(Factor { milli: 100 });
    assert_eq!(add_filter(&blur, &sepia), Err(Incompatible {}));
    assert_eq!(
        add_filter_list(&vec![blur], &vec![sepia]),
        Err(Incompatible {})
    );
}

#[test]
fn progress_clamps_to_the_end_of_the_range() {
    assert_eq!(Progress::new(1500).milli, 1000);
    assert_eq!(Progress::new(250).milli, 250);
}
