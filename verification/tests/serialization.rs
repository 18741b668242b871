use style_values::axis::{Angle, Factor, Length, Rgba, UrlRef};
use style_values::css::{
    box_shadow_to_css, filter_list_to_css, filter_to_css, parse_box_shadow, simple_shadow_to_css,
};
use style_values::effects::{ComputedBoxShadow, ComputedFilter, GenericBoxShadow, GenericSimpleShadow};

fn shadow(h: i32, v: i32, blur: i32) -> GenericSimpleShadow<Rgba, Length, Length> {
    GenericSimpleShadow {
        color: Rgba { red: 255, green: 0, blue: 0, alpha: 255 },
        horizontal: Length { au: h },
        vertical: Length { au: v },
        blur: Length { au: blur },
    }
}

fn box_shadow(h: i32, v: i32, blur: i32, spread: i32, inset: bool) -> ComputedBoxShadow {
    GenericBoxShadow { base: shadow(h, v, blur), spread: Length { au: spread }, inset }
}

#[test]
fn lengths_serialize_as_pixels_with_trimmed_decimals() {
    assert_eq!(simple_shadow_to_css(&shadow(200, 250, 205)), "#ff0000ff 2px 2.5px 2.05px");
    assert_eq!(simple_shadow_to_css(&shadow(-5, 0, 5)), "#ff0000ff -0.05px 0px 0.05px");
}

#[test]
fn the_inset_keyword_is_emitted_last() {
    assert_eq!(box_shadow_to_css(&box_shadow(200, 200, 400, 0, true)), "#ff0000ff 2px 2px 4px 0px inset");
    assert_eq!(box_shadow_to_css(&box_shadow(200, 200, 400, 0, false)), "#ff0000ff 2px 2px 4px 0px");
}

#[test]
fn colors_serialize_as_eight_hex_digits() {
    let v = GenericSimpleShadow {
        color: Rgba { red: 0x0a, green: 0xbc, blue: 0x01, alpha: 0xff },
        horizontal: Length { au: 0 },
        vertical: Length { au: 0 },
        blur: Length { au: 0 },
    };
    assert_eq!(simple_shadow_to_css(&v), "#0abc01ff 0px 0px 0px");
}

#[test]
fn filters_serialize_as_their_css_functions() {
    assert_eq!(filter_to_css(&ComputedFilter::Blur(Length { au: 200 })), "blur(2px)");
    assert_eq!(
        filter_to_css(&ComputedFilter::Brightness(Factor { milli: 1500 })),
        "brightness(150%)"
    );
    assert_eq!(
        filter_to_css(&ComputedFilter::Brightness(Factor { milli: 1505 })),
        "brightness(150.5%)"
    );
    assert_eq!(
        filter_to_css(&ComputedFilter::HueRotate(Angle { millideg: 45125 })),
        "hue-rotate(45.125deg)"
    );
    assert_eq!(
        filter_to_css(&ComputedFilter::DropShadow(shadow(100, 200, 300))),
        "drop-shadow(#ff0000ff 1px 2px 3px)"
    );
    assert_eq!(filter_to_css(&ComputedFilter::Url(UrlRef { handle: 7 })), "url(#7)");
}

#[test]
fn chains_serialize_space_separated_and_empty_chains_as_none() {
    let chain = vec![
        ComputedFilter::Blur(Length { au: 200 }),
        ComputedFilter::Sepia(Factor { milli: 300 }),
    ];
    assert_eq!(filter_list_to_css(&chain), "blur(2px) sepia(30%)");
    assert_eq!(filter_list_to_css(&Vec::new()), "none");
}

#[test]
fn canonical_box_shadow_text_reparses_to_the_same_value() {
    let values = [
        box_shadow(200, 200, 400, 0, true),
        box_shadow(-250, 5, 0, -100, false),
        box_shadow(0, 0, 0, 0, false),
    ];
    for v in values.iter() {
        let text = box_shadow_to_css(v);
        assert_eq!(parse_box_shadow(text.as_str()), Some(*v));
    }
}

#[test]
fn the_parser_rejects_noncanonical_text() {
    assert_eq!(parse_box_shadow(""), None);
    assert_eq!(parse_box_shadow("red 2px 2px 4px 0px"), None);
    assert_eq!(parse_box_shadow("#ff0000ff 2px 2px 4px"), None);
    // Canonical values never carry trailing zeros or a signed zero.
    assert_eq!(parse_box_shadow("#ff0000ff 2.50px 2px 4px 0px"), None);
    assert_eq!(parse_box_shadow("#ff0000ff 02px 2px 4px 0px"), None);
    assert_eq!(parse_box_shadow("#ff0000ff -0px 2px 4px 0px"), None);
    // A negative blur radius is rejected outright.
    assert_eq!(parse_box_shadow("#ff0000ff 2px 2px -4px 0px"), None);
    assert_eq!(parse_box_shadow("#ff0000ff 2px 2px 4px 0px inset "), None);
}
