use style_values::axis::{Length, Rgba};
use style_values::css::{box_shadow_to_css, parse_box_shadow};
use style_values::effects::{
    ComputedBoxShadow, GenericBoxShadow, GenericSimpleShadow, SpecifiedBoxShadow, SpecifiedColor,
    SpecifiedFilter, SpecifiedLength,
};
use style_values::pipeline::{
    box_shadow_to_computed, box_shadow_to_resolved, filter_list_to_computed, filter_list_to_resolved,
    length_to_computed, ComputeContext, ResolveContext,
};
use style_values::StageError;

fn red() -> Rgba {
    Rgba { red: 255, green: 0, blue: 0, alpha: 255 }
}

fn empty_context() -> ComputeContext {
    ComputeContext {
        percent_basis: None,
        font_size: None,
        current_color: Rgba { red: 0, green: 0, blue: 0, alpha: 255 },
    }
}

fn specified_shadow() -> SpecifiedBoxShadow {
    GenericBoxShadow {
        base: GenericSimpleShadow {
            color: SpecifiedColor::Rgba(red()),
            horizontal: SpecifiedLength::Absolute(200),
            vertical: SpecifiedLength::Absolute(200),
            blur: SpecifiedLength::Absolute(400),
        },
        spread: SpecifiedLength::Absolute(0),
        inset: true,
    }
}

#[test]
fn specified_box_shadow_computes_and_reserializes() {
    // box-shadow: 2px 2px 4px red inset, converted with an empty context.
    let computed = box_shadow_to_computed(&specified_shadow(), &empty_context()).unwrap();
    let expected: ComputedBoxShadow = GenericBoxShadow {
        base: GenericSimpleShadow {
            color: red(),
            horizontal: Length { au: 200 },
            vertical: Length { au: 200 },
            blur: Length { au: 400 },
        },
        spread: Length { au: 0 },
        inset: true,
    };
    assert_eq!(computed, expected);
    let text = box_shadow_to_css(&computed);
    assert_eq!(text, "#ff0000ff 2px 2px 4px 0px inset");
    let reparsed = parse_box_shadow(text.as_str()).unwrap();
    assert_eq!(reparsed, computed);
}

#[test]
fn conversion_is_deterministic_under_equal_contexts() {
    let ctx = empty_context();
    let first = box_shadow_to_computed(&specified_shadow(), &ctx);
    let second = box_shadow_to_computed(&specified_shadow(), &ctx);
    assert_eq!(first, second);
}

#[test]
fn percentages_resolve_against_the_basis() {
    let ctx = ComputeContext { percent_basis: Some(20000), ..empty_context() };
    // 50% of a 200px basis is 100px.
    assert_eq!(
        length_to_computed(&SpecifiedLength::Percent(500), &ctx),
        Ok(Length { au: 10000 })
    );
    // -25% of the same basis.
    assert_eq!(
        length_to_computed(&SpecifiedLength::Percent(-250), &ctx),
        Ok(Length { au: -5000 })
    );
}

#[test]
fn font_relative_lengths_resolve_against_the_font_size() {
    let ctx = ComputeContext { font_size: Some(1600), ..empty_context() };
    // 1.5em at a 16px font is 24px.
    assert_eq!(length_to_computed(&SpecifiedLength::Em(1500), &ctx), Ok(Length { au: 2400 }));
}

#[test]
fn missing_percent_basis_is_a_malformed_context() {
    assert_eq!(
        length_to_computed(&SpecifiedLength::Percent(500), &empty_context()),
        Err(StageError::MissingPercentBasis)
    );
}

#[test]
fn missing_font_size_is_a_malformed_context() {
    assert_eq!(
        length_to_computed(&SpecifiedLength::Em(1000), &empty_context()),
        Err(StageError::MissingFontSize)
    );
}

#[test]
fn currentcolor_resolves_to_the_context_color() {
    let ctx = ComputeContext {
        current_color: Rgba { red: 1, green: 2, blue: 3, alpha: 4 },
        ..empty_context()
    };
    let mut spec = specified_shadow();
    spec.base.color = SpecifiedColor::CurrentColor;
    let computed = box_shadow_to_computed(&spec, &ctx).unwrap();
    assert_eq!(computed.base.color, Rgba { red: 1, green: 2, blue: 3, alpha: 4 });
}

#[test]
fn chain_conversion_reports_the_first_missing_datum() {
    let fs = vec![
        SpecifiedFilter::Blur(SpecifiedLength::Absolute(200)),
        SpecifiedFilter::Blur(SpecifiedLength::Percent(100)),
        SpecifiedFilter::Blur(SpecifiedLength::Em(100)),
    ];
    assert_eq!(
        filter_list_to_computed(&fs, &empty_context()),
        Err(StageError::MissingPercentBasis)
    );
}

#[test]
fn chain_conversion_converts_every_entry() {
    let ctx = ComputeContext { percent_basis: Some(20000), ..empty_context() };
    let fs = vec![
        SpecifiedFilter::Blur(SpecifiedLength::Percent(100)),
        SpecifiedFilter::Opacity(style_values::axis::Factor { milli: 500 }),
    ];
    let computed = filter_list_to_computed(&fs, &ctx).unwrap();
    assert_eq!(
        computed,
        vec![
            style_values::effects::ComputedFilter::Blur(Length { au: 2000 }),
            style_values::effects::ComputedFilter::Opacity(style_values::axis::Factor {
                milli: 500
            }),
        ]
    );
}

#[test]
fn oversized_relative_lengths_clamp_to_the_axis_bound() {
    const AXIS_MAX: i32 = 0x100_0000;
    let ctx = ComputeContext { percent_basis: Some(AXIS_MAX), ..empty_context() };
    // An enormous percentage of an enormous basis saturates instead of
    // overflowing.
    assert_eq!(
        length_to_computed(&SpecifiedLength::Percent(AXIS_MAX), &ctx),
        Ok(Length { au: AXIS_MAX })
    );
    assert_eq!(
        length_to_computed(&SpecifiedLength::Percent(-AXIS_MAX), &ctx),
        Ok(Length { au: -AXIS_MAX })
    );
}

#[test]
fn late_resolution_substitutes_the_computed_value_unchanged() {
    let computed = box_shadow_to_computed(&specified_shadow(), &empty_context()).unwrap();
    let ctx = ResolveContext { box_width: 64000, box_height: 32000 };
    assert_eq!(box_shadow_to_resolved(&computed, &ctx), computed);
    let chain = vec![style_values::effects::ComputedFilter::Blur(Length { au: 200 })];
    assert_eq!(filter_list_to_resolved(&chain, &ctx), chain);
}
