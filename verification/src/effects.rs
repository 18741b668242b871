//! Generic value shapes for effect properties.
//!
//! Each composite is defined once, parameterized over the axis types that
//! occupy its semantic roles, and is instantiated with a different set of
//! concrete axis types at every pipeline stage.  Substituting axis types
//! never changes field arity or order, so a shape instantiated with the
//! stage-N axis types is a valid stage-N value by construction.

use vstd::prelude::*;
use crate::axis::{axis_in_range, Angle, Factor, Length, Rgba, UrlRef, AXIS_MAX};

verus! {

/// A generic value for a single box-shadow effect: a simple shadow plus a
/// spread radius and the discrete inset flag.  The flag is excluded from
/// animation: interpolation fails when it differs between endpoints.
#[derive(Clone, Copy, Debug, PartialEq, Eq, Structural)]
pub struct GenericBoxShadow<Color, SizeLength, BlurShapeLength, ShapeLength> {
    /// The base shadow.
    pub base: GenericSimpleShadow<Color, SizeLength, BlurShapeLength>,
    /// The spread radius.
    pub spread: ShapeLength,
    /// Whether this is an inset box shadow.
    pub inset: bool,
}

pub use self::GenericBoxShadow as BoxShadow;

/// A generic value for a single filter-chain entry: exactly one filter
/// function is active.  The URL variant refers to an externally defined
/// filter and is excluded from animation altogether.
#[derive(Clone, Copy, Debug, PartialEq, Eq, Structural)]
pub enum GenericFilter<Angle, Factor, Length, Shadow, U> {
    /// `blur(<length>)`
    Blur(Length),
    /// `brightness(<factor>)`
    Brightness(Factor),
    /// `contrast(<factor>)`
    Contrast(Factor),
    /// `grayscale(<factor>)`
    Grayscale(Factor),
    /// `hue-rotate(<angle>)`
    HueRotate(Angle),
    /// `invert(<factor>)`
    Invert(Factor),
    /// `opacity(<factor>)`
    Opacity(Factor),
    /// `saturate(<factor>)`
    Saturate(Factor),
    /// `sepia(<factor>)`
    Sepia(Factor),
    /// `drop-shadow(<shadow>)`
    DropShadow(Shadow),
    /// `<url>`
    Url(U),
}

pub use self::GenericFilter as Filter;

/// A generic value for the drop-shadow filter and the text-shadow
/// property.  The color is serialised first, before the offsets.
#[derive(Clone, Copy, Debug, PartialEq, Eq, Structural)]
pub struct GenericSimpleShadow<Color, SizeLength, ShapeLength> {
    /// Color.
    pub color: Color,
    /// Horizontal offset.
    pub horizontal: SizeLength,
    /// Vertical offset.
    pub vertical: SizeLength,
    /// Blur radius.
    pub blur: ShapeLength,
}

pub use self::GenericSimpleShadow as SimpleShadow;

/// An author-specified length: absolute, or relative to a datum that the
/// compute-stage context supplies.
#[derive(Clone, Copy, Debug, PartialEq, Eq, Structural)]
pub enum SpecifiedLength {
    /// An absolute length in hundredths of a pixel.
    Absolute(i32),
    /// Thousandths of the context's percentage basis.
    Percent(i32),
    /// Thousandths of the context's font size.
    Em(i32),
}

/// An author-specified color: a concrete color, or the keyword resolved
/// against the context's current color.
#[derive(Clone, Copy, Debug, PartialEq, Eq, Structural)]
pub enum SpecifiedColor {
    /// A concrete color.
    Rgba(Rgba),
    /// The `currentcolor` keyword.
    CurrentColor,
}

/// Specified-stage simple shadow.
pub type SpecifiedSimpleShadow = GenericSimpleShadow<SpecifiedColor, SpecifiedLength, SpecifiedLength>;

/// Specified-stage box shadow.
pub type SpecifiedBoxShadow = GenericBoxShadow<SpecifiedColor, SpecifiedLength, SpecifiedLength, SpecifiedLength>;

/// Specified-stage filter-chain entry.
pub type SpecifiedFilter = GenericFilter<Angle, Factor, SpecifiedLength, SpecifiedSimpleShadow, UrlRef>;

/// Computed-stage simple shadow: every axis resolved to an absolute value.
pub type ComputedSimpleShadow = GenericSimpleShadow<Rgba, Length, Length>;

/// Computed-stage box shadow.
pub type ComputedBoxShadow = GenericBoxShadow<Rgba, Length, Length, Length>;

/// Computed-stage filter-chain entry.
pub type ComputedFilter = GenericFilter<Angle, Factor, Length, ComputedSimpleShadow, UrlRef>;

/// Resolved-stage simple shadow.  These shapes carry nothing that depends
/// on final layout, so the resolved axis types coincide with the computed
/// ones; the late resolution hop substitutes them unchanged.
pub type ResolvedSimpleShadow = ComputedSimpleShadow;

/// Resolved-stage box shadow.
pub type ResolvedBoxShadow = ComputedBoxShadow;

/// Resolved-stage filter-chain entry.
pub type ResolvedFilter = ComputedFilter;

/// Well-formedness of a computed length.
pub open spec fn length_wf(v: Length) -> bool {
    axis_in_range(v.au as int)
}

/// Well-formedness of a blur radius: a blur is never negative.
pub open spec fn blur_wf(v: Length) -> bool {
    0 <= v.au <= AXIS_MAX
}

/// Well-formedness of a factor.
pub open spec fn factor_wf(v: Factor) -> bool {
    axis_in_range(v.milli as int)
}

/// Well-formedness of an angle.
pub open spec fn angle_wf(v: Angle) -> bool {
    axis_in_range(v.millideg as int)
}

/// Well-formedness of a computed simple shadow.
pub open spec fn computed_simple_shadow_wf(s: ComputedSimpleShadow) -> bool {
    &&& length_wf(s.horizontal)
    &&& length_wf(s.vertical)
    &&& blur_wf(s.blur)
}

/// Well-formedness of a computed box shadow.
pub open spec fn computed_box_shadow_wf(s: ComputedBoxShadow) -> bool {
    &&& computed_simple_shadow_wf(s.base)
    &&& length_wf(s.spread)
}

/// Well-formedness of a computed filter-chain entry.
pub open spec fn computed_filter_wf(f: ComputedFilter) -> bool {
    match f {
        GenericFilter::Blur(l) => blur_wf(l),
        GenericFilter::Brightness(x) => factor_wf(x),
        GenericFilter::Contrast(x) => factor_wf(x),
        GenericFilter::Grayscale(x) => factor_wf(x),
        GenericFilter::HueRotate(a) => angle_wf(a),
        GenericFilter::Invert(x) => factor_wf(x),
        GenericFilter::Opacity(x) => factor_wf(x),
        GenericFilter::Saturate(x) => factor_wf(x),
        GenericFilter::Sepia(x) => factor_wf(x),
        GenericFilter::DropShadow(s) => computed_simple_shadow_wf(s),
        GenericFilter::Url(_) => true,
    }
}

/// Well-formedness of a computed filter chain.
pub open spec fn filter_list_wf(fs: Seq<ComputedFilter>) -> bool {
    forall|i: int| 0 <= i < fs.len() ==> computed_filter_wf(#[trigger] fs[i])
}

/// Well-formedness of a specified length.
pub open spec fn specified_length_wf(v: SpecifiedLength) -> bool {
    match v {
        SpecifiedLength::Absolute(au) => axis_in_range(au as int),
        SpecifiedLength::Percent(p) => axis_in_range(p as int),
        SpecifiedLength::Em(e) => axis_in_range(e as int),
    }
}

/// Well-formedness of a specified blur radius: non-negative in every form.
pub open spec fn specified_blur_wf(v: SpecifiedLength) -> bool {
    &&& specified_length_wf(v)
    &&& match v {
        SpecifiedLength::Absolute(au) => au >= 0,
        SpecifiedLength::Percent(p) => p >= 0,
        SpecifiedLength::Em(e) => e >= 0,
    }
}

/// Well-formedness of a specified simple shadow.
pub open spec fn specified_simple_shadow_wf(s: SpecifiedSimpleShadow) -> bool {
    &&& specified_length_wf(s.horizontal)
    &&& specified_length_wf(s.vertical)
    &&& specified_blur_wf(s.blur)
}

/// Well-formedness of a specified box shadow.
pub open spec fn specified_box_shadow_wf(s: SpecifiedBoxShadow) -> bool {
    &&& specified_simple_shadow_wf(s.base)
    &&& specified_length_wf(s.spread)
}

/// Well-formedness of a specified filter-chain entry.
pub open spec fn specified_filter_wf(f: SpecifiedFilter) -> bool {
    match f {
        GenericFilter::Blur(l) => specified_blur_wf(l),
        GenericFilter::Brightness(x) => factor_wf(x),
        GenericFilter::Contrast(x) => factor_wf(x),
        GenericFilter::Grayscale(x) => factor_wf(x),
        GenericFilter::HueRotate(a) => angle_wf(a),
        GenericFilter::Invert(x) => factor_wf(x),
        GenericFilter::Opacity(x) => factor_wf(x),
        GenericFilter::Saturate(x) => factor_wf(x),
        GenericFilter::Sepia(x) => factor_wf(x),
        GenericFilter::DropShadow(s) => specified_simple_shadow_wf(s),
        GenericFilter::Url(_) => true,
    }
}

/// Well-formedness of a specified filter chain.
pub open spec fn specified_filter_list_wf(fs: Seq<SpecifiedFilter>) -> bool {
    forall|i: int| 0 <= i < fs.len() ==> specified_filter_wf(#[trigger] fs[i])
}

} // verus!
