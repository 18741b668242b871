//! The stage transform pipeline.
//!
//! Two pure, context-dependent conversions carry a value between stages.
//! The first resolves author-specified relative units and keywords against
//! a per-element compute context supplied by the cascade engine.  The
//! second substitutes the computed axis types for their resolved
//! counterparts against a layout-time context; the shapes defined here
//! carry nothing layout-dependent, so that substitution is the identity.
//! Both conversions are deterministic functions of (value, context) and
//! consult no global state.

use vstd::prelude::*;
use vstd::arithmetic::div_mod::*;
use vstd::arithmetic::mul::*;
use crate::axis::{clamp_axis, Length, Rgba, AXIS_MAX};
use crate::effects::{
    blur_wf, computed_box_shadow_wf, computed_filter_wf, computed_simple_shadow_wf, filter_list_wf,
    length_wf, specified_blur_wf, specified_box_shadow_wf, specified_filter_list_wf,
    specified_filter_wf, specified_length_wf, specified_simple_shadow_wf, ComputedBoxShadow,
    ComputedFilter, ComputedSimpleShadow, GenericBoxShadow, GenericFilter, GenericSimpleShadow,
    ResolvedBoxShadow, ResolvedFilter, ResolvedSimpleShadow, SpecifiedBoxShadow, SpecifiedColor,
    SpecifiedFilter, SpecifiedLength, SpecifiedSimpleShadow,
};
use crate::StageError;

verus! {

/// The per-element resolution context for the Specified -> Computed hop,
/// supplied by the (external) cascade engine.  A datum that the element's
/// surroundings did not determine is absent, and converting a value that
/// needs it is a malformed-context error.
#[derive(Clone, Copy, Debug, PartialEq, Eq, Structural)]
pub struct ComputeContext {
    /// Basis for percentage lengths, in hundredths of a pixel.
    pub percent_basis: Option<i32>,
    /// Font size for font-relative lengths, in hundredths of a pixel.
    pub font_size: Option<i32>,
    /// The color that `currentcolor` resolves to.
    pub current_color: Rgba,
}

/// Well-formedness of a compute context: supplied bases are non-negative
/// and within the axis bound.
pub open spec fn compute_context_wf(ctx: ComputeContext) -> bool {
    &&& match ctx.percent_basis {
        Option::Some(b) => 0 <= b <= AXIS_MAX,
        Option::None => true,
    }
    &&& match ctx.font_size {
        Option::Some(f) => 0 <= f <= AXIS_MAX,
        Option::None => true,
    }
}

/// The layout-time context for the Computed -> Resolved hop, supplied at
/// paint or animation time.  The effect shapes in this crate carry no
/// layout-dependent axis, so the hop reads nothing from it; it is passed
/// all the same so every property converts through the same interface.
#[derive(Clone, Copy, Debug, PartialEq, Eq, Structural)]
pub struct ResolveContext {
    /// Final border-box width, in hundredths of a pixel.
    pub box_width: i32,
    /// Final border-box height, in hundredths of a pixel.
    pub box_height: i32,
}

/// `x * y / 1000`, rounded toward zero; `y` is non-negative.
pub open spec fn scale_by_milli(x: int, y: int) -> int {
    if x >= 0 {
        (x * y) / 1000
    } else {
        -((-x * y) / 1000)
    }
}

/// True when the context supplies every datum this length needs.
pub open spec fn length_context_adequate(v: SpecifiedLength, ctx: ComputeContext) -> bool {
    match v {
        SpecifiedLength::Absolute(_) => true,
        SpecifiedLength::Percent(_) => ctx.percent_basis is Some,
        SpecifiedLength::Em(_) => ctx.font_size is Some,
    }
}

/// What the Specified -> Computed hop yields for one length: absolute
/// lengths pass through, relative ones scale against their context datum
/// and clamp into the axis bound, and a missing datum is the
/// malformed-context error naming it.
pub open spec fn spec_length_to_computed(v: SpecifiedLength, ctx: ComputeContext) -> Result<
    Length,
    StageError,
> {
    match v {
        SpecifiedLength::Absolute(au) => Ok(Length { au }),
        SpecifiedLength::Percent(p) => match ctx.percent_basis {
            Option::Some(basis) => Ok(
                Length { au: clamp_axis(scale_by_milli(p as int, basis as int)) as i32 },
            ),
            Option::None => Err(StageError::MissingPercentBasis),
        },
        SpecifiedLength::Em(e) => match ctx.font_size {
            Option::Some(fs) => Ok(
                Length { au: clamp_axis(scale_by_milli(e as int, fs as int)) as i32 },
            ),
            Option::None => Err(StageError::MissingFontSize),
        },
    }
}

/// What the Specified -> Computed hop yields for one color.
pub open spec fn spec_color_to_computed(v: SpecifiedColor, ctx: ComputeContext) -> Rgba {
    match v {
        SpecifiedColor::Rgba(c) => c,
        SpecifiedColor::CurrentColor => ctx.current_color,
    }
}

/// Scales a non-negative magnitude by `milli` thousandths and clamps to
/// the axis bound.
fn scale_mag_by_milli(mag: u32, scale: u32) -> (r: u32)
    requires
        mag <= AXIS_MAX,
        scale <= AXIS_MAX,
    ensures
        r as int == clamp_axis((mag as int * scale as int) / 1000),
        r <= AXIS_MAX,
{
    proof {
        lemma_mul_nonnegative(mag as int, scale as int);
        lemma_div_pos_is_pos(mag as int * scale as int, 1000);
        lemma_mul_upper_bound(mag as int, AXIS_MAX as int, scale as int, AXIS_MAX as int);
    }
    let wide: u64 = (mag as u64) * (scale as u64) / 1000;
    if wide > AXIS_MAX as u64 {
        AXIS_MAX as u32
    } else {
        wide as u32
    }
}

/// Converts one length to its computed form.
pub fn length_to_computed(v: &SpecifiedLength, ctx: &ComputeContext) -> (r: Result<
    Length,
    StageError,
>)
    requires
        specified_length_wf(*v),
        compute_context_wf(*ctx),
    ensures
        r == spec_length_to_computed(*v, *ctx),
        r is Ok <==> length_context_adequate(*v, *ctx),
        r is Ok ==> length_wf(r.unwrap()),
{
    match v {
        SpecifiedLength::Absolute(au) => Ok(Length { au: *au }),
        SpecifiedLength::Percent(p) => match ctx.percent_basis {
            Some(basis) => {
                let mag: u32 = if *p >= 0 {
                    *p as u32
                } else {
                    (-*p) as u32
                };
                let scaled: u32 = scale_mag_by_milli(mag, basis as u32);
                let au: i32 = if *p >= 0 {
                    scaled as i32
                } else {
                    -(scaled as i32)
                };
                Ok(Length { au })
            },
            None => Err(StageError::MissingPercentBasis),
        },
        SpecifiedLength::Em(e) => match ctx.font_size {
            Some(fs) => {
                let mag: u32 = if *e >= 0 {
                    *e as u32
                } else {
                    (-*e) as u32
                };
                let scaled: u32 = scale_mag_by_milli(mag, fs as u32);
                let au: i32 = if *e >= 0 {
                    scaled as i32
                } else {
                    -(scaled as i32)
                };
                Ok(Length { au })
            },
            None => Err(StageError::MissingFontSize),
        },
    }
}

/// Converts one color to its computed form.
pub fn color_to_computed(v: &SpecifiedColor, ctx: &ComputeContext) -> (r: Rgba)
    ensures
        r == spec_color_to_computed(*v, *ctx),
{
    match v {
        SpecifiedColor::Rgba(c) => *c,
        SpecifiedColor::CurrentColor => ctx.current_color,
    }
}

/// True when the context supplies every datum this simple shadow needs.
pub open spec fn simple_shadow_context_adequate(
    s: SpecifiedSimpleShadow,
    ctx: ComputeContext,
) -> bool {
    &&& length_context_adequate(s.horizontal, ctx)
    &&& length_context_adequate(s.vertical, ctx)
    &&& length_context_adequate(s.blur, ctx)
}

/// What the Specified -> Computed hop yields for a simple shadow: each
/// field converts independently, and the first missing datum (in field
/// order) is the error.
pub open spec fn spec_simple_shadow_to_computed(
    s: SpecifiedSimpleShadow,
    ctx: ComputeContext,
) -> Result<ComputedSimpleShadow, StageError> {
    match spec_length_to_computed(s.horizontal, ctx) {
        Ok(h) => match spec_length_to_computed(s.vertical, ctx) {
            Ok(v) => match spec_length_to_computed(s.blur, ctx) {
                Ok(b) => Ok(
                    GenericSimpleShadow {
                        color: spec_color_to_computed(s.color, ctx),
                        horizontal: h,
                        vertical: v,
                        blur: b,
                    },
                ),
                Err(e) => Err(e),
            },
            Err(e) => Err(e),
        },
        Err(e) => Err(e),
    }
}

/// A non-negative specified blur stays non-negative through conversion.
proof fn lemma_blur_to_computed_nonneg(v: SpecifiedLength, ctx: ComputeContext)
    requires
        specified_blur_wf(v),
        compute_context_wf(ctx),
        length_context_adequate(v, ctx),
    ensures
        blur_wf(spec_length_to_computed(v, ctx).unwrap()),
{
    match v {
        SpecifiedLength::Absolute(_) => {},
        SpecifiedLength::Percent(p) => {
            let basis = ctx.percent_basis.unwrap();
            lemma_mul_nonnegative(p as int, basis as int);
            lemma_div_pos_is_pos(p as int * basis as int, 1000);
        },
        SpecifiedLength::Em(e) => {
            let fs = ctx.font_size.unwrap();
            lemma_mul_nonnegative(e as int, fs as int);
            lemma_div_pos_is_pos(e as int * fs as int, 1000);
        },
    }
}

/// Converts a simple shadow to its computed form.
pub fn simple_shadow_to_computed(s: &SpecifiedSimpleShadow, ctx: &ComputeContext) -> (r: Result<
    ComputedSimpleShadow,
    StageError,
>)
    requires
        specified_simple_shadow_wf(*s),
        compute_context_wf(*ctx),
    ensures
        r == spec_simple_shadow_to_computed(*s, *ctx),
        r is Ok <==> simple_shadow_context_adequate(*s, *ctx),
        r is Ok ==> computed_simple_shadow_wf(r.unwrap()),
{
    let horizontal = match length_to_computed(&s.horizontal, ctx) {
        Ok(h) => h,
        Err(e) => {
            return Err(e);
        },
    };
    let vertical = match length_to_computed(&s.vertical, ctx) {
        Ok(v) => v,
        Err(e) => {
            return Err(e);
        },
    };
    let blur = match length_to_computed(&s.blur, ctx) {
        Ok(b) => b,
        Err(e) => {
            return Err(e);
        },
    };
    proof {
        lemma_blur_to_computed_nonneg(s.blur, *ctx);
    }
    Ok(
        GenericSimpleShadow {
            color: color_to_computed(&s.color, ctx),
            horizontal,
            vertical,
            blur,
        },
    )
}

/// True when the context supplies every datum this box shadow needs.
pub open spec fn box_shadow_context_adequate(s: SpecifiedBoxShadow, ctx: ComputeContext) -> bool {
    &&& simple_shadow_context_adequate(s.base, ctx)
    &&& length_context_adequate(s.spread, ctx)
}

/// What the Specified -> Computed hop yields for a box shadow.
pub open spec fn spec_box_shadow_to_computed(s: SpecifiedBoxShadow, ctx: ComputeContext) -> Result<
    ComputedBoxShadow,
    StageError,
> {
    match spec_simple_shadow_to_computed(s.base, ctx) {
        Ok(base) => match spec_length_to_computed(s.spread, ctx) {
            Ok(spread) => Ok(GenericBoxShadow { base, spread, inset: s.inset }),
            Err(e) => Err(e),
        },
        Err(e) => Err(e),
    }
}

/// Converts a box shadow to its computed form.  The inset flag passes
/// through untouched.
pub fn box_shadow_to_computed(s: &SpecifiedBoxShadow, ctx: &ComputeContext) -> (r: Result<
    ComputedBoxShadow,
    StageError,
>)
    requires
        specified_box_shadow_wf(*s),
        compute_context_wf(*ctx),
    ensures
        r == spec_box_shadow_to_computed(*s, *ctx),
        r is Ok <==> box_shadow_context_adequate(*s, *ctx),
        r is Ok ==> computed_box_shadow_wf(r.unwrap()),
        r is Ok ==> r.unwrap().inset == s.inset,
{
    let base = match simple_shadow_to_computed(&s.base, ctx) {
        Ok(b) => b,
        Err(e) => {
            return Err(e);
        },
    };
    let spread = match length_to_computed(&s.spread, ctx) {
        Ok(sp) => sp,
        Err(e) => {
            return Err(e);
        },
    };
    Ok(GenericBoxShadow { base, spread, inset: s.inset })
}

/// True when the context supplies every datum this filter entry needs.
pub open spec fn filter_context_adequate(f: SpecifiedFilter, ctx: ComputeContext) -> bool {
    match f {
        GenericFilter::Blur(l) => length_context_adequate(l, ctx),
        GenericFilter::DropShadow(s) => simple_shadow_context_adequate(s, ctx),
        _ => true,
    }
}

/// What the Specified -> Computed hop yields for one filter entry:
/// factors, angles and URL references are already absolute; lengths and
/// drop shadows convert field-wise.
pub open spec fn spec_filter_to_computed(f: SpecifiedFilter, ctx: ComputeContext) -> Result<
    ComputedFilter,
    StageError,
> {
    match f {
        GenericFilter::Blur(l) => match spec_length_to_computed(l, ctx) {
            Ok(c) => Ok(GenericFilter::Blur(c)),
            Err(e) => Err(e),
        },
        GenericFilter::Brightness(x) => Ok(GenericFilter::Brightness(x)),
        GenericFilter::Contrast(x) => Ok(GenericFilter::Contrast(x)),
        GenericFilter::Grayscale(x) => Ok(GenericFilter::Grayscale(x)),
        GenericFilter::HueRotate(a) => Ok(GenericFilter::HueRotate(a)),
        GenericFilter::Invert(x) => Ok(GenericFilter::Invert(x)),
        GenericFilter::Opacity(x) => Ok(GenericFilter::Opacity(x)),
        GenericFilter::Saturate(x) => Ok(GenericFilter::Saturate(x)),
        GenericFilter::Sepia(x) => Ok(GenericFilter::Sepia(x)),
        GenericFilter::DropShadow(s) => match spec_simple_shadow_to_computed(s, ctx) {
            Ok(c) => Ok(GenericFilter::DropShadow(c)),
            Err(e) => Err(e),
        },
        GenericFilter::Url(u) => Ok(GenericFilter::Url(u)),
    }
}

/// Converts one filter entry to its computed form.
pub fn filter_to_computed(f: &SpecifiedFilter, ctx: &ComputeContext) -> (r: Result<
    ComputedFilter,
    StageError,
>)
    requires
        specified_filter_wf(*f),
        compute_context_wf(*ctx),
    ensures
        r == spec_filter_to_computed(*f, *ctx),
        r is Ok <==> filter_context_adequate(*f, *ctx),
        r is Ok ==> computed_filter_wf(r.unwrap()),
{
    match f {
        GenericFilter::Blur(l) => match length_to_computed(l, ctx) {
            Ok(c) => {
                proof {
                    lemma_blur_to_computed_nonneg(*l, *ctx);
                }
                Ok(GenericFilter::Blur(c))
            },
            Err(e) => Err(e),
        },
        GenericFilter::Brightness(x) => Ok(GenericFilter::Brightness(*x)),
        GenericFilter::Contrast(x) => Ok(GenericFilter::Contrast(*x)),
        GenericFilter::Grayscale(x) => Ok(GenericFilter::Grayscale(*x)),
        GenericFilter::HueRotate(a) => Ok(GenericFilter::HueRotate(*a)),
        GenericFilter::Invert(x) => Ok(GenericFilter::Invert(*x)),
        GenericFilter::Opacity(x) => Ok(GenericFilter::Opacity(*x)),
        GenericFilter::Saturate(x) => Ok(GenericFilter::Saturate(*x)),
        GenericFilter::Sepia(x) => Ok(GenericFilter::Sepia(*x)),
        GenericFilter::DropShadow(s) => match simple_shadow_to_computed(s, ctx) {
            Ok(c) => Ok(GenericFilter::DropShadow(c)),
            Err(e) => Err(e),
        },
        GenericFilter::Url(u) => Ok(GenericFilter::Url(*u)),
    }
}

/// True when the context supplies every datum this filter chain needs.
pub open spec fn filter_list_context_adequate(
    fs: Seq<SpecifiedFilter>,
    ctx: ComputeContext,
) -> bool {
    forall|i: int| 0 <= i < fs.len() ==> filter_context_adequate(#[trigger] fs[i], ctx)
}

/// Converts a filter chain to its computed form, entry by entry.  The
/// chain converts exactly when the context is adequate for every entry;
/// otherwise the error of the first inadequate entry is returned.
pub fn filter_list_to_computed(fs: &Vec<SpecifiedFilter>, ctx: &ComputeContext) -> (r: Result<
    Vec<ComputedFilter>,
    StageError,
>)
    requires
        specified_filter_list_wf(fs@),
        compute_context_wf(*ctx),
    ensures
        r is Ok <==> filter_list_context_adequate(fs@, *ctx),
        r is Ok ==> {
            &&& r.unwrap()@.len() == fs@.len()
            &&& forall|i: int|
                0 <= i < fs@.len() ==> #[trigger] r.unwrap()@[i] == spec_filter_to_computed(
                    fs@[i],
                    *ctx,
                ).unwrap()
            &&& filter_list_wf(r.unwrap()@)
        },
        r is Err ==> exists|i: int|
            {
                &&& 0 <= i < fs@.len()
                &&& #[trigger] spec_filter_to_computed(fs@[i], *ctx) == Result::<
                    ComputedFilter,
                    StageError,
                >::Err(r.unwrap_err())
                &&& forall|j: int| 0 <= j < i ==> filter_context_adequate(#[trigger] fs@[j], *ctx)
            },
{
    let mut out: Vec<ComputedFilter> = Vec::new();
    let mut i: usize = 0;
    while i < fs.len()
        invariant
            0 <= i <= fs@.len(),
            out@.len() == i,
            specified_filter_list_wf(fs@),
            compute_context_wf(*ctx),
            forall|j: int|
                0 <= j < i ==> #[trigger] out@[j] == spec_filter_to_computed(
                    fs@[j],
                    *ctx,
                ).unwrap(),
            forall|j: int| 0 <= j < i ==> filter_context_adequate(#[trigger] fs@[j], *ctx),
            forall|j: int| 0 <= j < i ==> computed_filter_wf(#[trigger] out@[j]),
        decreases fs@.len() - i,
    {
        match filter_to_computed(&fs[i], ctx) {
            Ok(c) => {
                out.push(c);
            },
            Err(e) => {
                return Err(e);
            },
        }
        i = i + 1;
    }
    Ok(out)
}

/// Substitutes a computed simple shadow into its resolved form.  Nothing
/// in the shape depends on final layout, so the substitution is the
/// identity; the layout context is accepted for interface uniformity.
pub fn simple_shadow_to_resolved(s: &ComputedSimpleShadow, _ctx: &ResolveContext) -> (r:
    ResolvedSimpleShadow)
    ensures
        r == *s,
{
    *s
}

/// Substitutes a computed box shadow into its resolved form (the
/// identity; see [`simple_shadow_to_resolved`]).
pub fn box_shadow_to_resolved(s: &ComputedBoxShadow, _ctx: &ResolveContext) -> (r:
    ResolvedBoxShadow)
    ensures
        r == *s,
{
    *s
}

/// Substitutes a computed filter chain into its resolved form (the
/// identity; see [`simple_shadow_to_resolved`]).
pub fn filter_list_to_resolved(fs: &Vec<ComputedFilter>, _ctx: &ResolveContext) -> (r: Vec<
    ResolvedFilter,
>)
    ensures
        r@ == fs@,
{
    let mut out: Vec<ResolvedFilter> = Vec::new();
    let mut i: usize = 0;
    while i < fs.len()
        invariant
            0 <= i <= fs@.len(),
            out@ == fs@.take(i as int),
        decreases fs@.len() - i,
    {
        out.push(fs[i]);
        proof {
            assert(out@ =~= fs@.take(i + 1 as int));
        }
        i = i + 1;
    }
    proof {
        assert(fs@.take(fs@.len() as int) =~= fs@);
    }
    out
}

/// Stage conversion is deterministic: converting the same specified box
/// shadow against equal contexts yields equal computed values.
pub proof fn lemma_box_shadow_to_computed_deterministic(
    s: SpecifiedBoxShadow,
    ctx1: ComputeContext,
    ctx2: ComputeContext,
)
    requires
        ctx1 == ctx2,
    ensures
        spec_box_shadow_to_computed(s, ctx1) == spec_box_shadow_to_computed(s, ctx2),
{
}

/// Stage conversion is deterministic: converting the same specified
/// filter entry against equal contexts yields equal computed values.
pub proof fn lemma_filter_to_computed_deterministic(
    f: SpecifiedFilter,
    ctx1: ComputeContext,
    ctx2: ComputeContext,
)
    requires
        ctx1 == ctx2,
    ensures
        spec_filter_to_computed(f, ctx1) == spec_filter_to_computed(f, ctx2),
{
}

} // verus!
