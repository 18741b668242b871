//! The animation capabilities and the animation engine.
//!
//! Interpolation, additive composition and the squared-distance metric
//! operate on computed (equally, resolved) values.  Each shape combines
//! the scalar capability of every field position: interpolation and
//! addition fail shape-wide when any position fails or when a discrete
//! flag or variant identity differs between the endpoints; distance is
//! the sum of squared per-field distances.  The engine wraps the
//! fallible capabilities with the explicit compatibility policy: when
//! two endpoints are not animatable it switches discretely from the
//! first to the second at half progress.

use vstd::prelude::*;
use crate::axis::{
    clamp_axis, dist2_axis, dist2_channel, dist2_int, lemma_dist2_symmetric, lemma_dist2_zero_iff,
    lemma_lerp_bounds, lemma_lerp_dist2_monotone, lemma_lerp_ends, lerp_axis, lerp_channel,
    lerp_int, Angle, Factor, Length, Progress, Rgba, AXIS_MAX, PROGRESS_END,
};
use crate::effects::{
    angle_wf, blur_wf, computed_box_shadow_wf, computed_filter_wf, computed_simple_shadow_wf,
    factor_wf, filter_list_wf, length_wf, ComputedBoxShadow, ComputedFilter, ComputedSimpleShadow,
    GenericBoxShadow, GenericFilter, GenericSimpleShadow,
};
use crate::Incompatible;

verus! {

/// Upper bound on the squared distance between two filter-chain entries.
pub const FILTER_DIST2_MAX: u64 = 0x100_0000_0000_0000;

/// Progress at and after which the discrete fallback switches from the
/// first endpoint to the second: half of the progress range.
pub const DISCRETE_SWITCH: u16 = 500;

/// Component-wise color interpolation, in 8-bit sRGB space.
pub open spec fn spec_lerp_rgba(a: Rgba, b: Rgba, t: int) -> Rgba {
    Rgba {
        red: lerp_int(a.red as int, b.red as int, t) as u8,
        green: lerp_int(a.green as int, b.green as int, t) as u8,
        blue: lerp_int(a.blue as int, b.blue as int, t) as u8,
        alpha: lerp_int(a.alpha as int, b.alpha as int, t) as u8,
    }
}

/// Squared color distance: the sum over the four components.
pub open spec fn spec_rgba_dist2(a: Rgba, b: Rgba) -> int {
    dist2_int(a.red as int, b.red as int) + dist2_int(a.green as int, b.green as int) + dist2_int(
        a.blue as int,
        b.blue as int,
    ) + dist2_int(a.alpha as int, b.alpha as int)
}

/// Component-wise saturating color addition.
pub open spec fn spec_add_rgba(a: Rgba, b: Rgba) -> Rgba {
    Rgba {
        red: add_channel_int(a.red as int, b.red as int) as u8,
        green: add_channel_int(a.green as int, b.green as int) as u8,
        blue: add_channel_int(a.blue as int, b.blue as int) as u8,
        alpha: add_channel_int(a.alpha as int, b.alpha as int) as u8,
    }
}

/// 8-bit channel addition, saturating at the top of the channel range.
pub open spec fn add_channel_int(x: int, y: int) -> int {
    if x + y > 255 {
        255
    } else {
        x + y
    }
}

/// Scalar axis addition, clamped into the axis bound.
pub open spec fn add_axis_int(x: int, y: int) -> int {
    clamp_axis(x + y)
}

/// Field-wise simple-shadow interpolation; every field is animatable.
pub open spec fn spec_lerp_simple_shadow(
    a: ComputedSimpleShadow,
    b: ComputedSimpleShadow,
    t: int,
) -> ComputedSimpleShadow {
    GenericSimpleShadow {
        color: spec_lerp_rgba(a.color, b.color, t),
        horizontal: Length { au: lerp_int(a.horizontal.au as int, b.horizontal.au as int, t) as i32 },
        vertical: Length { au: lerp_int(a.vertical.au as int, b.vertical.au as int, t) as i32 },
        blur: Length { au: lerp_int(a.blur.au as int, b.blur.au as int, t) as i32 },
    }
}

/// Squared simple-shadow distance: Euclidean combination over the fields.
pub open spec fn spec_simple_shadow_dist2(a: ComputedSimpleShadow, b: ComputedSimpleShadow) -> int {
    spec_rgba_dist2(a.color, b.color) + dist2_int(a.horizontal.au as int, b.horizontal.au as int)
        + dist2_int(a.vertical.au as int, b.vertical.au as int) + dist2_int(
        a.blur.au as int,
        b.blur.au as int,
    )
}

/// Field-wise simple-shadow addition.
pub open spec fn spec_add_simple_shadow(
    a: ComputedSimpleShadow,
    b: ComputedSimpleShadow,
) -> ComputedSimpleShadow {
    GenericSimpleShadow {
        color: spec_add_rgba(a.color, b.color),
        horizontal: Length { au: add_axis_int(a.horizontal.au as int, b.horizontal.au as int) as i32 },
        vertical: Length { au: add_axis_int(a.vertical.au as int, b.vertical.au as int) as i32 },
        blur: Length { au: add_axis_int(a.blur.au as int, b.blur.au as int) as i32 },
    }
}

/// Two box shadows are animatable only when their discrete inset flags
/// agree: a discrete flag is never interpolated.
pub open spec fn box_shadow_compatible(a: ComputedBoxShadow, b: ComputedBoxShadow) -> bool {
    a.inset == b.inset
}

/// Field-wise box-shadow interpolation; meaningful under
/// [`box_shadow_compatible`].
pub open spec fn spec_lerp_box_shadow(
    a: ComputedBoxShadow,
    b: ComputedBoxShadow,
    t: int,
) -> ComputedBoxShadow {
    GenericBoxShadow {
        base: spec_lerp_simple_shadow(a.base, b.base, t),
        spread: Length { au: lerp_int(a.spread.au as int, b.spread.au as int, t) as i32 },
        inset: a.inset,
    }
}

/// Squared box-shadow distance; meaningful under
/// [`box_shadow_compatible`].
pub open spec fn spec_box_shadow_dist2(a: ComputedBoxShadow, b: ComputedBoxShadow) -> int {
    spec_simple_shadow_dist2(a.base, b.base) + dist2_int(a.spread.au as int, b.spread.au as int)
}

/// Field-wise box-shadow addition; meaningful under
/// [`box_shadow_compatible`].
pub open spec fn spec_add_box_shadow(a: ComputedBoxShadow, b: ComputedBoxShadow) -> ComputedBoxShadow {
    GenericBoxShadow {
        base: spec_add_simple_shadow(a.base, b.base),
        spread: Length { au: add_axis_int(a.spread.au as int, b.spread.au as int) as i32 },
        inset: a.inset,
    }
}

/// Two filter-chain entries are animatable only when the same variant is
/// active on both, and never when that variant is the URL reference.
pub open spec fn filter_compatible(a: ComputedFilter, b: ComputedFilter) -> bool {
    match (a, b) {
        (GenericFilter::Blur(_), GenericFilter::Blur(_)) => true,
        (GenericFilter::Brightness(_), GenericFilter::Brightness(_)) => true,
        (GenericFilter::Contrast(_), GenericFilter::Contrast(_)) => true,
        (GenericFilter::Grayscale(_), GenericFilter::Grayscale(_)) => true,
        (GenericFilter::HueRotate(_), GenericFilter::HueRotate(_)) => true,
        (GenericFilter::Invert(_), GenericFilter::Invert(_)) => true,
        (GenericFilter::Opacity(_), GenericFilter::Opacity(_)) => true,
        (GenericFilter::Saturate(_), GenericFilter::Saturate(_)) => true,
        (GenericFilter::Sepia(_), GenericFilter::Sepia(_)) => true,
        (GenericFilter::DropShadow(_), GenericFilter::DropShadow(_)) => true,
        _ => false,
    }
}

/// Variant-wise filter interpolation; meaningful under
/// [`filter_compatible`].
pub open spec fn spec_lerp_filter(a: ComputedFilter, b: ComputedFilter, t: int) -> ComputedFilter {
    match (a, b) {
        (GenericFilter::Blur(x), GenericFilter::Blur(y)) => GenericFilter::Blur(
            Length { au: lerp_int(x.au as int, y.au as int, t) as i32 },
        ),
        (GenericFilter::Brightness(x), GenericFilter::Brightness(y)) => GenericFilter::Brightness(
            Factor { milli: lerp_int(x.milli as int, y.milli as int, t) as i32 },
        ),
        (GenericFilter::Contrast(x), GenericFilter::Contrast(y)) => GenericFilter::Contrast(
            Factor { milli: lerp_int(x.milli as int, y.milli as int, t) as i32 },
        ),
        (GenericFilter::Grayscale(x), GenericFilter::Grayscale(y)) => GenericFilter::Grayscale(
            Factor { milli: lerp_int(x.milli as int, y.milli as int, t) as i32 },
        ),
        (GenericFilter::HueRotate(x), GenericFilter::HueRotate(y)) => GenericFilter::HueRotate(
            Angle { millideg: lerp_int(x.millideg as int, y.millideg as int, t) as i32 },
        ),
        (GenericFilter::Invert(x), GenericFilter::Invert(y)) => GenericFilter::Invert(
            Factor { milli: lerp_int(x.milli as int, y.milli as int, t) as i32 },
        ),
        (GenericFilter::Opacity(x), GenericFilter::Opacity(y)) => GenericFilter::Opacity(
            Factor { milli: lerp_int(x.milli as int, y.milli as int, t) as i32 },
        ),
        (GenericFilter::Saturate(x), GenericFilter::Saturate(y)) => GenericFilter::Saturate(
            Factor { milli: lerp_int(x.milli as int, y.milli as int, t) as i32 },
        ),
        (GenericFilter::Sepia(x), GenericFilter::Sepia(y)) => GenericFilter::Sepia(
            Factor { milli: lerp_int(x.milli as int, y.milli as int, t) as i32 },
        ),
        (GenericFilter::DropShadow(x), GenericFilter::DropShadow(y)) => GenericFilter::DropShadow(
            spec_lerp_simple_shadow(x, y, t),
        ),
        _ => a,
    }
}

/// Variant-wise squared filter distance; meaningful under
/// [`filter_compatible`].
pub open spec fn spec_filter_dist2(a: ComputedFilter, b: ComputedFilter) -> int {
    match (a, b) {
        (GenericFilter::Blur(x), GenericFilter::Blur(y)) => dist2_int(x.au as int, y.au as int),
        (GenericFilter::Brightness(x), GenericFilter::Brightness(y)) => dist2_int(
            x.milli as int,
            y.milli as int,
        ),
        (GenericFilter::Contrast(x), GenericFilter::Contrast(y)) => dist2_int(
            x.milli as int,
            y.milli as int,
        ),
        (GenericFilter::Grayscale(x), GenericFilter::Grayscale(y)) => dist2_int(
            x.milli as int,
            y.milli as int,
        ),
        (GenericFilter::HueRotate(x), GenericFilter::HueRotate(y)) => dist2_int(
            x.millideg as int,
            y.millideg as int,
        ),
        (GenericFilter::Invert(x), GenericFilter::Invert(y)) => dist2_int(
            x.milli as int,
            y.milli as int,
        ),
        (GenericFilter::Opacity(x), GenericFilter::Opacity(y)) => dist2_int(
            x.milli as int,
            y.milli as int,
        ),
        (GenericFilter::Saturate(x), GenericFilter::Saturate(y)) => dist2_int(
            x.milli as int,
            y.milli as int,
        ),
        (GenericFilter::Sepia(x), GenericFilter::Sepia(y)) => dist2_int(
            x.milli as int,
            y.milli as int,
        ),
        (GenericFilter::DropShadow(x), GenericFilter::DropShadow(y)) => spec_simple_shadow_dist2(
            x,
            y,
        ),
        _ => 0,
    }
}

/// Variant-wise filter addition; meaningful under [`filter_compatible`].
pub open spec fn spec_add_filter(a: ComputedFilter, b: ComputedFilter) -> ComputedFilter {
    match (a, b) {
        (GenericFilter::Blur(x), GenericFilter::Blur(y)) => GenericFilter::Blur(
            Length { au: add_axis_int(x.au as int, y.au as int) as i32 },
        ),
        (GenericFilter::Brightness(x), GenericFilter::Brightness(y)) => GenericFilter::Brightness(
            Factor { milli: add_axis_int(x.milli as int, y.milli as int) as i32 },
        ),
        (GenericFilter::Contrast(x), GenericFilter::Contrast(y)) => GenericFilter::Contrast(
            Factor { milli: add_axis_int(x.milli as int, y.milli as int) as i32 },
        ),
        (GenericFilter::Grayscale(x), GenericFilter::Grayscale(y)) => GenericFilter::Grayscale(
            Factor { milli: add_axis_int(x.milli as int, y.milli as int) as i32 },
        ),
        (GenericFilter::HueRotate(x), GenericFilter::HueRotate(y)) => GenericFilter::HueRotate(
            Angle { millideg: add_axis_int(x.millideg as int, y.millideg as int) as i32 },
        ),
        (GenericFilter::Invert(x), GenericFilter::Invert(y)) => GenericFilter::Invert(
            Factor { milli: add_axis_int(x.milli as int, y.milli as int) as i32 },
        ),
        (GenericFilter::Opacity(x), GenericFilter::Opacity(y)) => GenericFilter::Opacity(
            Factor { milli: add_axis_int(x.milli as int, y.milli as int) as i32 },
        ),
        (GenericFilter::Saturate(x), GenericFilter::Saturate(y)) => GenericFilter::Saturate(
            Factor { milli: add_axis_int(x.milli as int, y.milli as int) as i32 },
        ),
        (GenericFilter::Sepia(x), GenericFilter::Sepia(y)) => GenericFilter::Sepia(
            Factor { milli: add_axis_int(x.milli as int, y.milli as int) as i32 },
        ),
        (GenericFilter::DropShadow(x), GenericFilter::DropShadow(y)) => GenericFilter::DropShadow(
            spec_add_simple_shadow(x, y),
        ),
        _ => a,
    }
}

/// Two filter chains are animatable only when they have the same length
/// and every entry pair is animatable.
pub open spec fn filter_list_compatible(a: Seq<ComputedFilter>, b: Seq<ComputedFilter>) -> bool {
    &&& a.len() == b.len()
    &&& forall|i: int| 0 <= i < a.len() ==> filter_compatible(#[trigger] a[i], b[i])
}

/// Entry-wise filter-chain interpolation; meaningful under
/// [`filter_list_compatible`].
pub open spec fn spec_lerp_filter_list(
    a: Seq<ComputedFilter>,
    b: Seq<ComputedFilter>,
    t: int,
) -> Seq<ComputedFilter> {
    Seq::new(a.len(), |i: int| spec_lerp_filter(a[i], b[i], t))
}

/// Squared filter-chain distance: the sum over the entry pairs;
/// meaningful under [`filter_list_compatible`].
pub open spec fn spec_filter_list_dist2(a: Seq<ComputedFilter>, b: Seq<ComputedFilter>) -> int
    decreases a.len(),
{
    if a.len() == 0 {
        0
    } else {
        spec_filter_list_dist2(a.drop_last(), b.drop_last()) + spec_filter_dist2(
            a.last(),
            b.last(),
        )
    }
}

/// Interpolates two computed colors.
pub fn interpolate_rgba(a: &Rgba, b: &Rgba, progress: Progress) -> (r: Rgba)
    requires
        progress.wf(),
    ensures
        r == spec_lerp_rgba(*a, *b, progress.milli as int),
{
    Rgba {
        red: lerp_channel(a.red, b.red, progress.milli),
        green: lerp_channel(a.green, b.green, progress.milli),
        blue: lerp_channel(a.blue, b.blue, progress.milli),
        alpha: lerp_channel(a.alpha, b.alpha, progress.milli),
    }
}

/// Interpolates two computed simple shadows.  Every field of the shape is
/// animatable, so the shape-wide combination cannot fail.
pub fn interpolate_simple_shadow(
    a: &ComputedSimpleShadow,
    b: &ComputedSimpleShadow,
    progress: Progress,
) -> (r: ComputedSimpleShadow)
    requires
        computed_simple_shadow_wf(*a),
        computed_simple_shadow_wf(*b),
        progress.wf(),
    ensures
        r == spec_lerp_simple_shadow(*a, *b, progress.milli as int),
        computed_simple_shadow_wf(r),
{
    proof {
        lemma_lerp_bounds(a.blur.au as int, b.blur.au as int, progress.milli as int);
    }
    GenericSimpleShadow {
        color: interpolate_rgba(&a.color, &b.color, progress),
        horizontal: Length { au: lerp_axis(a.horizontal.au, b.horizontal.au, progress.milli) },
        vertical: Length { au: lerp_axis(a.vertical.au, b.vertical.au, progress.milli) },
        blur: Length { au: lerp_axis(a.blur.au, b.blur.au, progress.milli) },
    }
}

/// Interpolates two computed box shadows.  Fails exactly when the two
/// endpoints' inset flags differ: the discrete flag is excluded from
/// animation, and a mismatch makes the pair non-animatable.
pub fn interpolate_box_shadow(
    a: &ComputedBoxShadow,
    b: &ComputedBoxShadow,
    progress: Progress,
) -> (r: Result<ComputedBoxShadow, Incompatible>)
    requires
        computed_box_shadow_wf(*a),
        computed_box_shadow_wf(*b),
        progress.wf(),
    ensures
        r is Ok <==> box_shadow_compatible(*a, *b),
        r is Ok ==> r.unwrap() == spec_lerp_box_shadow(*a, *b, progress.milli as int),
        r is Ok ==> computed_box_shadow_wf(r.unwrap()) && r.unwrap().inset == a.inset,
        r is Err ==> r == Result::<ComputedBoxShadow, Incompatible>::Err(Incompatible {}),
{
    if a.inset != b.inset {
        return Err(Incompatible {});
    }
    Ok(
        GenericBoxShadow {
            base: interpolate_simple_shadow(&a.base, &b.base, progress),
            spread: Length { au: lerp_axis(a.spread.au, b.spread.au, progress.milli) },
            inset: a.inset,
        },
    )
}

/// Interpolates two filter-chain entries.  Fails exactly when the two
/// endpoints carry different variants, or both carry the URL variant,
/// which is excluded from animation.
pub fn interpolate_filter(a: &ComputedFilter, b: &ComputedFilter, progress: Progress) -> (r: Result<
    ComputedFilter,
    Incompatible,
>)
    requires
        computed_filter_wf(*a),
        computed_filter_wf(*b),
        progress.wf(),
    ensures
        r is Ok <==> filter_compatible(*a, *b),
        r is Ok ==> r.unwrap() == spec_lerp_filter(*a, *b, progress.milli as int),
        r is Ok ==> computed_filter_wf(r.unwrap()),
        r is Err ==> r == Result::<ComputedFilter, Incompatible>::Err(Incompatible {}),
{
    match (a, b) {
        (GenericFilter::Blur(x), GenericFilter::Blur(y)) => {
            proof {
                lemma_lerp_bounds(x.au as int, y.au as int, progress.milli as int);
            }
            Ok(GenericFilter::Blur(Length { au: lerp_axis(x.au, y.au, progress.milli) }))
        },
        (GenericFilter::Brightness(x), GenericFilter::Brightness(y)) => Ok(
            GenericFilter::Brightness(Factor { milli: lerp_axis(x.milli, y.milli, progress.milli) }),
        ),
        (GenericFilter::Contrast(x), GenericFilter::Contrast(y)) => Ok(
            GenericFilter::Contrast(Factor { milli: lerp_axis(x.milli, y.milli, progress.milli) }),
        ),
        (GenericFilter::Grayscale(x), GenericFilter::Grayscale(y)) => Ok(
            GenericFilter::Grayscale(Factor { milli: lerp_axis(x.milli, y.milli, progress.milli) }),
        ),
        (GenericFilter::HueRotate(x), GenericFilter::HueRotate(y)) => Ok(
            GenericFilter::HueRotate(
                Angle { millideg: lerp_axis(x.millideg, y.millideg, progress.milli) },
            ),
        ),
        (GenericFilter::Invert(x), GenericFilter::Invert(y)) => Ok(
            GenericFilter::Invert(Factor { milli: lerp_axis(x.milli, y.milli, progress.milli) }),
        ),
        (GenericFilter::Opacity(x), GenericFilter::Opacity(y)) => Ok(
            GenericFilter::Opacity(Factor { milli: lerp_axis(x.milli, y.milli, progress.milli) }),
        ),
        (GenericFilter::Saturate(x), GenericFilter::Saturate(y)) => Ok(
            GenericFilter::Saturate(Factor { milli: lerp_axis(x.milli, y.milli, progress.milli) }),
        ),
        (GenericFilter::Sepia(x), GenericFilter::Sepia(y)) => Ok(
            GenericFilter::Sepia(Factor { milli: lerp_axis(x.milli, y.milli, progress.milli) }),
        ),
        (GenericFilter::DropShadow(x), GenericFilter::DropShadow(y)) => Ok(
            GenericFilter::DropShadow(interpolate_simple_shadow(x, y, progress)),
        ),
        _ => Err(Incompatible {}),
    }
}

/// Interpolates two computed filter chains entry by entry.  Fails exactly
/// when the chains have different lengths or any entry pair is
/// non-animatable: the shape-wide combination fails if any position does.
pub fn interpolate_filter_list(
    a: &Vec<ComputedFilter>,
    b: &Vec<ComputedFilter>,
    progress: Progress,
) -> (r: Result<Vec<ComputedFilter>, Incompatible>)
    requires
        filter_list_wf(a@),
        filter_list_wf(b@),
        progress.wf(),
    ensures
        r is Ok <==> filter_list_compatible(a@, b@),
        r is Ok ==> r.unwrap()@ == spec_lerp_filter_list(a@, b@, progress.milli as int),
        r is Ok ==> filter_list_wf(r.unwrap()@),
        r is Err ==> r == Result::<Vec<ComputedFilter>, Incompatible>::Err(Incompatible {}),
{
    if a.len() != b.len() {
        return Err(Incompatible {});
    }
    let mut out: Vec<ComputedFilter> = Vec::new();
    let mut i: usize = 0;
    while i < a.len()
        invariant
            a@.len() == b@.len(),
            0 <= i <= a@.len(),
            out@.len() == i,
            filter_list_wf(a@),
            filter_list_wf(b@),
            progress.wf(),
            forall|j: int| 0 <= j < i ==> filter_compatible(#[trigger] a@[j], b@[j]),
            forall|j: int|
                0 <= j < i ==> #[trigger] out@[j] == spec_lerp_filter(
                    a@[j],
                    b@[j],
                    progress.milli as int,
                ),
            forall|j: int| 0 <= j < i ==> computed_filter_wf(#[trigger] out@[j]),
        decreases a@.len() - i,
    {
        match interpolate_filter(&a[i], &b[i], progress) {
            Ok(f) => {
                out.push(f);
            },
            Err(e) => {
                return Err(e);
            },
        }
        i = i + 1;
    }
    proof {
        assert(out@ =~= spec_lerp_filter_list(a@, b@, progress.milli as int));
    }
    Ok(out)
}

/// Squared distance between two computed colors.
pub fn rgba_distance(a: &Rgba, b: &Rgba) -> (r: u64)
    ensures
        r as int == spec_rgba_dist2(*a, *b),
        r <= 0x40_0000,
{
    dist2_channel(a.red, b.red) + dist2_channel(a.green, b.green) + dist2_channel(a.blue, b.blue)
        + dist2_channel(a.alpha, b.alpha)
}

/// Squared distance between two computed simple shadows.
pub fn simple_shadow_distance(a: &ComputedSimpleShadow, b: &ComputedSimpleShadow) -> (r: u64)
    requires
        computed_simple_shadow_wf(*a),
        computed_simple_shadow_wf(*b),
    ensures
        r as int == spec_simple_shadow_dist2(*a, *b),
        r <= 0x31_0000_0040_0000,
{
    rgba_distance(&a.color, &b.color) + dist2_axis(a.horizontal.au, b.horizontal.au) + dist2_axis(
        a.vertical.au,
        b.vertical.au,
    ) + dist2_axis(a.blur.au, b.blur.au)
}

/// Squared distance between two computed box shadows.  Defined exactly
/// for animatable pairs: differing inset flags make the pair
/// non-animatable, and no blended inset distance is invented for them.
pub fn box_shadow_distance(a: &ComputedBoxShadow, b: &ComputedBoxShadow) -> (r: Result<
    u64,
    Incompatible,
>)
    requires
        computed_box_shadow_wf(*a),
        computed_box_shadow_wf(*b),
    ensures
        r is Ok <==> box_shadow_compatible(*a, *b),
        r is Ok ==> r.unwrap() as int == spec_box_shadow_dist2(*a, *b),
        r is Err ==> r == Result::<u64, Incompatible>::Err(Incompatible {}),
{
    if a.inset != b.inset {
        return Err(Incompatible {});
    }
    Ok(simple_shadow_distance(&a.base, &b.base) + dist2_axis(a.spread.au, b.spread.au))
}

/// Squared distance between two filter-chain entries.  Defined exactly
/// for animatable pairs.
pub fn filter_distance(a: &ComputedFilter, b: &ComputedFilter) -> (r: Result<u64, Incompatible>)
    requires
        computed_filter_wf(*a),
        computed_filter_wf(*b),
    ensures
        r is Ok <==> filter_compatible(*a, *b),
        r is Ok ==> r.unwrap() as int == spec_filter_dist2(*a, *b),
        r is Ok ==> r.unwrap() <= FILTER_DIST2_MAX,
        r is Err ==> r == Result::<u64, Incompatible>::Err(Incompatible {}),
{
    match (a, b) {
        (GenericFilter::Blur(x), GenericFilter::Blur(y)) => Ok(dist2_axis(x.au, y.au)),
        (GenericFilter::Brightness(x), GenericFilter::Brightness(y)) => Ok(
            dist2_axis(x.milli, y.milli),
        ),
        (GenericFilter::Contrast(x), GenericFilter::Contrast(y)) => Ok(
            dist2_axis(x.milli, y.milli),
        ),
        (GenericFilter::Grayscale(x), GenericFilter::Grayscale(y)) => Ok(
            dist2_axis(x.milli, y.milli),
        ),
        (GenericFilter::HueRotate(x), GenericFilter::HueRotate(y)) => Ok(
            dist2_axis(x.millideg, y.millideg),
        ),
        (GenericFilter::Invert(x), GenericFilter::Invert(y)) => Ok(dist2_axis(x.milli, y.milli)),
        (GenericFilter::Opacity(x), GenericFilter::Opacity(y)) => Ok(dist2_axis(x.milli, y.milli)),
        (GenericFilter::Saturate(x), GenericFilter::Saturate(y)) => Ok(
            dist2_axis(x.milli, y.milli),
        ),
        (GenericFilter::Sepia(x), GenericFilter::Sepia(y)) => Ok(dist2_axis(x.milli, y.milli)),
        (GenericFilter::DropShadow(x), GenericFilter::DropShadow(y)) => Ok(
            simple_shadow_distance(x, y),
        ),
        _ => Err(Incompatible {}),
    }
}

/// Squared distance between two computed filter chains: the sum over the
/// entry pairs.  Defined exactly for animatable pairs of chains.
pub fn filter_list_distance(a: &Vec<ComputedFilter>, b: &Vec<ComputedFilter>) -> (r: Result<
    u128,
    Incompatible,
>)
    requires
        filter_list_wf(a@),
        filter_list_wf(b@),
    ensures
        r is Ok <==> filter_list_compatible(a@, b@),
        r is Ok ==> r.unwrap() as int == spec_filter_list_dist2(a@, b@),
        r is Err ==> r == Result::<u128, Incompatible>::Err(Incompatible {}),
{
    if a.len() != b.len() {
        return Err(Incompatible {});
    }
    let mut total: u128 = 0;
    let mut i: usize = 0;
    while i < a.len()
        invariant
            a@.len() == b@.len(),
            0 <= i <= a@.len(),
            filter_list_wf(a@),
            filter_list_wf(b@),
            forall|j: int| 0 <= j < i ==> filter_compatible(#[trigger] a@[j], b@[j]),
            total as int == spec_filter_list_dist2(a@.take(i as int), b@.take(i as int)),
            total <= (i as int) * (FILTER_DIST2_MAX as int),
        decreases a@.len() - i,
    {
        match filter_distance(&a[i], &b[i]) {
            Ok(d) => {
                proof {
                    assert(a@.take(i + 1 as int).drop_last() =~= a@.take(i as int));
                    assert(b@.take(i + 1 as int).drop_last() =~= b@.take(i as int));
                    assert((i + 1 as int) * (FILTER_DIST2_MAX as int) == (i as int) * (
                    FILTER_DIST2_MAX as int) + FILTER_DIST2_MAX) by (nonlinear_arith);
                    assert((i as int) * (FILTER_DIST2_MAX as int) <= 0xffff_ffff_ffff_ffff * (
                    FILTER_DIST2_MAX as int)) by (nonlinear_arith)
                        requires
                            0 <= i as int <= 0xffff_ffff_ffff_ffff,
                    ;
                }
                total = total + (d as u128);
            },
            Err(e) => {
                return Err(e);
            },
        }
        i = i + 1;
    }
    proof {
        assert(a@.take(a@.len() as int) =~= a@);
        assert(b@.take(b@.len() as int) =~= b@);
    }
    Ok(total)
}

/// Adds two computed colors component-wise, saturating.
pub fn add_rgba(a: &Rgba, b: &Rgba) -> (r: Rgba)
    ensures
        r == spec_add_rgba(*a, *b),
{
    let red: u16 = a.red as u16 + b.red as u16;
    let green: u16 = a.green as u16 + b.green as u16;
    let blue: u16 = a.blue as u16 + b.blue as u16;
    let alpha: u16 = a.alpha as u16 + b.alpha as u16;
    Rgba {
        red: if red > 255 {
            255
        } else {
            red as u8
        },
        green: if green > 255 {
            255
        } else {
            green as u8
        },
        blue: if blue > 255 {
            255
        } else {
            blue as u8
        },
        alpha: if alpha > 255 {
            255
        } else {
            alpha as u8
        },
    }
}

/// Adds two scalar axis values, clamping into the axis bound.
pub fn add_axis(a: i32, b: i32) -> (r: i32)
    requires
        crate::axis::axis_in_range(a as int),
        crate::axis::axis_in_range(b as int),
    ensures
        r as int == add_axis_int(a as int, b as int),
        crate::axis::axis_in_range(r as int),
{
    let sum: i32 = a + b;
    if sum < -AXIS_MAX {
        -AXIS_MAX
    } else if sum > AXIS_MAX {
        AXIS_MAX
    } else {
        sum
    }
}

/// Adds two computed simple shadows field-wise, for additive animation
/// composition.
pub fn add_simple_shadow(a: &ComputedSimpleShadow, b: &ComputedSimpleShadow) -> (r:
    ComputedSimpleShadow)
    requires
        computed_simple_shadow_wf(*a),
        computed_simple_shadow_wf(*b),
    ensures
        r == spec_add_simple_shadow(*a, *b),
        computed_simple_shadow_wf(r),
{
    GenericSimpleShadow {
        color: add_rgba(&a.color, &b.color),
        horizontal: Length { au: add_axis(a.horizontal.au, b.horizontal.au) },
        vertical: Length { au: add_axis(a.vertical.au, b.vertical.au) },
        blur: Length { au: add_axis(a.blur.au, b.blur.au) },
    }
}

/// Adds two computed box shadows field-wise.  Fails exactly when the
/// inset flags differ, as interpolation does.
pub fn add_box_shadow(a: &ComputedBoxShadow, b: &ComputedBoxShadow) -> (r: Result<
    ComputedBoxShadow,
    Incompatible,
>)
    requires
        computed_box_shadow_wf(*a),
        computed_box_shadow_wf(*b),
    ensures
        r is Ok <==> box_shadow_compatible(*a, *b),
        r is Ok ==> r.unwrap() == spec_add_box_shadow(*a, *b),
        r is Ok ==> computed_box_shadow_wf(r.unwrap()),
        r is Err ==> r == Result::<ComputedBoxShadow, Incompatible>::Err(Incompatible {}),
{
    if a.inset != b.inset {
        return Err(Incompatible {});
    }
    Ok(
        GenericBoxShadow {
            base: add_simple_shadow(&a.base, &b.base),
            spread: Length { au: add_axis(a.spread.au, b.spread.au) },
            inset: a.inset,
        },
    )
}

/// Entry-wise filter-chain addition; meaningful under
/// [`filter_list_compatible`].
pub open spec fn spec_add_filter_list(
    a: Seq<ComputedFilter>,
    b: Seq<ComputedFilter>,
) -> Seq<ComputedFilter> {
    Seq::new(a.len(), |i: int| spec_add_filter(a[i], b[i]))
}

/// Adds two filter-chain entries.  Fails exactly when interpolation
/// would: different variants, or the URL variant on both sides.
pub fn add_filter(a: &ComputedFilter, b: &ComputedFilter) -> (r: Result<
    ComputedFilter,
    Incompatible,
>)
    requires
        computed_filter_wf(*a),
        computed_filter_wf(*b),
    ensures
        r is Ok <==> filter_compatible(*a, *b),
        r is Ok ==> r.unwrap() == spec_add_filter(*a, *b),
        r is Ok ==> computed_filter_wf(r.unwrap()),
        r is Err ==> r == Result::<ComputedFilter, Incompatible>::Err(Incompatible {}),
{
    match (a, b) {
        (GenericFilter::Blur(x), GenericFilter::Blur(y)) => Ok(
            GenericFilter::Blur(Length { au: add_axis(x.au, y.au) }),
        ),
        (GenericFilter::Brightness(x), GenericFilter::Brightness(y)) => Ok(
            GenericFilter::Brightness(Factor { milli: add_axis(x.milli, y.milli) }),
        ),
        (GenericFilter::Contrast(x), GenericFilter::Contrast(y)) => Ok(
            GenericFilter::Contrast(Factor { milli: add_axis(x.milli, y.milli) }),
        ),
        (GenericFilter::Grayscale(x), GenericFilter::Grayscale(y)) => Ok(
            GenericFilter::Grayscale(Factor { milli: add_axis(x.milli, y.milli) }),
        ),
        (GenericFilter::HueRotate(x), GenericFilter::HueRotate(y)) => Ok(
            GenericFilter::HueRotate(Angle { millideg: add_axis(x.millideg, y.millideg) }),
        ),
        (GenericFilter::Invert(x), GenericFilter::Invert(y)) => Ok(
            GenericFilter::Invert(Factor { milli: add_axis(x.milli, y.milli) }),
        ),
        (GenericFilter::Opacity(x), GenericFilter::Opacity(y)) => Ok(
            GenericFilter::Opacity(Factor { milli: add_axis(x.milli, y.milli) }),
        ),
        (GenericFilter::Saturate(x), GenericFilter::Saturate(y)) => Ok(
            GenericFilter::Saturate(Factor { milli: add_axis(x.milli, y.milli) }),
        ),
        (GenericFilter::Sepia(x), GenericFilter::Sepia(y)) => Ok(
            GenericFilter::Sepia(Factor { milli: add_axis(x.milli, y.milli) }),
        ),
        (GenericFilter::DropShadow(x), GenericFilter::DropShadow(y)) => Ok(
            GenericFilter::DropShadow(add_simple_shadow(x, y)),
        ),
        _ => Err(Incompatible {}),
    }
}

/// Adds two computed filter chains entry by entry, with the same
/// compatibility rule as interpolation.
pub fn add_filter_list(a: &Vec<ComputedFilter>, b: &Vec<ComputedFilter>) -> (r: Result<
    Vec<ComputedFilter>,
    Incompatible,
>)
    requires
        filter_list_wf(a@),
        filter_list_wf(b@),
    ensures
        r is Ok <==> filter_list_compatible(a@, b@),
        r is Ok ==> r.unwrap()@ == spec_add_filter_list(a@, b@),
        r is Ok ==> filter_list_wf(r.unwrap()@),
        r is Err ==> r == Result::<Vec<ComputedFilter>, Incompatible>::Err(Incompatible {}),
{
    if a.len() != b.len() {
        return Err(Incompatible {});
    }
    let mut out: Vec<ComputedFilter> = Vec::new();
    let mut i: usize = 0;
    while i < a.len()
        invariant
            a@.len() == b@.len(),
            0 <= i <= a@.len(),
            out@.len() == i,
            filter_list_wf(a@),
            filter_list_wf(b@),
            forall|j: int| 0 <= j < i ==> filter_compatible(#[trigger] a@[j], b@[j]),
            forall|j: int| 0 <= j < i ==> #[trigger] out@[j] == spec_add_filter(a@[j], b@[j]),
            forall|j: int| 0 <= j < i ==> computed_filter_wf(#[trigger] out@[j]),
        decreases a@.len() - i,
    {
        match add_filter(&a[i], &b[i]) {
            Ok(f) => {
                out.push(f);
            },
            Err(e) => {
                return Err(e);
            },
        }
        i = i + 1;
    }
    proof {
        assert(out@ =~= spec_add_filter_list(a@, b@));
    }
    Ok(out)
}

/// The animation engine's box-shadow blend: interpolate when the pair is
/// animatable, otherwise fall back to a discontinuous switch from the
/// first endpoint to the second at half progress.  The fallback is the
/// deliberate compatibility policy, not a silent default.
pub fn animate_box_shadow(a: &ComputedBoxShadow, b: &ComputedBoxShadow, progress: Progress) -> (r:
    ComputedBoxShadow)
    requires
        computed_box_shadow_wf(*a),
        computed_box_shadow_wf(*b),
        progress.wf(),
    ensures
        box_shadow_compatible(*a, *b) ==> r == spec_lerp_box_shadow(*a, *b, progress.milli as int),
        !box_shadow_compatible(*a, *b) ==> r == if progress.milli < DISCRETE_SWITCH {
            *a
        } else {
            *b
        },
        computed_box_shadow_wf(r),
{
    match interpolate_box_shadow(a, b, progress) {
        Ok(blended) => blended,
        Err(_) => {
            if progress.milli < DISCRETE_SWITCH {
                *a
            } else {
                *b
            }
        },
    }
}

/// The animation engine's filter-chain blend, with the same discrete
/// fallback policy as [`animate_box_shadow`].
pub fn animate_filter_list(
    a: &Vec<ComputedFilter>,
    b: &Vec<ComputedFilter>,
    progress: Progress,
) -> (r: Vec<ComputedFilter>)
    requires
        filter_list_wf(a@),
        filter_list_wf(b@),
        progress.wf(),
    ensures
        filter_list_compatible(a@, b@) ==> r@ == spec_lerp_filter_list(
            a@,
            b@,
            progress.milli as int,
        ),
        !filter_list_compatible(a@, b@) ==> r@ == if progress.milli < DISCRETE_SWITCH {
            a@
        } else {
            b@
        },
        filter_list_wf(r@),
{
    match interpolate_filter_list(a, b, progress) {
        Ok(blended) => blended,
        Err(_) => {
            if progress.milli < DISCRETE_SWITCH {
                filter_list_copy(a)
            } else {
                filter_list_copy(b)
            }
        },
    }
}

/// The distance metric is zero on identical simple shadows.
pub proof fn lemma_simple_shadow_distance_self(v: ComputedSimpleShadow)
    ensures
        spec_simple_shadow_dist2(v, v) == 0,
{
    lemma_dist2_zero_iff(v.color.red as int, v.color.red as int);
    lemma_dist2_zero_iff(v.color.green as int, v.color.green as int);
    lemma_dist2_zero_iff(v.color.blue as int, v.color.blue as int);
    lemma_dist2_zero_iff(v.color.alpha as int, v.color.alpha as int);
    lemma_dist2_zero_iff(v.horizontal.au as int, v.horizontal.au as int);
    lemma_dist2_zero_iff(v.vertical.au as int, v.vertical.au as int);
    lemma_dist2_zero_iff(v.blur.au as int, v.blur.au as int);
}

/// The distance metric on simple shadows is symmetric.
pub proof fn lemma_simple_shadow_distance_symmetric(a: ComputedSimpleShadow, b: ComputedSimpleShadow)
    ensures
        spec_simple_shadow_dist2(a, b) == spec_simple_shadow_dist2(b, a),
{
    lemma_dist2_symmetric(a.color.red as int, b.color.red as int);
    lemma_dist2_symmetric(a.color.green as int, b.color.green as int);
    lemma_dist2_symmetric(a.color.blue as int, b.color.blue as int);
    lemma_dist2_symmetric(a.color.alpha as int, b.color.alpha as int);
    lemma_dist2_symmetric(a.horizontal.au as int, b.horizontal.au as int);
    lemma_dist2_symmetric(a.vertical.au as int, b.vertical.au as int);
    lemma_dist2_symmetric(a.blur.au as int, b.blur.au as int);
}

/// The distance metric on simple shadows is zero exactly on equal values.
pub proof fn lemma_simple_shadow_distance_zero_iff(
    a: ComputedSimpleShadow,
    b: ComputedSimpleShadow,
)
    ensures
        spec_simple_shadow_dist2(a, b) >= 0,
        spec_simple_shadow_dist2(a, b) == 0 <==> a == b,
{
    lemma_dist2_zero_iff(a.color.red as int, b.color.red as int);
    lemma_dist2_zero_iff(a.color.green as int, b.color.green as int);
    lemma_dist2_zero_iff(a.color.blue as int, b.color.blue as int);
    lemma_dist2_zero_iff(a.color.alpha as int, b.color.alpha as int);
    lemma_dist2_zero_iff(a.horizontal.au as int, b.horizontal.au as int);
    lemma_dist2_zero_iff(a.vertical.au as int, b.vertical.au as int);
    lemma_dist2_zero_iff(a.blur.au as int, b.blur.au as int);
    if spec_simple_shadow_dist2(a, b) == 0 {
        assert(a.color == Rgba {
            red: a.color.red,
            green: a.color.green,
            blue: a.color.blue,
            alpha: a.color.alpha,
        });
        assert(b.color == Rgba {
            red: b.color.red,
            green: b.color.green,
            blue: b.color.blue,
            alpha: b.color.alpha,
        });
        assert(a == GenericSimpleShadow {
            color: a.color,
            horizontal: Length { au: a.horizontal.au },
            vertical: Length { au: a.vertical.au },
            blur: Length { au: a.blur.au },
        });
        assert(b == GenericSimpleShadow {
            color: b.color,
            horizontal: Length { au: b.horizontal.au },
            vertical: Length { au: b.vertical.au },
            blur: Length { au: b.blur.au },
        });
    }
}

/// The distance metric is defined and zero on identical box shadows: a
/// box shadow is always animatable against itself.
pub proof fn lemma_box_shadow_distance_self(v: ComputedBoxShadow)
    ensures
        box_shadow_compatible(v, v),
        spec_box_shadow_dist2(v, v) == 0,
{
    lemma_simple_shadow_distance_self(v.base);
    lemma_dist2_zero_iff(v.spread.au as int, v.spread.au as int);
}

/// Compatibility and the distance metric on box shadows are symmetric.
pub proof fn lemma_box_shadow_distance_symmetric(a: ComputedBoxShadow, b: ComputedBoxShadow)
    ensures
        box_shadow_compatible(a, b) == box_shadow_compatible(b, a),
        spec_box_shadow_dist2(a, b) == spec_box_shadow_dist2(b, a),
{
    lemma_simple_shadow_distance_symmetric(a.base, b.base);
    lemma_dist2_symmetric(a.spread.au as int, b.spread.au as int);
}

/// On animatable box-shadow pairs the distance metric is zero exactly on
/// equal values.
pub proof fn lemma_box_shadow_distance_zero_iff(a: ComputedBoxShadow, b: ComputedBoxShadow)
    requires
        box_shadow_compatible(a, b),
    ensures
        spec_box_shadow_dist2(a, b) >= 0,
        spec_box_shadow_dist2(a, b) == 0 <==> a == b,
{
    lemma_simple_shadow_distance_zero_iff(a.base, b.base);
    lemma_dist2_zero_iff(a.spread.au as int, b.spread.au as int);
    if spec_box_shadow_dist2(a, b) == 0 {
        assert(a == GenericBoxShadow { base: a.base, spread: Length { au: a.spread.au }, inset: a.inset });
        assert(b == GenericBoxShadow { base: b.base, spread: Length { au: b.spread.au }, inset: b.inset });
    }
}

/// The distance metric is zero on any filter entry that is animatable
/// against itself (every entry but a URL reference is).
pub proof fn lemma_filter_distance_self(f: ComputedFilter)
    requires
        filter_compatible(f, f),
    ensures
        spec_filter_dist2(f, f) == 0,
{
    match f {
        GenericFilter::Blur(x) => lemma_dist2_zero_iff(x.au as int, x.au as int),
        GenericFilter::Brightness(x) => lemma_dist2_zero_iff(x.milli as int, x.milli as int),
        GenericFilter::Contrast(x) => lemma_dist2_zero_iff(x.milli as int, x.milli as int),
        GenericFilter::Grayscale(x) => lemma_dist2_zero_iff(x.milli as int, x.milli as int),
        GenericFilter::HueRotate(x) => lemma_dist2_zero_iff(x.millideg as int, x.millideg as int),
        GenericFilter::Invert(x) => lemma_dist2_zero_iff(x.milli as int, x.milli as int),
        GenericFilter::Opacity(x) => lemma_dist2_zero_iff(x.milli as int, x.milli as int),
        GenericFilter::Saturate(x) => lemma_dist2_zero_iff(x.milli as int, x.milli as int),
        GenericFilter::Sepia(x) => lemma_dist2_zero_iff(x.milli as int, x.milli as int),
        GenericFilter::DropShadow(s) => lemma_simple_shadow_distance_self(s),
        GenericFilter::Url(_) => {},
    }
}

/// Compatibility and the distance metric on filter entries are symmetric.
pub proof fn lemma_filter_distance_symmetric(a: ComputedFilter, b: ComputedFilter)
    ensures
        filter_compatible(a, b) == filter_compatible(b, a),
        spec_filter_dist2(a, b) == spec_filter_dist2(b, a),
{
    match (a, b) {
        (GenericFilter::Blur(x), GenericFilter::Blur(y)) => lemma_dist2_symmetric(
            x.au as int,
            y.au as int,
        ),
        (GenericFilter::Brightness(x), GenericFilter::Brightness(y)) => lemma_dist2_symmetric(
            x.milli as int,
            y.milli as int,
        ),
        (GenericFilter::Contrast(x), GenericFilter::Contrast(y)) => lemma_dist2_symmetric(
            x.milli as int,
            y.milli as int,
        ),
        (GenericFilter::Grayscale(x), GenericFilter::Grayscale(y)) => lemma_dist2_symmetric(
            x.milli as int,
            y.milli as int,
        ),
        (GenericFilter::HueRotate(x), GenericFilter::HueRotate(y)) => lemma_dist2_symmetric(
            x.millideg as int,
            y.millideg as int,
        ),
        (GenericFilter::Invert(x), GenericFilter::Invert(y)) => lemma_dist2_symmetric(
            x.milli as int,
            y.milli as int,
        ),
        (GenericFilter::Opacity(x), GenericFilter::Opacity(y)) => lemma_dist2_symmetric(
            x.milli as int,
            y.milli as int,
        ),
        (GenericFilter::Saturate(x), GenericFilter::Saturate(y)) => lemma_dist2_symmetric(
            x.milli as int,
            y.milli as int,
        ),
        (GenericFilter::Sepia(x), GenericFilter::Sepia(y)) => lemma_dist2_symmetric(
            x.milli as int,
            y.milli as int,
        ),
        (GenericFilter::DropShadow(x), GenericFilter::DropShadow(y)) => {
            lemma_simple_shadow_distance_symmetric(x, y);
        },
        _ => {},
    }
}

/// Every filter-entry distance is non-negative.
pub proof fn lemma_filter_distance_nonneg(a: ComputedFilter, b: ComputedFilter)
    ensures
        spec_filter_dist2(a, b) >= 0,
{
    match (a, b) {
        (GenericFilter::Blur(x), GenericFilter::Blur(y)) => lemma_dist2_zero_iff(
            x.au as int,
            y.au as int,
        ),
        (GenericFilter::Brightness(x), GenericFilter::Brightness(y)) => lemma_dist2_zero_iff(
            x.milli as int,
            y.milli as int,
        ),
        (GenericFilter::Contrast(x), GenericFilter::Contrast(y)) => lemma_dist2_zero_iff(
            x.milli as int,
            y.milli as int,
        ),
        (GenericFilter::Grayscale(x), GenericFilter::Grayscale(y)) => lemma_dist2_zero_iff(
            x.milli as int,
            y.milli as int,
        ),
        (GenericFilter::HueRotate(x), GenericFilter::HueRotate(y)) => lemma_dist2_zero_iff(
            x.millideg as int,
            y.millideg as int,
        ),
        (GenericFilter::Invert(x), GenericFilter::Invert(y)) => lemma_dist2_zero_iff(
            x.milli as int,
            y.milli as int,
        ),
        (GenericFilter::Opacity(x), GenericFilter::Opacity(y)) => lemma_dist2_zero_iff(
            x.milli as int,
            y.milli as int,
        ),
        (GenericFilter::Saturate(x), GenericFilter::Saturate(y)) => lemma_dist2_zero_iff(
            x.milli as int,
            y.milli as int,
        ),
        (GenericFilter::Sepia(x), GenericFilter::Sepia(y)) => lemma_dist2_zero_iff(
            x.milli as int,
            y.milli as int,
        ),
        (GenericFilter::DropShadow(x), GenericFilter::DropShadow(y)) => {
            lemma_simple_shadow_distance_zero_iff(x, y);
        },
        _ => {},
    }
}

/// On animatable entry pairs the distance metric is zero exactly on
/// equal entries.
pub proof fn lemma_filter_distance_zero_iff(a: ComputedFilter, b: ComputedFilter)
    requires
        filter_compatible(a, b),
    ensures
        spec_filter_dist2(a, b) >= 0,
        spec_filter_dist2(a, b) == 0 <==> a == b,
{
    lemma_filter_distance_nonneg(a, b);
    match (a, b) {
        (GenericFilter::Blur(x), GenericFilter::Blur(y)) => {
            lemma_dist2_zero_iff(x.au as int, y.au as int);
            if spec_filter_dist2(a, b) == 0 {
                assert(x == Length { au: x.au } && y == Length { au: y.au });
            }
        },
        (GenericFilter::Brightness(x), GenericFilter::Brightness(y)) => {
            lemma_dist2_zero_iff(x.milli as int, y.milli as int);
            if spec_filter_dist2(a, b) == 0 {
                assert(x == Factor { milli: x.milli } && y == Factor { milli: y.milli });
            }
        },
        (GenericFilter::Contrast(x), GenericFilter::Contrast(y)) => {
            lemma_dist2_zero_iff(x.milli as int, y.milli as int);
            if spec_filter_dist2(a, b) == 0 {
                assert(x == Factor { milli: x.milli } && y == Factor { milli: y.milli });
            }
        },
        (GenericFilter::Grayscale(x), GenericFilter::Grayscale(y)) => {
            lemma_dist2_zero_iff(x.milli as int, y.milli as int);
            if spec_filter_dist2(a, b) == 0 {
                assert(x == Factor { milli: x.milli } && y == Factor { milli: y.milli });
            }
        },
        (GenericFilter::HueRotate(x), GenericFilter::HueRotate(y)) => {
            lemma_dist2_zero_iff(x.millideg as int, y.millideg as int);
            if spec_filter_dist2(a, b) == 0 {
                assert(x == Angle { millideg: x.millideg } && y == Angle { millideg: y.millideg });
            }
        },
        (GenericFilter::Invert(x), GenericFilter::Invert(y)) => {
            lemma_dist2_zero_iff(x.milli as int, y.milli as int);
            if spec_filter_dist2(a, b) == 0 {
                assert(x == Factor { milli: x.milli } && y == Factor { milli: y.milli });
            }
        },
        (GenericFilter::Opacity(x), GenericFilter::Opacity(y)) => {
            lemma_dist2_zero_iff(x.milli as int, y.milli as int);
            if spec_filter_dist2(a, b) == 0 {
                assert(x == Factor { milli: x.milli } && y == Factor { milli: y.milli });
            }
        },
        (GenericFilter::Saturate(x), GenericFilter::Saturate(y)) => {
            lemma_dist2_zero_iff(x.milli as int, y.milli as int);
            if spec_filter_dist2(a, b) == 0 {
                assert(x == Factor { milli: x.milli } && y == Factor { milli: y.milli });
            }
        },
        (GenericFilter::Sepia(x), GenericFilter::Sepia(y)) => {
            lemma_dist2_zero_iff(x.milli as int, y.milli as int);
            if spec_filter_dist2(a, b) == 0 {
                assert(x == Factor { milli: x.milli } && y == Factor { milli: y.milli });
            }
        },
        (GenericFilter::DropShadow(x), GenericFilter::DropShadow(y)) => {
            lemma_simple_shadow_distance_zero_iff(x, y);
        },
        _ => {},
    }
}

/// The distance metric is defined and zero on any filter chain that is
/// animatable against itself (one without URL entries).
pub proof fn lemma_filter_list_distance_self(v: Seq<ComputedFilter>)
    requires
        filter_list_compatible(v, v),
    ensures
        spec_filter_list_dist2(v, v) == 0,
    decreases v.len(),
{
    if v.len() > 0 {
        lemma_filter_distance_self(v.last());
        assert(filter_list_compatible(v.drop_last(), v.drop_last()));
        lemma_filter_list_distance_self(v.drop_last());
    }
}

/// The distance metric on equal-length filter chains is symmetric.
pub proof fn lemma_filter_list_distance_symmetric(a: Seq<ComputedFilter>, b: Seq<ComputedFilter>)
    requires
        a.len() == b.len(),
    ensures
        filter_list_compatible(a, b) == filter_list_compatible(b, a),
        spec_filter_list_dist2(a, b) == spec_filter_list_dist2(b, a),
    decreases a.len(),
{
    assert forall|i: int| 0 <= i < a.len() implies filter_compatible(#[trigger] a[i], b[i])
        == filter_compatible(b[i], a[i]) by {
        lemma_filter_distance_symmetric(a[i], b[i]);
    }
    if a.len() > 0 {
        lemma_filter_distance_symmetric(a.last(), b.last());
        lemma_filter_list_distance_symmetric(a.drop_last(), b.drop_last());
    }
}

/// On animatable chain pairs the distance metric is zero exactly on
/// equal chains.
pub proof fn lemma_filter_list_distance_zero_iff(a: Seq<ComputedFilter>, b: Seq<ComputedFilter>)
    requires
        filter_list_compatible(a, b),
    ensures
        spec_filter_list_dist2(a, b) >= 0,
        spec_filter_list_dist2(a, b) == 0 <==> a == b,
    decreases a.len(),
{
    if a.len() == 0 {
        assert(a =~= b);
    } else {
        assert(filter_compatible(a.last(), b.last()));
        lemma_filter_distance_zero_iff(a.last(), b.last());
        assert(filter_list_compatible(a.drop_last(), b.drop_last()));
        lemma_filter_list_distance_zero_iff(a.drop_last(), b.drop_last());
        if spec_filter_list_dist2(a, b) == 0 {
            assert(a.drop_last() == b.drop_last() && a.last() == b.last());
            assert forall|i: int| 0 <= i < a.len() implies a[i] == b[i] by {
                if i < a.len() - 1 {
                    assert(a[i] == a.drop_last()[i]);
                    assert(b[i] == b.drop_last()[i]);
                }
            }
            assert(a =~= b);
        }
        if a == b {
            assert(a.drop_last() == b.drop_last() && a.last() == b.last());
        }
    }
}

/// Interpolation starts exactly at the first simple shadow and ends
/// exactly at the second.
pub proof fn lemma_simple_shadow_interpolation_ends(a: ComputedSimpleShadow, b: ComputedSimpleShadow)
    ensures
        spec_lerp_simple_shadow(a, b, 0) == a,
        spec_lerp_simple_shadow(a, b, PROGRESS_END as int) == b,
{
    lemma_lerp_ends(a.color.red as int, b.color.red as int);
    lemma_lerp_ends(a.color.green as int, b.color.green as int);
    lemma_lerp_ends(a.color.blue as int, b.color.blue as int);
    lemma_lerp_ends(a.color.alpha as int, b.color.alpha as int);
    lemma_lerp_ends(a.horizontal.au as int, b.horizontal.au as int);
    lemma_lerp_ends(a.vertical.au as int, b.vertical.au as int);
    lemma_lerp_ends(a.blur.au as int, b.blur.au as int);
    assert(a.color == Rgba {
        red: a.color.red,
        green: a.color.green,
        blue: a.color.blue,
        alpha: a.color.alpha,
    });
    assert(b.color == Rgba {
        red: b.color.red,
        green: b.color.green,
        blue: b.color.blue,
        alpha: b.color.alpha,
    });
    assert(a == GenericSimpleShadow {
        color: a.color,
        horizontal: Length { au: a.horizontal.au },
        vertical: Length { au: a.vertical.au },
        blur: Length { au: a.blur.au },
    });
    assert(b == GenericSimpleShadow {
        color: b.color,
        horizontal: Length { au: b.horizontal.au },
        vertical: Length { au: b.vertical.au },
        blur: Length { au: b.blur.au },
    });
}

/// Interpolation of an animatable box-shadow pair starts exactly at the
/// first endpoint and ends exactly at the second.
pub proof fn lemma_box_shadow_interpolation_ends(a: ComputedBoxShadow, b: ComputedBoxShadow)
    requires
        box_shadow_compatible(a, b),
    ensures
        spec_lerp_box_shadow(a, b, 0) == a,
        spec_lerp_box_shadow(a, b, PROGRESS_END as int) == b,
{
    lemma_simple_shadow_interpolation_ends(a.base, b.base);
    lemma_lerp_ends(a.spread.au as int, b.spread.au as int);
    assert(a == GenericBoxShadow { base: a.base, spread: Length { au: a.spread.au }, inset: a.inset });
    assert(b == GenericBoxShadow { base: b.base, spread: Length { au: b.spread.au }, inset: b.inset });
}

/// Interpolation of an animatable entry pair starts exactly at the first
/// entry and ends exactly at the second.
pub proof fn lemma_filter_interpolation_ends(a: ComputedFilter, b: ComputedFilter)
    requires
        filter_compatible(a, b),
    ensures
        spec_lerp_filter(a, b, 0) == a,
        spec_lerp_filter(a, b, PROGRESS_END as int) == b,
{
    match (a, b) {
        (GenericFilter::Blur(x), GenericFilter::Blur(y)) => {
            lemma_lerp_ends(x.au as int, y.au as int);
            assert(x == Length { au: x.au } && y == Length { au: y.au });
        },
        (GenericFilter::Brightness(x), GenericFilter::Brightness(y)) => {
            lemma_lerp_ends(x.milli as int, y.milli as int);
            assert(x == Factor { milli: x.milli } && y == Factor { milli: y.milli });
        },
        (GenericFilter::Contrast(x), GenericFilter::Contrast(y)) => {
            lemma_lerp_ends(x.milli as int, y.milli as int);
            assert(x == Factor { milli: x.milli } && y == Factor { milli: y.milli });
        },
        (GenericFilter::Grayscale(x), GenericFilter::Grayscale(y)) => {
            lemma_lerp_ends(x.milli as int, y.milli as int);
            assert(x == Factor { milli: x.milli } && y == Factor { milli: y.milli });
        },
        (GenericFilter::HueRotate(x), GenericFilter::HueRotate(y)) => {
            lemma_lerp_ends(x.millideg as int, y.millideg as int);
            assert(x == Angle { millideg: x.millideg } && y == Angle { millideg: y.millideg });
        },
        (GenericFilter::Invert(x), GenericFilter::Invert(y)) => {
            lemma_lerp_ends(x.milli as int, y.milli as int);
            assert(x == Factor { milli: x.milli } && y == Factor { milli: y.milli });
        },
        (GenericFilter::Opacity(x), GenericFilter::Opacity(y)) => {
            lemma_lerp_ends(x.milli as int, y.milli as int);
            assert(x == Factor { milli: x.milli } && y == Factor { milli: y.milli });
        },
        (GenericFilter::Saturate(x), GenericFilter::Saturate(y)) => {
            lemma_lerp_ends(x.milli as int, y.milli as int);
            assert(x == Factor { milli: x.milli } && y == Factor { milli: y.milli });
        },
        (GenericFilter::Sepia(x), GenericFilter::Sepia(y)) => {
            lemma_lerp_ends(x.milli as int, y.milli as int);
            assert(x == Factor { milli: x.milli } && y == Factor { milli: y.milli });
        },
        (GenericFilter::DropShadow(x), GenericFilter::DropShadow(y)) => {
            lemma_simple_shadow_interpolation_ends(x, y);
        },
        _ => {},
    }
}

/// Interpolation of an animatable chain pair starts exactly at the first
/// chain and ends exactly at the second.
pub proof fn lemma_filter_list_interpolation_ends(a: Seq<ComputedFilter>, b: Seq<ComputedFilter>)
    requires
        filter_list_compatible(a, b),
    ensures
        spec_lerp_filter_list(a, b, 0) == a,
        spec_lerp_filter_list(a, b, PROGRESS_END as int) == b,
{
    assert forall|i: int| 0 <= i < a.len() implies #[trigger] spec_lerp_filter(a[i], b[i], 0)
        == a[i] && spec_lerp_filter(a[i], b[i], PROGRESS_END as int) == b[i] by {
        lemma_filter_interpolation_ends(a[i], b[i]);
    }
    assert(spec_lerp_filter_list(a, b, 0) =~= a);
    assert(spec_lerp_filter_list(a, b, PROGRESS_END as int) =~= b);
}

/// The distance of the interpolated simple shadow from the first
/// endpoint grows monotonically with progress.
pub proof fn lemma_simple_shadow_interpolation_monotone(
    a: ComputedSimpleShadow,
    b: ComputedSimpleShadow,
    t1: int,
    t2: int,
)
    requires
        computed_simple_shadow_wf(a),
        computed_simple_shadow_wf(b),
        0 <= t1 <= t2 <= PROGRESS_END as int,
    ensures
        spec_simple_shadow_dist2(spec_lerp_simple_shadow(a, b, t1), a) <= spec_simple_shadow_dist2(
            spec_lerp_simple_shadow(a, b, t2),
            a,
        ),
{
    lemma_lerp_bounds(a.color.red as int, b.color.red as int, t1);
    lemma_lerp_bounds(a.color.green as int, b.color.green as int, t1);
    lemma_lerp_bounds(a.color.blue as int, b.color.blue as int, t1);
    lemma_lerp_bounds(a.color.alpha as int, b.color.alpha as int, t1);
    lemma_lerp_bounds(a.horizontal.au as int, b.horizontal.au as int, t1);
    lemma_lerp_bounds(a.vertical.au as int, b.vertical.au as int, t1);
    lemma_lerp_bounds(a.blur.au as int, b.blur.au as int, t1);
    lemma_lerp_bounds(a.color.red as int, b.color.red as int, t2);
    lemma_lerp_bounds(a.color.green as int, b.color.green as int, t2);
    lemma_lerp_bounds(a.color.blue as int, b.color.blue as int, t2);
    lemma_lerp_bounds(a.color.alpha as int, b.color.alpha as int, t2);
    lemma_lerp_bounds(a.horizontal.au as int, b.horizontal.au as int, t2);
    lemma_lerp_bounds(a.vertical.au as int, b.vertical.au as int, t2);
    lemma_lerp_bounds(a.blur.au as int, b.blur.au as int, t2);
    lemma_lerp_dist2_monotone(a.color.red as int, b.color.red as int, t1, t2);
    lemma_lerp_dist2_monotone(a.color.green as int, b.color.green as int, t1, t2);
    lemma_lerp_dist2_monotone(a.color.blue as int, b.color.blue as int, t1, t2);
    lemma_lerp_dist2_monotone(a.color.alpha as int, b.color.alpha as int, t1, t2);
    lemma_lerp_dist2_monotone(a.horizontal.au as int, b.horizontal.au as int, t1, t2);
    lemma_lerp_dist2_monotone(a.vertical.au as int, b.vertical.au as int, t1, t2);
    lemma_lerp_dist2_monotone(a.blur.au as int, b.blur.au as int, t1, t2);
}

/// The distance of the interpolated box shadow from the first endpoint
/// grows monotonically with progress, on animatable pairs.
pub proof fn lemma_box_shadow_interpolation_monotone(
    a: ComputedBoxShadow,
    b: ComputedBoxShadow,
    t1: int,
    t2: int,
)
    requires
        computed_box_shadow_wf(a),
        computed_box_shadow_wf(b),
        box_shadow_compatible(a, b),
        0 <= t1 <= t2 <= PROGRESS_END as int,
    ensures
        spec_box_shadow_dist2(spec_lerp_box_shadow(a, b, t1), a) <= spec_box_shadow_dist2(
            spec_lerp_box_shadow(a, b, t2),
            a,
        ),
{
    lemma_simple_shadow_interpolation_monotone(a.base, b.base, t1, t2);
    lemma_lerp_bounds(a.spread.au as int, b.spread.au as int, t1);
    lemma_lerp_bounds(a.spread.au as int, b.spread.au as int, t2);
    lemma_lerp_dist2_monotone(a.spread.au as int, b.spread.au as int, t1, t2);
}

/// The distance of the interpolated entry from the first entry grows
/// monotonically with progress, on animatable pairs.
pub proof fn lemma_filter_interpolation_monotone(
    a: ComputedFilter,
    b: ComputedFilter,
    t1: int,
    t2: int,
)
    requires
        computed_filter_wf(a),
        computed_filter_wf(b),
        filter_compatible(a, b),
        0 <= t1 <= t2 <= PROGRESS_END as int,
    ensures
        spec_filter_dist2(spec_lerp_filter(a, b, t1), a) <= spec_filter_dist2(
            spec_lerp_filter(a, b, t2),
            a,
        ),
{
    match (a, b) {
        (GenericFilter::Blur(x), GenericFilter::Blur(y)) => {
            lemma_lerp_bounds(x.au as int, y.au as int, t1);
            lemma_lerp_bounds(x.au as int, y.au as int, t2);
            lemma_lerp_dist2_monotone(x.au as int, y.au as int, t1, t2);
        },
        (GenericFilter::Brightness(x), GenericFilter::Brightness(y)) => {
            lemma_lerp_bounds(x.milli as int, y.milli as int, t1);
            lemma_lerp_bounds(x.milli as int, y.milli as int, t2);
            lemma_lerp_dist2_monotone(x.milli as int, y.milli as int, t1, t2);
        },
        (GenericFilter::Contrast(x), GenericFilter::Contrast(y)) => {
            lemma_lerp_bounds(x.milli as int, y.milli as int, t1);
            lemma_lerp_bounds(x.milli as int, y.milli as int, t2);
            lemma_lerp_dist2_monotone(x.milli as int, y.milli as int, t1, t2);
        },
        (GenericFilter::Grayscale(x), GenericFilter::Grayscale(y)) => {
            lemma_lerp_bounds(x.milli as int, y.milli as int, t1);
            lemma_lerp_bounds(x.milli as int, y.milli as int, t2);
            lemma_lerp_dist2_monotone(x.milli as int, y.milli as int, t1, t2);
        },
        (GenericFilter::HueRotate(x), GenericFilter::HueRotate(y)) => {
            lemma_lerp_bounds(x.millideg as int, y.millideg as int, t1);
            lemma_lerp_bounds(x.millideg as int, y.millideg as int, t2);
            lemma_lerp_dist2_monotone(x.millideg as int, y.millideg as int, t1, t2);
        },
        (GenericFilter::Invert(x), GenericFilter::Invert(y)) => {
            lemma_lerp_bounds(x.milli as int, y.milli as int, t1);
            lemma_lerp_bounds(x.milli as int, y.milli as int, t2);
            lemma_lerp_dist2_monotone(x.milli as int, y.milli as int, t1, t2);
        },
        (GenericFilter::Opacity(x), GenericFilter::Opacity(y)) => {
            lemma_lerp_bounds(x.milli as int, y.milli as int, t1);
            lemma_lerp_bounds(x.milli as int, y.milli as int, t2);
            lemma_lerp_dist2_monotone(x.milli as int, y.milli as int, t1, t2);
        },
        (GenericFilter::Saturate(x), GenericFilter::Saturate(y)) => {
            lemma_lerp_bounds(x.milli as int, y.milli as int, t1);
            lemma_lerp_bounds(x.milli as int, y.milli as int, t2);
            lemma_lerp_dist2_monotone(x.milli as int, y.milli as int, t1, t2);
        },
        (GenericFilter::Sepia(x), GenericFilter::Sepia(y)) => {
            lemma_lerp_bounds(x.milli as int, y.milli as int, t1);
            lemma_lerp_bounds(x.milli as int, y.milli as int, t2);
            lemma_lerp_dist2_monotone(x.milli as int, y.milli as int, t1, t2);
        },
        (GenericFilter::DropShadow(x), GenericFilter::DropShadow(y)) => {
            lemma_simple_shadow_interpolation_monotone(x, y, t1, t2);
        },
        _ => {},
    }
}

/// The distance of the interpolated chain from the first chain grows
/// monotonically with progress, on animatable pairs.
pub proof fn lemma_filter_list_interpolation_monotone(
    a: Seq<ComputedFilter>,
    b: Seq<ComputedFilter>,
    t1: int,
    t2: int,
)
    requires
        filter_list_wf(a),
        filter_list_wf(b),
        filter_list_compatible(a, b),
        0 <= t1 <= t2 <= PROGRESS_END as int,
    ensures
        spec_filter_list_dist2(spec_lerp_filter_list(a, b, t1), a) <= spec_filter_list_dist2(
            spec_lerp_filter_list(a, b, t2),
            a,
        ),
    decreases a.len(),
{
    if a.len() > 0 {
        let l1 = spec_lerp_filter_list(a, b, t1);
        let l2 = spec_lerp_filter_list(a, b, t2);
        assert(l1.drop_last() =~= spec_lerp_filter_list(a.drop_last(), b.drop_last(), t1));
        assert(l2.drop_last() =~= spec_lerp_filter_list(a.drop_last(), b.drop_last(), t2));
        assert(filter_list_compatible(a.drop_last(), b.drop_last()));
        assert(filter_list_wf(a.drop_last()));
        assert(filter_list_wf(b.drop_last()));
        lemma_filter_list_interpolation_monotone(a.drop_last(), b.drop_last(), t1, t2);
        assert(filter_compatible(a.last(), b.last()));
        assert(computed_filter_wf(a.last()));
        assert(computed_filter_wf(b.last()));
        lemma_filter_interpolation_monotone(a.last(), b.last(), t1, t2);
        assert(l1.last() == spec_lerp_filter(a.last(), b.last(), t1));
        assert(l2.last() == spec_lerp_filter(a.last(), b.last(), t2));
        assert(spec_filter_list_dist2(l1, a) == spec_filter_list_dist2(l1.drop_last(), a.drop_last())
            + spec_filter_dist2(l1.last(), a.last()));
        assert(spec_filter_list_dist2(l2, a) == spec_filter_list_dist2(l2.drop_last(), a.drop_last())
            + spec_filter_dist2(l2.last(), a.last()));
    }
}

/// Copies a filter chain.
fn filter_list_copy(fs: &Vec<ComputedFilter>) -> (r: Vec<ComputedFilter>)
    ensures
        r@ == fs@,
{
    let mut out: Vec<ComputedFilter> = Vec::new();
    let mut i: usize = 0;
    while i < fs.len()
        invariant
            0 <= i <= fs@.len(),
            out@ == fs@.take(i as int),
        decreases fs@.len() - i,
    {
        out.push(fs[i]);
        proof {
            assert(out@ =~= fs@.take(i + 1 as int));
        }
        i = i + 1;
    }
    proof {
        assert(fs@.take(fs@.len() as int) =~= fs@);
    }
    out
}

} // verus!
