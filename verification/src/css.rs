//! CSS-syntax serialization of computed values.
//!
//! Serialization emits canonical property-value text: colors as
//! eight-digit hex, lengths as pixels with at most two decimals, factors
//! as percentages, angles in degrees.  The text is for value inspection
//! and developer tooling; it is never parsed to build values, except
//! that the canonical box-shadow text of a computed value can be read
//! back by [`parse_box_shadow`], which accepts exactly that canonical
//! form (anything it accepts re-serializes to the very same text).

use vstd::prelude::*;
use vstd::arithmetic::div_mod::lemma_fundamental_div_mod;
use vstd::string::StringExecFns;
use vstd::string::StrSliceExecFns;
use crate::axis::{Rgba, AXIS_MAX, AU_PER_PX};
use crate::effects::{
    computed_box_shadow_wf, computed_filter_wf, computed_simple_shadow_wf, filter_list_wf,
    ComputedBoxShadow, ComputedFilter, ComputedSimpleShadow, GenericBoxShadow, GenericFilter,
    GenericSimpleShadow,
};
use crate::axis::Length;

verus! {

/// The character for one decimal digit.
pub open spec fn digit_char(d: int) -> char {
    if d == 0 {
        '0'
    } else if d == 1 {
        '1'
    } else if d == 2 {
        '2'
    } else if d == 3 {
        '3'
    } else if d == 4 {
        '4'
    } else if d == 5 {
        '5'
    } else if d == 6 {
        '6'
    } else if d == 7 {
        '7'
    } else if d == 8 {
        '8'
    } else {
        '9'
    }
}

/// The character for one hex digit, lower-case.
pub open spec fn hex_char(d: int) -> char {
    if d < 10 {
        digit_char(d)
    } else if d == 10 {
        'a'
    } else if d == 11 {
        'b'
    } else if d == 12 {
        'c'
    } else if d == 13 {
        'd'
    } else if d == 14 {
        'e'
    } else {
        'f'
    }
}

/// The decimal digits of a number, most significant first.
pub open spec fn dec_digits(n: nat) -> Seq<char>
    decreases n,
{
    if n < 10 {
        seq![digit_char(n as int)]
    } else {
        dec_digits(n / 10).push(digit_char((n % 10) as int))
    }
}

/// The fractional digits of `frac` out of `scale`, trailing zeros
/// trimmed.
pub open spec fn frac_digits(frac: int, scale: int) -> Seq<char>
    decreases scale,
{
    if scale <= 1 || frac <= 0 {
        Seq::empty()
    } else {
        seq![digit_char(frac / (scale / 10))] + frac_digits(frac % (scale / 10), scale / 10)
    }
}

/// A scaled integer as decimal text: sign, integer part, and the
/// non-zero fractional part after a dot.
pub open spec fn fixed_text(v: int, scale: int) -> Seq<char> {
    let mag = if v < 0 {
        -v
    } else {
        v
    };
    (if v < 0 {
        seq!['-']
    } else {
        Seq::empty()
    }) + dec_digits((mag / scale) as nat) + (if mag % scale == 0 {
        Seq::empty()
    } else {
        seq!['.'] + frac_digits(mag % scale, scale)
    })
}

/// A length as pixel text.
pub open spec fn px_text(au: int) -> Seq<char> {
    fixed_text(au, AU_PER_PX as int) + ("px")@
}

/// A factor as percentage text.
pub open spec fn percent_text(milli: int) -> Seq<char> {
    fixed_text(milli, 10) + ("%")@
}

/// An angle as degree text.
pub open spec fn deg_text(millideg: int) -> Seq<char> {
    fixed_text(millideg, 1000) + ("deg")@
}

/// Two hex digits of one byte.
pub open spec fn hex_byte(b: int) -> Seq<char> {
    seq![hex_char(b / 16), hex_char(b % 16)]
}

/// A color as an eight-digit hex value.
pub open spec fn color_css(c: Rgba) -> Seq<char> {
    ("#")@ + hex_byte(c.red as int) + hex_byte(c.green as int) + hex_byte(c.blue as int)
        + hex_byte(c.alpha as int)
}

/// The canonical text of a simple shadow: color first, then the offsets
/// and the blur radius.
pub open spec fn simple_shadow_css(v: ComputedSimpleShadow) -> Seq<char> {
    color_css(v.color) + (" ")@ + px_text(v.horizontal.au as int) + (" ")@ + px_text(
        v.vertical.au as int,
    ) + (" ")@ + px_text(v.blur.au as int)
}

/// The canonical text of a box shadow.
pub open spec fn box_shadow_css(v: ComputedBoxShadow) -> Seq<char> {
    simple_shadow_css(v.base) + (" ")@ + px_text(v.spread.au as int) + (if v.inset {
        (" inset")@
    } else {
        Seq::empty()
    })
}

/// The canonical text of one filter-chain entry.
pub open spec fn filter_css(f: ComputedFilter) -> Seq<char> {
    match f {
        GenericFilter::Blur(l) => ("blur(")@ + px_text(l.au as int) + (")")@,
        GenericFilter::Brightness(x) => ("brightness(")@ + percent_text(x.milli as int) + (")")@,
        GenericFilter::Contrast(x) => ("contrast(")@ + percent_text(x.milli as int) + (")")@,
        GenericFilter::Grayscale(x) => ("grayscale(")@ + percent_text(x.milli as int) + (")")@,
        GenericFilter::HueRotate(a) => ("hue-rotate(")@ + deg_text(a.millideg as int) + (")")@,
        GenericFilter::Invert(x) => ("invert(")@ + percent_text(x.milli as int) + (")")@,
        GenericFilter::Opacity(x) => ("opacity(")@ + percent_text(x.milli as int) + (")")@,
        GenericFilter::Saturate(x) => ("saturate(")@ + percent_text(x.milli as int) + (")")@,
        GenericFilter::Sepia(x) => ("sepia(")@ + percent_text(x.milli as int) + (")")@,
        GenericFilter::DropShadow(s) => ("drop-shadow(")@ + simple_shadow_css(s) + (")")@,
        GenericFilter::Url(u) => ("url(#")@ + dec_digits(u.handle as nat) + (")")@,
    }
}

/// The canonical text of a whole filter chain: entries separated by
/// single spaces, or the `none` keyword for an empty chain.
pub open spec fn filter_list_css(fs: Seq<ComputedFilter>) -> Seq<char>
    decreases fs.len(),
{
    if fs.len() == 0 {
        ("none")@
    } else if fs.len() == 1 {
        filter_css(fs[0])
    } else {
        filter_list_css(fs.drop_last()) + (" ")@ + filter_css(fs.last())
    }
}

/// Appends one decimal digit.
fn push_digit(out: &mut String, d: u8)
    requires
        d < 10,
    ensures
        final(out)@ == old(out)@ + seq![digit_char(d as int)],
{
    proof {
        reveal_strlit("0");
        reveal_strlit("1");
        reveal_strlit("2");
        reveal_strlit("3");
        reveal_strlit("4");
        reveal_strlit("5");
        reveal_strlit("6");
        reveal_strlit("7");
        reveal_strlit("8");
        reveal_strlit("9");
    }
    if d == 0 {
        out.append("0");
    } else if d == 1 {
        out.append("1");
    } else if d == 2 {
        out.append("2");
    } else if d == 3 {
        out.append("3");
    } else if d == 4 {
        out.append("4");
    } else if d == 5 {
        out.append("5");
    } else if d == 6 {
        out.append("6");
    } else if d == 7 {
        out.append("7");
    } else if d == 8 {
        out.append("8");
    } else {
        out.append("9");
    }
    proof {
        assert(final(out)@ =~= old(out)@ + seq![digit_char(d as int)]);
    }
}

/// Appends one lower-case hex digit.
fn push_hex_digit(out: &mut String, d: u8)
    requires
        d < 16,
    ensures
        final(out)@ == old(out)@ + seq![hex_char(d as int)],
{
    if d < 10 {
        push_digit(out, d);
    } else {
        proof {
            reveal_strlit("a");
            reveal_strlit("b");
            reveal_strlit("c");
            reveal_strlit("d");
            reveal_strlit("e");
            reveal_strlit("f");
        }
        if d == 10 {
            out.append("a");
        } else if d == 11 {
            out.append("b");
        } else if d == 12 {
            out.append("c");
        } else if d == 13 {
            out.append("d");
        } else if d == 14 {
            out.append("e");
        } else {
            out.append("f");
        }
        proof {
            assert(final(out)@ =~= old(out)@ + seq![hex_char(d as int)]);
        }
    }
}

/// Appends the decimal digits of a number.
fn push_dec(out: &mut String, n: u64)
    ensures
        final(out)@ == old(out)@ + dec_digits(n as nat),
    decreases n,
{
    if n < 10 {
        push_digit(out, n as u8);
    } else {
        push_dec(out, n / 10);
        push_digit(out, (n % 10) as u8);
        proof {
            assert(final(out)@ =~= old(out)@ + dec_digits(n as nat));
        }
    }
}

/// Appends the trimmed fractional digits of `frac` out of `scale`.
fn push_frac(out: &mut String, frac: u32, scale: u32)
    requires
        scale == 10 || scale == 100 || scale == 1000,
        frac < scale,
    ensures
        final(out)@ == old(out)@ + frac_digits(frac as int, scale as int),
    decreases scale,
{
    if frac == 0 {
        return ;
    }
    let sub: u32 = scale / 10;
    proof {
        assert(scale == sub * 10);
        assert(frac / sub < 10) by (nonlinear_arith)
            requires
                0 < sub,
                frac < scale,
                scale == sub * 10,
        ;
    }
    push_digit(out, (frac / sub) as u8);
    if sub > 1 {
        push_frac(out, frac % sub, sub);
    }
    proof {
        if sub == 1 {
            assert(frac % sub == 0);
            assert(frac_digits((frac % sub) as int, sub as int) =~= Seq::<char>::empty());
        }
        assert(frac_digits(frac as int, scale as int) == seq![
            digit_char((frac / sub) as int),
        ] + frac_digits((frac % sub) as int, sub as int));
        assert(final(out)@ =~= old(out)@ + frac_digits(frac as int, scale as int));
    }
}

/// Appends a scaled integer as decimal text.
fn push_fixed(out: &mut String, v: i32, scale: u32)
    requires
        scale == 10 || scale == 100 || scale == 1000,
        -AXIS_MAX <= v <= AXIS_MAX,
    ensures
        final(out)@ == old(out)@ + fixed_text(v as int, scale as int),
{
    proof {
        reveal_strlit("-");
        reveal_strlit(".");
    }
    let mag: u32 = if v >= 0 {
        v as u32
    } else {
        (-v) as u32
    };
    if v < 0 {
        out.append("-");
    }
    push_dec(out, (mag / scale) as u64);
    let frac: u32 = mag % scale;
    if frac != 0 {
        out.append(".");
        push_frac(out, frac, scale);
    }
    proof {
        assert(final(out)@ =~= old(out)@ + fixed_text(v as int, scale as int));
    }
}

/// Appends the hex text of one color.
fn push_color(out: &mut String, c: &Rgba)
    ensures
        final(out)@ == old(out)@ + color_css(*c),
{
    out.append("#");
    push_hex_digit(out, c.red / 16);
    push_hex_digit(out, c.red % 16);
    push_hex_digit(out, c.green / 16);
    push_hex_digit(out, c.green % 16);
    push_hex_digit(out, c.blue / 16);
    push_hex_digit(out, c.blue % 16);
    push_hex_digit(out, c.alpha / 16);
    push_hex_digit(out, c.alpha % 16);
    proof {
        assert(final(out)@ =~= old(out)@ + color_css(*c));
    }
}

/// Appends the canonical text of a simple shadow.
fn push_simple_shadow(out: &mut String, v: &ComputedSimpleShadow)
    requires
        computed_simple_shadow_wf(*v),
    ensures
        final(out)@ == old(out)@ + simple_shadow_css(*v),
{
    push_color(out, &v.color);
    out.append(" ");
    push_fixed(out, v.horizontal.au, AU_PER_PX as u32);
    out.append("px");
    out.append(" ");
    push_fixed(out, v.vertical.au, AU_PER_PX as u32);
    out.append("px");
    out.append(" ");
    push_fixed(out, v.blur.au, AU_PER_PX as u32);
    out.append("px");
    proof {
        assert(final(out)@ =~= old(out)@ + simple_shadow_css(*v));
    }
}

/// Serializes a computed simple shadow to its canonical CSS text.
pub fn simple_shadow_to_css(v: &ComputedSimpleShadow) -> (r: String)
    requires
        computed_simple_shadow_wf(*v),
    ensures
        r@ == simple_shadow_css(*v),
{
    let mut out = String::new();
    push_simple_shadow(&mut out, v);
    proof {
        assert(out@ =~= simple_shadow_css(*v));
    }
    out
}

/// Serializes a computed box shadow to its canonical CSS text.
pub fn box_shadow_to_css(v: &ComputedBoxShadow) -> (r: String)
    requires
        computed_box_shadow_wf(*v),
    ensures
        r@ == box_shadow_css(*v),
{
    let mut out = String::new();
    push_simple_shadow(&mut out, &v.base);
    out.append(" ");
    push_fixed(&mut out, v.spread.au, AU_PER_PX as u32);
    out.append("px");
    if v.inset {
        out.append(" inset");
    }
    proof {
        assert(out@ =~= box_shadow_css(*v));
    }
    out
}

/// Serializes one computed filter-chain entry to its canonical CSS text.
pub fn filter_to_css(f: &ComputedFilter) -> (r: String)
    requires
        computed_filter_wf(*f),
    ensures
        r@ == filter_css(*f),
{
    let mut out = String::new();
    match f {
        GenericFilter::Blur(l) => {
            out.append("blur(");
            push_fixed(&mut out, l.au, AU_PER_PX as u32);
            out.append("px");
            out.append(")");
        },
        GenericFilter::Brightness(x) => {
            out.append("brightness(");
            push_fixed(&mut out, x.milli, 10);
            out.append("%");
            out.append(")");
        },
        GenericFilter::Contrast(x) => {
            out.append("contrast(");
            push_fixed(&mut out, x.milli, 10);
            out.append("%");
            out.append(")");
        },
        GenericFilter::Grayscale(x) => {
            out.append("grayscale(");
            push_fixed(&mut out, x.milli, 10);
            out.append("%");
            out.append(")");
        },
        GenericFilter::HueRotate(a) => {
            out.append("hue-rotate(");
            push_fixed(&mut out, a.millideg, 1000);
            out.append("deg");
            out.append(")");
        },
        GenericFilter::Invert(x) => {
            out.append("invert(");
            push_fixed(&mut out, x.milli, 10);
            out.append("%");
            out.append(")");
        },
        GenericFilter::Opacity(x) => {
            out.append("opacity(");
            push_fixed(&mut out, x.milli, 10);
            out.append("%");
            out.append(")");
        },
        GenericFilter::Saturate(x) => {
            out.append("saturate(");
            push_fixed(&mut out, x.milli, 10);
            out.append("%");
            out.append(")");
        },
        GenericFilter::Sepia(x) => {
            out.append("sepia(");
            push_fixed(&mut out, x.milli, 10);
            out.append("%");
            out.append(")");
        },
        GenericFilter::DropShadow(s) => {
            out.append("drop-shadow(");
            push_simple_shadow(&mut out, s);
            out.append(")");
        },
        GenericFilter::Url(u) => {
            out.append("url(#");
            push_dec(&mut out, u.handle);
            out.append(")");
        },
    }
    proof {
        assert(out@ =~= filter_css(*f));
    }
    out
}

/// Serializes a computed filter chain to its canonical CSS text.
pub fn filter_list_to_css(fs: &Vec<ComputedFilter>) -> (r: String)
    requires
        filter_list_wf(fs@),
    ensures
        r@ == filter_list_css(fs@),
{
    if fs.len() == 0 {
        let mut out = String::new();
        out.append("none");
        proof {
            assert(out@ =~= filter_list_css(fs@));
        }
        return out;
    }
    let mut out = filter_to_css(&fs[0]);
    proof {
        assert(fs@.take(1) =~= seq![fs@[0]]);
        assert(filter_list_css(fs@.take(1)) == filter_css(fs@[0]));
    }
    let mut i: usize = 1;
    while i < fs.len()
        invariant
            1 <= i <= fs@.len(),
            filter_list_wf(fs@),
            out@ == filter_list_css(fs@.take(i as int)),
        decreases fs@.len() - i,
    {
        out.append(" ");
        let entry = filter_to_css(&fs[i]);
        out.append(entry.as_str());
        proof {
            let prefix = fs@.take(i + 1 as int);
            assert(prefix.drop_last() =~= fs@.take(i as int));
            assert(prefix.last() == fs@[i as int]);
            assert(out@ =~= filter_list_css(prefix));
        }
        i = i + 1;
    }
    proof {
        assert(fs@.take(fs@.len() as int) =~= fs@);
    }
    out
}

/// The value of one decimal digit character.
pub open spec fn dec_digit_val(c: char) -> Option<u8> {
    if c == '0' {
        Some(0u8)
    } else if c == '1' {
        Some(1u8)
    } else if c == '2' {
        Some(2u8)
    } else if c == '3' {
        Some(3u8)
    } else if c == '4' {
        Some(4u8)
    } else if c == '5' {
        Some(5u8)
    } else if c == '6' {
        Some(6u8)
    } else if c == '7' {
        Some(7u8)
    } else if c == '8' {
        Some(8u8)
    } else if c == '9' {
        Some(9u8)
    } else {
        None
    }
}

/// The value of one lower-case hex digit character.
pub open spec fn hex_digit_val(c: char) -> Option<u8> {
    if c == 'a' {
        Some(10u8)
    } else if c == 'b' {
        Some(11u8)
    } else if c == 'c' {
        Some(12u8)
    } else if c == 'd' {
        Some(13u8)
    } else if c == 'e' {
        Some(14u8)
    } else if c == 'f' {
        Some(15u8)
    } else {
        dec_digit_val(c)
    }
}

/// True on the ten decimal digit characters.
pub open spec fn is_dec_digit(c: char) -> bool {
    dec_digit_val(c) is Some
}

/// Length of the leading run of decimal digits.
pub open spec fn digit_run(t: Seq<char>) -> nat
    decreases t.len(),
{
    if t.len() > 0 && is_dec_digit(t[0]) {
        1 + digit_run(t.skip(1))
    } else {
        0
    }
}

/// The number a run of decimal digits denotes.
pub open spec fn digits_val(t: Seq<char>) -> int
    decreases t.len(),
{
    if t.len() == 0 {
        0
    } else {
        digits_val(t.drop_last()) * 10 + dec_digit_val(t.last()).unwrap() as int
    }
}

/// Powers of ten.
pub open spec fn pow10(k: nat) -> int
    decreases k,
{
    if k == 0 {
        1
    } else {
        10 * pow10((k - 1) as nat)
    }
}

/// What scanning a color from the front of `t` yields: the color and the
/// number of characters consumed.
#[verifier::opaque]
pub open spec fn spec_scan_color(t: Seq<char>) -> Option<(Rgba, int)> {
    if t.len() >= 9 && t[0] == '#' && hex_digit_val(t[1]) is Some && hex_digit_val(t[2]) is Some
        && hex_digit_val(t[3]) is Some && hex_digit_val(t[4]) is Some && hex_digit_val(t[5]) is Some
        && hex_digit_val(t[6]) is Some && hex_digit_val(t[7]) is Some && hex_digit_val(
        t[8],
    ) is Some {
        Some(
            (
                Rgba {
                    red: (hex_digit_val(t[1]).unwrap() as int * 16 + hex_digit_val(
                        t[2],
                    ).unwrap() as int) as u8,
                    green: (hex_digit_val(t[3]).unwrap() as int * 16 + hex_digit_val(
                        t[4],
                    ).unwrap() as int) as u8,
                    blue: (hex_digit_val(t[5]).unwrap() as int * 16 + hex_digit_val(
                        t[6],
                    ).unwrap() as int) as u8,
                    alpha: (hex_digit_val(t[7]).unwrap() as int * 16 + hex_digit_val(
                        t[8],
                    ).unwrap() as int) as u8,
                },
                9,
            ),
        )
    } else {
        None
    }
}

/// The tail of a pixel-length scan: the unit suffix and the axis bound.
pub open spec fn spec_px_done(t: Seq<char>, j: int, neg: bool, mag: int) -> Option<(int, int)> {
    if j + 2 <= t.len() && t[j] == 'p' && t[j + 1] == 'x' && mag <= AXIS_MAX as int {
        Some(
            (
                if neg {
                    -mag
                } else {
                    mag
                },
                j + 2,
            ),
        )
    } else {
        None
    }
}

/// What scanning a pixel length from the front of `t` yields: the length
/// in hundredths of a pixel and the number of characters consumed.  At
/// most six integer digits and two fractional digits are read.
#[verifier::opaque]
pub open spec fn spec_scan_px(t: Seq<char>) -> Option<(int, int)> {
    let neg = t.len() > 0 && t[0] == '-';
    let i0: int = if neg {
        1
    } else {
        0
    };
    let w = digit_run(t.skip(i0)) as int;
    if w == 0 || w > 6 {
        None
    } else {
        let whole = digits_val(t.skip(i0).take(w));
        let j = i0 + w;
        if j < t.len() && t[j] == '.' {
            if j + 1 < t.len() && is_dec_digit(t[j + 1]) {
                if j + 2 < t.len() && is_dec_digit(t[j + 2]) {
                    spec_px_done(
                        t,
                        j + 3,
                        neg,
                        whole * 100 + dec_digit_val(t[j + 1]).unwrap() as int * 10 + dec_digit_val(
                            t[j + 2],
                        ).unwrap() as int,
                    )
                } else {
                    spec_px_done(
                        t,
                        j + 2,
                        neg,
                        whole * 100 + dec_digit_val(t[j + 1]).unwrap() as int * 10,
                    )
                }
            } else {
                None
            }
        } else {
            spec_px_done(t, j, neg, whole * 100)
        }
    }
}

/// After the spread radius: the text must end, either plainly or in
/// the inset keyword.
pub open spec fn spec_scan_tail(
    rest: Seq<char>,
    base: ComputedSimpleShadow,
    spread: int,
) -> Option<ComputedBoxShadow> {
    if rest.len() == 0 {
        Some(GenericBoxShadow { base, spread: Length { au: spread as i32 }, inset: false })
    } else if rest == (" inset")@ {
        Some(GenericBoxShadow { base, spread: Length { au: spread as i32 }, inset: true })
    } else {
        None
    }
}

/// After the blur radius: a space, the spread radius, and the tail.
pub open spec fn spec_scan_after_blur(
    rest: Seq<char>,
    base: ComputedSimpleShadow,
) -> Option<ComputedBoxShadow> {
    if rest.len() > 0 && rest[0] == ' ' {
        match spec_scan_px(rest.skip(1)) {
            Option::Some((spread, c4)) => spec_scan_tail(rest.skip(1 + c4), base, spread),
            Option::None => None,
        }
    } else {
        None
    }
}

/// After the vertical offset: a space and a non-negative blur radius.
pub open spec fn spec_scan_after_vertical(
    rest: Seq<char>,
    color: Rgba,
    h: int,
    v: int,
) -> Option<ComputedBoxShadow> {
    if rest.len() > 0 && rest[0] == ' ' {
        match spec_scan_px(rest.skip(1)) {
            Option::Some((b, c3)) => if b >= 0 {
                spec_scan_after_blur(
                    rest.skip(1 + c3),
                    GenericSimpleShadow {
                        color,
                        horizontal: Length { au: h as i32 },
                        vertical: Length { au: v as i32 },
                        blur: Length { au: b as i32 },
                    },
                )
            } else {
                None
            },
            Option::None => None,
        }
    } else {
        None
    }
}

/// After the horizontal offset: a space and the vertical offset.
pub open spec fn spec_scan_after_horizontal(
    rest: Seq<char>,
    color: Rgba,
    h: int,
) -> Option<ComputedBoxShadow> {
    if rest.len() > 0 && rest[0] == ' ' {
        match spec_scan_px(rest.skip(1)) {
            Option::Some((v, c2)) => spec_scan_after_vertical(rest.skip(1 + c2), color, h, v),
            Option::None => None,
        }
    } else {
        None
    }
}

/// After the color: a space and the horizontal offset.
pub open spec fn spec_scan_after_color(rest: Seq<char>, color: Rgba) -> Option<ComputedBoxShadow> {
    if rest.len() > 0 && rest[0] == ' ' {
        match spec_scan_px(rest.skip(1)) {
            Option::Some((h, c1)) => spec_scan_after_horizontal(rest.skip(1 + c1), color, h),
            Option::None => None,
        }
    } else {
        None
    }
}

/// What scanning whole box-shadow text yields: the color, four pixel
/// lengths with a non-negative blur, and the optional inset keyword,
/// consuming the text exactly.
pub open spec fn spec_scan_box_shadow(t: Seq<char>) -> Option<ComputedBoxShadow> {
    match spec_scan_color(t) {
        Option::Some((color, p0)) => spec_scan_after_color(t.skip(9), color),
        Option::None => None,
    }
}

/// A decimal digit character reads back as its value.
proof fn lemma_digit_char_val(d: int)
    requires
        0 <= d < 10,
    ensures
        dec_digit_val(digit_char(d)) == Some(d as u8),
{
}

/// A hex digit character reads back as its value.
proof fn lemma_hex_char_val(d: int)
    requires
        0 <= d < 16,
    ensures
        hex_digit_val(hex_char(d)) == Some(d as u8),
{
}

/// Decimal digit text consists of digit characters, at least one.
proof fn lemma_dec_digits_are_digits(n: nat)
    ensures
        dec_digits(n).len() >= 1,
        forall|i: int| 0 <= i < dec_digits(n).len() ==> is_dec_digit(#[trigger] dec_digits(n)[i]),
    decreases n,
{
    if n < 10 {
        lemma_digit_char_val(n as int);
    } else {
        lemma_dec_digits_are_digits(n / 10);
        lemma_digit_char_val((n % 10) as int);
        assert forall|i: int| 0 <= i < dec_digits(n).len() implies is_dec_digit(
            #[trigger] dec_digits(n)[i],
        ) by {
            if i < dec_digits(n / 10).len() {
                assert(dec_digits(n)[i] == dec_digits(n / 10)[i]);
            } else {
                assert(dec_digits(n)[i] == digit_char((n % 10) as int));
            }
        }
    }
}

/// Decimal digit text reads back as its number.
proof fn lemma_dec_digits_val(n: nat)
    ensures
        digits_val(dec_digits(n)) == n,
    decreases n,
{
    if n < 10 {
        lemma_digit_char_val(n as int);
        assert(dec_digits(n).drop_last() =~= Seq::<char>::empty());
        assert(digits_val(Seq::<char>::empty()) == 0);
        assert(dec_digits(n).last() == digit_char(n as int));
    } else {
        lemma_dec_digits_val(n / 10);
        lemma_digit_char_val((n % 10) as int);
        lemma_fundamental_div_mod(n as int, 10);
        assert(dec_digits(n).drop_last() =~= dec_digits(n / 10));
        assert(dec_digits(n).last() == digit_char((n % 10) as int));
    }
}

/// A number below the `k`-th power of ten takes at most `k` digits.
proof fn lemma_dec_digits_len(n: nat, k: nat)
    requires
        1 <= k,
        n < pow10(k),
    ensures
        dec_digits(n).len() <= k,
    decreases k,
{
    if n < 10 {
    } else {
        assert(pow10(k) == 10 * pow10((k - 1) as nat));
        assert(pow10(0) == 1);
        assert(pow10(1) == 10);
        assert(k >= 2) by {
            if k == 1 {
                assert(pow10(k) == 10);
                assert(n < 10);
            }
        }
        assert(n / 10 < pow10((k - 1) as nat)) by (nonlinear_arith)
            requires
                n < 10 * pow10((k - 1) as nat),
                pow10((k - 1) as nat) >= 1,
                n >= 10,
        ;
        lemma_dec_digits_len(n / 10, (k - 1) as nat);
    }
}

/// Scanning the canonical text of a color reads the color back,
/// whatever follows it.
proof fn lemma_scan_color_css(c: Rgba, rest: Seq<char>)
    ensures
        spec_scan_color(color_css(c) + rest) == Some((c, 9int)),
{
    reveal_strlit("#");
    reveal(spec_scan_color);
    let t = color_css(c) + rest;
    lemma_hex_char_val(c.red as int / 16);
    lemma_hex_char_val(c.red as int % 16);
    lemma_hex_char_val(c.green as int / 16);
    lemma_hex_char_val(c.green as int % 16);
    lemma_hex_char_val(c.blue as int / 16);
    lemma_hex_char_val(c.blue as int % 16);
    lemma_hex_char_val(c.alpha as int / 16);
    lemma_hex_char_val(c.alpha as int % 16);
    assert(t[0] == '#');
    assert(t[1] == hex_char(c.red as int / 16));
    assert(t[2] == hex_char(c.red as int % 16));
    assert(t[3] == hex_char(c.green as int / 16));
    assert(t[4] == hex_char(c.green as int % 16));
    assert(t[5] == hex_char(c.blue as int / 16));
    assert(t[6] == hex_char(c.blue as int % 16));
    assert(t[7] == hex_char(c.alpha as int / 16));
    assert(t[8] == hex_char(c.alpha as int % 16));
    assert((c.red as int / 16) * 16 + c.red as int % 16 == c.red as int);
    assert((c.green as int / 16) * 16 + c.green as int % 16 == c.green as int);
    assert((c.blue as int / 16) * 16 + c.blue as int % 16 == c.blue as int);
    assert((c.alpha as int / 16) * 16 + c.alpha as int % 16 == c.alpha as int);
    assert(c == Rgba { red: c.red, green: c.green, blue: c.blue, alpha: c.alpha });
}

/// Scanning the canonical text of a pixel length reads the length back,
/// whatever follows it.
#[verifier::rlimit(100)]
proof fn lemma_scan_px_css(au: int, rest: Seq<char>)
    requires
        -(AXIS_MAX as int) <= au <= AXIS_MAX as int,
    ensures
        spec_scan_px(px_text(au) + rest) == Some((au, px_text(au).len() as int)),
{
    reveal_strlit("px");
    reveal(spec_scan_px);
    let t = px_text(au) + rest;
    let neg = au < 0;
    let mag = if au < 0 {
        -au
    } else {
        au
    };
    let whole = (mag / 100) as nat;
    let frac = mag % 100;
    let digits = dec_digits(whole);
    let i0: int = if neg {
        1int
    } else {
        0int
    };
    let fracpart: Seq<char> = if frac == 0 {
        Seq::empty()
    } else {
        seq!['.'] + frac_digits(frac, 100)
    };
    lemma_dec_digits_are_digits(whole);
    assert(pow10(0) == 1);
    assert(pow10(1) == 10);
    assert(pow10(2) == 100);
    assert(pow10(3) == 1000);
    assert(pow10(4) == 10000);
    assert(pow10(5) == 100000);
    assert(pow10(6) == 1000000);
    lemma_dec_digits_len(whole, 6);
    lemma_dec_digits_val(whole);
    let w = digits.len() as int;
    let tail = fracpart + ("px")@ + rest;
    assert(t =~= (if neg {
        seq!['-']
    } else {
        Seq::<char>::empty()
    }) + digits + tail);
    if neg {
        assert(t[0] == '-');
    } else {
        assert(t[0] == digits[0]);
        assert(is_dec_digit(t[0]));
        assert(t[0] != '-');
    }
    assert(t.len() > 0);
    assert(t.skip(i0) =~= digits + tail);
    assert(tail.len() >= 2) by {
        if frac != 0 {
            assert(fracpart.len() >= 1);
        }
    }
    assert(tail[0] == fracpart[0] || tail[0] == ("px")@[0]) by {
        if frac == 0 {
            assert(tail =~= ("px")@ + rest);
        }
    }
    assert(!is_dec_digit(tail[0])) by {
        if frac == 0 {
            assert(tail[0] == 'p');
        } else {
            assert(tail[0] == '.');
        }
    }
    assert forall|k: int| 0 <= k < w implies is_dec_digit(#[trigger] t.skip(i0)[k]) by {
        assert(t.skip(i0)[k] == digits[k]);
    }
    assert(t.skip(i0)[w] == tail[0]);
    lemma_digit_run_is(t.skip(i0), w);
    assert(1 <= w <= 6);
    assert(t.skip(i0).take(w) =~= digits);
    assert(digits_val(t.skip(i0).take(w)) == whole);
    let j = i0 + w;
    assert(mag == 100 * (mag / 100) + mag % 100);
    if frac == 0 {
        assert(t[j] == 'p');
        assert(t[j] != '.');
        assert(t[j + 1] == 'x');
        assert(spec_px_done(t, j, neg, whole as int * 100) == Some((au, j + 2)));
        assert(px_text(au).len() == j + 2);
    } else {
        assert(t[j] == '.');
        assert(frac_digits(frac, 100) == seq![digit_char(frac / 10)] + frac_digits(frac % 10, 10));
        lemma_digit_char_val(frac / 10);
        assert(frac == 10 * (frac / 10) + frac % 10);
        if frac % 10 == 0 {
            assert(frac_digits(frac % 10, 10) =~= Seq::<char>::empty());
            assert(fracpart =~= seq!['.', digit_char(frac / 10)]);
            assert(t[j + 1] == digit_char(frac / 10));
            assert(is_dec_digit(t[j + 1]));
            assert(t[j + 2] == 'p');
            assert(!is_dec_digit(t[j + 2]));
            assert(t[j + 3] == 'x');
            assert(whole as int * 100 + (frac / 10) * 10 == mag);
            assert(spec_px_done(t, j + 2, neg, mag) == Some((au, j + 4)));
            assert(px_text(au).len() == j + 4);
        } else {
            assert(frac_digits(frac % 10, 10) == seq![digit_char((frac % 10) / 1)] + frac_digits(
                (frac % 10) % 1,
                1,
            ));
            assert(frac_digits((frac % 10) % 1, 1) =~= Seq::<char>::empty());
            assert((frac % 10) / 1 == frac % 10);
            assert(fracpart =~= seq!['.', digit_char(frac / 10), digit_char(frac % 10)]);
            lemma_digit_char_val(frac % 10);
            assert(t[j + 1] == digit_char(frac / 10));
            assert(is_dec_digit(t[j + 1]));
            assert(t[j + 2] == digit_char(frac % 10));
            assert(is_dec_digit(t[j + 2]));
            assert(t[j + 3] == 'p');
            assert(t[j + 4] == 'x');
            assert(whole as int * 100 + (frac / 10) * 10 + frac % 10 == mag);
            assert(spec_px_done(t, j + 3, neg, mag) == Some((au, j + 5)));
            assert(px_text(au).len() == j + 5);
        }
    }
}

/// Scanning the canonical tail reads the inset flag back.
proof fn lemma_scan_tail_css(base: ComputedSimpleShadow, spread: int, inset: bool)
    ensures
        spec_scan_tail(
            if inset {
                (" inset")@
            } else {
                Seq::empty()
            },
            base,
            spread,
        ) == Some(GenericBoxShadow { base, spread: Length { au: spread as i32 }, inset }),
{
    reveal_strlit(" inset");
}

/// Scanning the canonical text after the blur reads the spread and the
/// tail back.
proof fn lemma_scan_after_blur_css(base: ComputedSimpleShadow, spread: int, inset: bool)
    requires
        -(AXIS_MAX as int) <= spread <= AXIS_MAX as int,
    ensures
        spec_scan_after_blur(
            (" ")@ + px_text(spread) + (if inset {
                (" inset")@
            } else {
                Seq::empty()
            }),
            base,
        ) == Some(GenericBoxShadow { base, spread: Length { au: spread as i32 }, inset }),
{
    reveal_strlit(" ");
    let insetpart: Seq<char> = if inset {
        (" inset")@
    } else {
        Seq::empty()
    };
    let rest = (" ")@ + px_text(spread) + insetpart;
    assert(rest[0] == ' ');
    assert(rest.skip(1) =~= px_text(spread) + insetpart);
    lemma_scan_px_css(spread, insetpart);
    assert(rest.skip(1 + px_text(spread).len() as int) =~= insetpart);
    lemma_scan_tail_css(base, spread, inset);
}

/// Scanning the canonical text after the vertical offset reads the
/// blur and everything behind it back.
proof fn lemma_scan_after_vertical_css(v: ComputedBoxShadow)
    requires
        computed_box_shadow_wf(v),
    ensures
        spec_scan_after_vertical(
            (" ")@ + px_text(v.base.blur.au as int) + ((" ")@ + px_text(v.spread.au as int) + (
            if v.inset {
                (" inset")@
            } else {
                Seq::empty()
            })),
            v.base.color,
            v.base.horizontal.au as int,
            v.base.vertical.au as int,
        ) == Some(v),
{
    reveal_strlit(" ");
    let insetpart: Seq<char> = if v.inset {
        (" inset")@
    } else {
        Seq::empty()
    };
    let r3 = (" ")@ + px_text(v.spread.au as int) + insetpart;
    let rest = (" ")@ + px_text(v.base.blur.au as int) + r3;
    assert(rest[0] == ' ');
    assert(rest.skip(1) =~= px_text(v.base.blur.au as int) + r3);
    lemma_scan_px_css(v.base.blur.au as int, r3);
    assert(rest.skip(1 + px_text(v.base.blur.au as int).len() as int) =~= r3);
    lemma_scan_after_blur_css(v.base, v.spread.au as int, v.inset);
    assert(v.base == GenericSimpleShadow {
        color: v.base.color,
        horizontal: Length { au: v.base.horizontal.au },
        vertical: Length { au: v.base.vertical.au },
        blur: Length { au: v.base.blur.au },
    });
    assert(v == GenericBoxShadow {
        base: v.base,
        spread: Length { au: v.spread.au },
        inset: v.inset,
    });
}

/// Scanning the canonical text after the horizontal offset reads the
/// rest of the shadow back.
proof fn lemma_scan_after_horizontal_css(v: ComputedBoxShadow)
    requires
        computed_box_shadow_wf(v),
    ensures
        spec_scan_after_horizontal(
            (" ")@ + px_text(v.base.vertical.au as int) + ((" ")@ + px_text(
                v.base.blur.au as int,
            ) + ((" ")@ + px_text(v.spread.au as int) + (if v.inset {
                (" inset")@
            } else {
                Seq::empty()
            }))),
            v.base.color,
            v.base.horizontal.au as int,
        ) == Some(v),
{
    reveal_strlit(" ");
    let insetpart: Seq<char> = if v.inset {
        (" inset")@
    } else {
        Seq::empty()
    };
    let r3 = (" ")@ + px_text(v.spread.au as int) + insetpart;
    let r2 = (" ")@ + px_text(v.base.blur.au as int) + r3;
    let rest = (" ")@ + px_text(v.base.vertical.au as int) + r2;
    assert(rest[0] == ' ');
    assert(rest.skip(1) =~= px_text(v.base.vertical.au as int) + r2);
    lemma_scan_px_css(v.base.vertical.au as int, r2);
    assert(rest.skip(1 + px_text(v.base.vertical.au as int).len() as int) =~= r2);
    lemma_scan_after_vertical_css(v);
}

/// Scanning the canonical text of a well-formed box shadow reads the
/// shadow back: the scanner accepts every canonical text.
#[verifier::rlimit(100)]
#[verifier::spinoff_prover]
proof fn lemma_scan_box_shadow_css(v: ComputedBoxShadow)
    requires
        computed_box_shadow_wf(v),
    ensures
        spec_scan_box_shadow(box_shadow_css(v)) == Some(v),
{
    reveal_strlit(" ");
    reveal_strlit("#");
    let t = box_shadow_css(v);
    let c = v.base.color;
    let h = v.base.horizontal.au as int;
    let insetpart: Seq<char> = if v.inset {
        (" inset")@
    } else {
        Seq::empty()
    };
    let r3 = (" ")@ + px_text(v.spread.au as int) + insetpart;
    let r2 = (" ")@ + px_text(v.base.blur.au as int) + r3;
    let r1 = (" ")@ + px_text(v.base.vertical.au as int) + r2;
    let r0 = (" ")@ + px_text(h) + r1;
    assert(t =~= color_css(c) + r0);
    lemma_scan_color_css(c, r0);
    assert(spec_scan_color(t) == Some((c, 9int)));
    assert(color_css(c).len() == 9);
    assert(t.skip(9) =~= r0);
    assert(r0[0] == ' ');
    assert(r0.skip(1) =~= px_text(h) + r1);
    lemma_scan_px_css(h, r1);
    assert(r0.skip(1 + px_text(h).len() as int) =~= r1);
    lemma_scan_after_horizontal_css(v);
}

/// Reads the canonical box-shadow text back into a computed value.  It
/// accepts exactly the canonical texts: it succeeds precisely on the
/// serialization of some well-formed computed box shadow, and whatever
/// it accepts re-serializes to the input, character for character.
pub fn parse_box_shadow(s: &str) -> (r: Option<ComputedBoxShadow>)
    ensures
        match r {
            Option::Some(v) => computed_box_shadow_wf(v) && s@ == box_shadow_css(v),
            Option::None => true,
        },
        r is Some <==> exists|v: ComputedBoxShadow|
            #[trigger] computed_box_shadow_wf(v) && s@ == box_shadow_css(v),
{
    proof {
        if exists|v: ComputedBoxShadow|
            #[trigger] computed_box_shadow_wf(v) && s@ == box_shadow_css(v) {
            let v = choose|v: ComputedBoxShadow|
                #[trigger] computed_box_shadow_wf(v) && s@ == box_shadow_css(v);
            lemma_scan_box_shadow_css(v);
        }
    }
    let candidate = match scan_box_shadow(s) {
        Some(v) => v,
        None => {
            return None;
        },
    };
    let canonical = box_shadow_to_css(&candidate);
    let owned: String = s.to_owned();
    if canonical == owned {
        Some(candidate)
    } else {
        None
    }
}

/// Scans box-shadow text into a candidate value; [`parse_box_shadow`]
/// then holds the candidate's canonical text against the input.
#[verifier::rlimit(100)]
#[verifier::spinoff_prover]
fn scan_box_shadow(s: &str) -> (r: Option<ComputedBoxShadow>)
    ensures
        r == spec_scan_box_shadow(s@),
        r is Some ==> computed_box_shadow_wf(r.unwrap()),
{
    let n: usize = s.unicode_len();
    proof {
        assert(s@.skip(0) =~= s@);
    }
    let (color, p0) = match scan_color(s, 0, n) {
        Some(x) => x,
        None => {
            return None;
        },
    };
    let ghost rest0 = s@.skip(9);
    let p1 = match scan_space(s, p0, n) {
        Some(x) => x,
        None => {
            proof {
                if rest0.len() > 0 {
                    assert(rest0[0] == s@[9]);
                }
            }
            return None;
        },
    };
    proof {
        assert(rest0[0] == s@[9]);
        assert(rest0.skip(1) =~= s@.skip(10));
    }
    let (h, p2) = match scan_px(s, p1, n) {
        Some(x) => x,
        None => {
            return None;
        },
    };
    proof {
        assert(rest0.skip(1 + (p2 - 10) as int) =~= s@.skip(p2 as int));
    }
    let ghost rest1 = s@.skip(p2 as int);
    let p2b = match scan_space(s, p2, n) {
        Some(x) => x,
        None => {
            proof {
                if rest1.len() > 0 {
                    assert(rest1[0] == s@[p2 as int]);
                }
            }
            return None;
        },
    };
    proof {
        assert(rest1[0] == s@[p2 as int]);
        assert(rest1.skip(1) =~= s@.skip(p2b as int));
    }
    let (v, p3) = match scan_px(s, p2b, n) {
        Some(x) => x,
        None => {
            return None;
        },
    };
    proof {
        assert(rest1.skip(1 + (p3 - p2b) as int) =~= s@.skip(p3 as int));
    }
    let ghost rest2 = s@.skip(p3 as int);
    let p3b = match scan_space(s, p3, n) {
        Some(x) => x,
        None => {
            proof {
                if rest2.len() > 0 {
                    assert(rest2[0] == s@[p3 as int]);
                }
            }
            return None;
        },
    };
    proof {
        assert(rest2[0] == s@[p3 as int]);
        assert(rest2.skip(1) =~= s@.skip(p3b as int));
    }
    let (b, p4) = match scan_px(s, p3b, n) {
        Some(x) => x,
        None => {
            return None;
        },
    };
    proof {
        assert(rest2.skip(1 + (p4 - p3b) as int) =~= s@.skip(p4 as int));
    }
    if b < 0 {
        return None;
    }
    let ghost rest3 = s@.skip(p4 as int);
    let p4b = match scan_space(s, p4, n) {
        Some(x) => x,
        None => {
            proof {
                if rest3.len() > 0 {
                    assert(rest3[0] == s@[p4 as int]);
                }
            }
            return None;
        },
    };
    proof {
        assert(rest3[0] == s@[p4 as int]);
        assert(rest3.skip(1) =~= s@.skip(p4b as int));
    }
    let (spread, p5) = match scan_px(s, p4b, n) {
        Some(x) => x,
        None => {
            return None;
        },
    };
    proof {
        assert(rest3.skip(1 + (p5 - p4b) as int) =~= s@.skip(p5 as int));
    }
    let ghost rest4 = s@.skip(p5 as int);
    let inset: bool = p5 < n;
    if inset {
        proof {
            reveal_strlit(" inset");
        }
        if n - p5 != 6 {
            proof {
                assert(rest4.len() != (" inset")@.len());
            }
            return None;
        }
        proof {
            assert(rest4[0] == s@[p5 as int]);
            assert(rest4[1] == s@[p5 as int + 1]);
            assert(rest4[2] == s@[p5 as int + 2]);
            assert(rest4[3] == s@[p5 as int + 3]);
            assert(rest4[4] == s@[p5 as int + 4]);
            assert(rest4[5] == s@[p5 as int + 5]);
        }
        if s.get_char(p5) != ' ' || s.get_char(p5 + 1) != 'i' || s.get_char(p5 + 2) != 'n'
            || s.get_char(p5 + 3) != 's' || s.get_char(p5 + 4) != 'e' || s.get_char(p5 + 5)
            != 't' {
            proof {
                if rest4 == (" inset")@ {
                    assert(rest4[0] == ' ');
                    assert(rest4[1] == 'i');
                    assert(rest4[2] == 'n');
                    assert(rest4[3] == 's');
                    assert(rest4[4] == 'e');
                    assert(rest4[5] == 't');
                }
                assert(rest4 != (" inset")@);
            }
            return None;
        }
        proof {
            assert(rest4 =~= (" inset")@);
        }
    } else {
        proof {
            assert(rest4.len() == 0);
        }
    }
    Some(
        GenericBoxShadow {
            base: GenericSimpleShadow {
                color,
                horizontal: Length { au: h },
                vertical: Length { au: v },
                blur: Length { au: b },
            },
            spread: Length { au: spread },
            inset,
        },
    )
}

/// Reads one hex digit's value.
fn scan_hex_digit(c: char) -> (r: Option<u8>)
    ensures
        r == hex_digit_val(c),
        r is Some ==> r.unwrap() < 16,
{
    if c == '0' {
        Some(0)
    } else if c == '1' {
        Some(1)
    } else if c == '2' {
        Some(2)
    } else if c == '3' {
        Some(3)
    } else if c == '4' {
        Some(4)
    } else if c == '5' {
        Some(5)
    } else if c == '6' {
        Some(6)
    } else if c == '7' {
        Some(7)
    } else if c == '8' {
        Some(8)
    } else if c == '9' {
        Some(9)
    } else if c == 'a' {
        Some(10)
    } else if c == 'b' {
        Some(11)
    } else if c == 'c' {
        Some(12)
    } else if c == 'd' {
        Some(13)
    } else if c == 'e' {
        Some(14)
    } else if c == 'f' {
        Some(15)
    } else {
        None
    }
}

/// Reads an eight-digit hex color at `pos`.
fn scan_color(s: &str, pos: usize, n: usize) -> (r: Option<(Rgba, usize)>)
    requires
        pos <= n == s@.len(),
    ensures
        match r {
            Option::Some((c, next)) => next == pos + 9 && next <= n && spec_scan_color(
                s@.skip(pos as int),
            ) == Some((c, 9int)),
            Option::None => spec_scan_color(s@.skip(pos as int)) is None,
        },
{
    proof {
        reveal(spec_scan_color);
    }
    if n - pos < 9 {
        return None;
    }
    if s.get_char(pos) != '#' {
        return None;
    }
    let d0 = match scan_hex_digit(s.get_char(pos + 1)) {
        Some(d) => d,
        None => {
            return None;
        },
    };
    let d1 = match scan_hex_digit(s.get_char(pos + 2)) {
        Some(d) => d,
        None => {
            return None;
        },
    };
    let d2 = match scan_hex_digit(s.get_char(pos + 3)) {
        Some(d) => d,
        None => {
            return None;
        },
    };
    let d3 = match scan_hex_digit(s.get_char(pos + 4)) {
        Some(d) => d,
        None => {
            return None;
        },
    };
    let d4 = match scan_hex_digit(s.get_char(pos + 5)) {
        Some(d) => d,
        None => {
            return None;
        },
    };
    let d5 = match scan_hex_digit(s.get_char(pos + 6)) {
        Some(d) => d,
        None => {
            return None;
        },
    };
    let d6 = match scan_hex_digit(s.get_char(pos + 7)) {
        Some(d) => d,
        None => {
            return None;
        },
    };
    let d7 = match scan_hex_digit(s.get_char(pos + 8)) {
        Some(d) => d,
        None => {
            return None;
        },
    };
    let color = Rgba {
        red: d0 * 16 + d1,
        green: d2 * 16 + d3,
        blue: d4 * 16 + d5,
        alpha: d6 * 16 + d7,
    };
    Some((color, pos + 9))
}

/// Reads one space at `pos`.
fn scan_space(s: &str, pos: usize, n: usize) -> (r: Option<usize>)
    requires
        pos <= n == s@.len(),
    ensures
        match r {
            Option::Some(next) => next == pos + 1 && next <= n && s@[pos as int] == ' ',
            Option::None => !(pos < n && s@[pos as int] == ' '),
        },
{
    if pos >= n {
        return None;
    }
    if s.get_char(pos) == ' ' {
        Some(pos + 1)
    } else {
        None
    }
}

/// Reads one decimal digit's value.
fn scan_digit(c: char) -> (r: Option<u8>)
    ensures
        r == dec_digit_val(c),
        r is Some ==> r.unwrap() < 10,
{
    if c == '0' {
        Some(0)
    } else if c == '1' {
        Some(1)
    } else if c == '2' {
        Some(2)
    } else if c == '3' {
        Some(3)
    } else if c == '4' {
        Some(4)
    } else if c == '5' {
        Some(5)
    } else if c == '6' {
        Some(6)
    } else if c == '7' {
        Some(7)
    } else if c == '8' {
        Some(8)
    } else if c == '9' {
        Some(9)
    } else {
        None
    }
}

/// A leading all-digit stretch with a non-digit (or the end) behind it
/// is exactly the digit run.
proof fn lemma_digit_run_is(t: Seq<char>, m: int)
    requires
        0 <= m <= t.len(),
        forall|k: int| 0 <= k < m ==> is_dec_digit(#[trigger] t[k]),
        m == t.len() || !is_dec_digit(t[m]),
    ensures
        digit_run(t) == m,
    decreases m,
{
    if m == 0 {
    } else {
        assert(is_dec_digit(t[0]));
        assert forall|k: int| 0 <= k < m - 1 implies is_dec_digit(#[trigger] t.skip(1)[k]) by {
            assert(t.skip(1)[k] == t[k + 1]);
        }
        assert(m - 1 == t.skip(1).len() || !is_dec_digit(t.skip(1)[m - 1]));
        lemma_digit_run_is(t.skip(1), m - 1);
    }
}

/// True at `k` when the character there is a decimal digit.
fn digit_probe(s: &str, k: usize) -> (b: bool)
    requires
        k < s@.len(),
    ensures
        b == is_dec_digit(s@[k as int]),
{
    match scan_digit(s.get_char(k)) {
        Some(_) => true,
        None => false,
    }
}

/// Reads a pixel length such as `-2.75px` at `pos`, rejecting values
/// outside the axis bound.
#[verifier::rlimit(100)]
fn scan_px(s: &str, pos: usize, n: usize) -> (r: Option<(i32, usize)>)
    requires
        pos <= n == s@.len(),
    ensures
        match r {
            Option::Some((au, next)) => {
                &&& pos < next <= n
                &&& -AXIS_MAX <= au <= AXIS_MAX
                &&& spec_scan_px(s@.skip(pos as int)) == Some((au as int, next - pos as int))
            },
            Option::None => spec_scan_px(s@.skip(pos as int)) is None,
        },
{
    let ghost t = s@.skip(pos as int);
    proof {
        reveal(spec_scan_px);
    }
    let mut negative: bool = false;
    if pos < n && s.get_char(pos) == '-' {
        negative = true;
    }
    let start: usize = if negative {
        pos + 1
    } else {
        pos
    };
    let ghost i0: int = start - pos;
    proof {
        assert(t.skip(i0) =~= s@.skip(start as int));
    }
    let mut j: usize = start;
    while j < n && digit_probe(s, j)
        invariant
            pos <= start <= j <= n == s@.len(),
            forall|k: int| start <= k < j ==> is_dec_digit(#[trigger] s@[k]),
        decreases n - j,
    {
        j = j + 1;
    }
    let w: usize = j - start;
    proof {
        assert forall|k: int| 0 <= k < w implies is_dec_digit(#[trigger] s@.skip(start as int)[k])
            by {
            assert(s@.skip(start as int)[k] == s@[start + k]);
        }
        assert(w == s@.skip(start as int).len() || !is_dec_digit(s@.skip(start as int)[w as int]));
        lemma_digit_run_is(s@.skip(start as int), w as int);
        assert(digit_run(t.skip(i0)) == w);
    }
    if w == 0 || w > 6 {
        return None;
    }
    proof {
        assert(pow10(0) == 1);
        assert(pow10(1) == 10);
        assert(pow10(2) == 100);
        assert(pow10(3) == 1000);
        assert(pow10(4) == 10000);
        assert(pow10(5) == 100000);
        assert(pow10(6) == 1000000);
        assert(s@.subrange(start as int, start as int) =~= Seq::<char>::empty());
    }
    let mut whole: u32 = 0;
    let mut k: usize = start;
    while k < j
        invariant
            pos <= start <= k <= j <= n == s@.len(),
            j - start <= 6,
            forall|q: int| start <= q < j ==> is_dec_digit(#[trigger] s@[q]),
            whole as int == digits_val(s@.subrange(start as int, k as int)),
            (whole as int) < pow10((k - start) as nat),
            pow10(6) == 1000000,
        decreases j - k,
    {
        let d = match scan_digit(s.get_char(k)) {
            Some(d) => d,
            None => {
                return None;
            },
        };
        proof {
            assert(pow10(((k + 1 - start)) as nat) == 10 * pow10((k - start) as nat));
            assert(pow10(0) == 1);
            assert(pow10(1) == 10);
            assert(pow10(2) == 100);
            assert(pow10(3) == 1000);
            assert(pow10(4) == 10000);
            assert(pow10(5) == 100000);
            let e: int = k - start;
            assert(0 <= e <= 5);
            assert(pow10(e as nat) <= 100000) by {
                assert(pow10(0int as nat) == 1);
                assert(pow10(1int as nat) == 10);
                assert(pow10(2int as nat) == 100);
                assert(pow10(3int as nat) == 1000);
                assert(pow10(4int as nat) == 10000);
                assert(pow10(5int as nat) == 100000);
                if e == 0 {
                } else if e == 1 {
                } else if e == 2 {
                } else if e == 3 {
                } else if e == 4 {
                } else {
                    assert(e == 5);
                }
            }
            let ext = s@.subrange(start as int, k as int + 1);
            assert(ext.drop_last() =~= s@.subrange(start as int, k as int));
            assert(ext.last() == s@[k as int]);
        }
        whole = whole * 10 + d as u32;
        k = k + 1;
    }
    proof {
        assert(s@.subrange(start as int, j as int) =~= t.skip(i0).take(w as int));
    }
    let mut i2: usize = j;
    let mut frac: u32 = 0;
    if i2 < n && s.get_char(i2) == '.' {
        if i2 + 1 < n && digit_probe(s, i2 + 1) {
            let d1 = match scan_digit(s.get_char(i2 + 1)) {
                Some(d) => d,
                None => {
                    return None;
                },
            };
            if i2 + 2 < n && digit_probe(s, i2 + 2) {
                let d2 = match scan_digit(s.get_char(i2 + 2)) {
                    Some(d) => d,
                    None => {
                        return None;
                    },
                };
                frac = d1 as u32 * 10 + d2 as u32;
                i2 = i2 + 3;
            } else {
                frac = d1 as u32 * 10;
                i2 = i2 + 2;
            }
        } else {
            return None;
        }
    }
    if n - i2 < 2 || s.get_char(i2) != 'p' || s.get_char(i2 + 1) != 'x' {
        return None;
    }
    let mag: u32 = whole * 100 + frac;
    if mag > AXIS_MAX as u32 {
        return None;
    }
    let au: i32 = if negative {
        -(mag as i32)
    } else {
        mag as i32
    };
    Some((au, i2 + 2))
}

} // verus!
