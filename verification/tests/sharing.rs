use style_values::axis::{Angle, Factor, Length, Rgba, UrlRef};
use style_values::effects::{
    ComputedBoxShadow, ComputedFilter, GenericBoxShadow, GenericSimpleShadow,
};
use style_values::encoding::{
    box_shadow_batch_encoded_size, box_shadow_encoded_size, decode_box_shadow,
    decode_box_shadow_batch, decode_filter_list, deinit, encode_box_shadow,
    encode_box_shadow_batch, encode_filter_list, filter_list_encoded_size, AccountingSink,
    ENCODING_VERSION,
};
use style_values::DecodeError;

fn sample_shadow(h: i32, inset: bool) -> ComputedBoxShadow {
    GenericBoxShadow {
        base: GenericSimpleShadow {
            color: Rgba { red: 255, green: 0, blue: 0, alpha: 255 },
            horizontal: Length { au: h },
            vertical: Length { au: 200 },
            blur: Length { au: 400 },
        },
        spread: Length { au: -100 },
        inset,
    }
}

fn every_filter() -> Vec<ComputedFilter> {
    vec![
        ComputedFilter::Blur(Length { au: 200 }),
        ComputedFilter::Brightness(Factor { milli: 1500 }),
        ComputedFilter::Contrast(Factor { milli: 900 }),
        ComputedFilter::Grayscale(Factor { milli: 1000 }),
        ComputedFilter::HueRotate(Angle { millideg: -45125 }),
        ComputedFilter::Invert(Factor { milli: 0 }),
        ComputedFilter::Opacity(Factor { milli: 500 }),
        ComputedFilter::Saturate(Factor { milli: 2000 }),
        ComputedFilter::Sepia(Factor { milli: 300 }),
        ComputedFilter::DropShadow(GenericSimpleShadow {
            color: Rgba { red: 1, green: 2, blue: 3, alpha: 4 },
            horizontal: Length { au: -100 },
            vertical: Length { au: 0 },
            blur: Length { au: 50 },
        }),
        ComputedFilter::Url(UrlRef { handle: 0xdead_beef_0042 }),
    ]
}

#[test]
fn box_shadow_roundtrips_through_the_encoding() {
    let v = sample_shadow(200, true);
    let bytes = encode_box_shadow(&v);
    assert_eq!(decode_box_shadow(&bytes), Ok(v));
}

#[test]
fn filter_chain_roundtrips_through_the_encoding() {
    let chain = every_filter();
    let bytes = encode_filter_list(&chain);
    assert_eq!(decode_filter_list(&bytes), Ok(chain));
}

#[test]
fn empty_filter_chain_roundtrips() {
    let chain: Vec<ComputedFilter> = vec![];
    let bytes = encode_filter_list(&chain);
    assert_eq!(decode_filter_list(&bytes), Ok(chain));
}

#[test]
fn batch_roundtrips_through_the_encoding() {
    let batch = vec![sample_shadow(100, false), sample_shadow(-200, true), sample_shadow(0, false)];
    let mut sink = AccountingSink::new();
    let bytes = encode_box_shadow_batch(&batch, &mut sink);
    assert_eq!(decode_box_shadow_batch(&bytes), Ok(batch));
}

#[test]
fn the_message_opens_with_the_schema_version() {
    let bytes = encode_box_shadow(&sample_shadow(200, false));
    assert_eq!(bytes[0], ENCODING_VERSION);
    assert_eq!(bytes.len(), 22);
}

#[test]
fn a_version_mismatch_is_a_hard_decode_failure() {
    let mut bytes = encode_box_shadow(&sample_shadow(200, false));
    bytes[0] = ENCODING_VERSION + 1;
    assert_eq!(decode_box_shadow(&bytes), Err(DecodeError::VersionMismatch));
    let mut chain_bytes = encode_filter_list(&every_filter());
    chain_bytes[0] = 0;
    assert_eq!(decode_filter_list(&chain_bytes), Err(DecodeError::VersionMismatch));
}

#[test]
fn truncated_or_oversized_messages_are_malformed() {
    let bytes = encode_box_shadow(&sample_shadow(200, false));
    let truncated: Vec<u8> = bytes[..bytes.len() - 1].to_vec();
    assert_eq!(decode_box_shadow(&truncated), Err(DecodeError::Malformed));
    let mut oversized = bytes.clone();
    oversized.push(0);
    assert_eq!(decode_box_shadow(&oversized), Err(DecodeError::Malformed));
    assert_eq!(decode_box_shadow(&Vec::new()), Err(DecodeError::Malformed));
}

#[test]
fn a_noncanonical_flag_byte_is_malformed() {
    let mut bytes = encode_box_shadow(&sample_shadow(200, false));
    let last = bytes.len() - 1;
    bytes[last] = 7;
    assert_eq!(decode_box_shadow(&bytes), Err(DecodeError::Malformed));
}

#[test]
fn an_unknown_filter_tag_is_malformed() {
    let chain = vec![ComputedFilter::Blur(Length { au: 200 })];
    let mut bytes = encode_filter_list(&chain);
    // The tag of the first entry sits right after the five header bytes.
    bytes[5] = 99;
    assert_eq!(decode_filter_list(&bytes), Err(DecodeError::Malformed));
}

#[test]
fn size_accounting_matches_the_emitted_bytes() {
    let v = sample_shadow(200, true);
    let bytes = encode_box_shadow(&v);
    assert_eq!(box_shadow_encoded_size(&v), bytes.len() as u64);
    let chain = every_filter();
    let chain_bytes = encode_filter_list(&chain);
    assert_eq!(filter_list_encoded_size(&chain), chain_bytes.len() as u64);
}

#[test]
fn batch_accounting_total_equals_the_emitted_length() {
    let batch = vec![sample_shadow(100, false), sample_shadow(-200, true), sample_shadow(0, false)];
    let mut sink = AccountingSink::new();
    let bytes = encode_box_shadow_batch(&batch, &mut sink);
    assert_eq!(box_shadow_batch_encoded_size(&batch), bytes.len() as u64);
    assert_eq!(sink.total, bytes.len() as u64);
    assert_eq!(bytes.len(), 5 + 21 * batch.len());
}

#[test]
fn extreme_axis_values_roundtrip() {
    const AXIS_MAX: i32 = 0x100_0000;
    let v = GenericBoxShadow {
        base: GenericSimpleShadow {
            color: Rgba { red: 0, green: 0, blue: 0, alpha: 0 },
            horizontal: Length { au: AXIS_MAX },
            vertical: Length { au: -AXIS_MAX },
            blur: Length { au: AXIS_MAX },
        },
        spread: Length { au: -AXIS_MAX },
        inset: false,
    };
    let bytes = encode_box_shadow(&v);
    assert_eq!(decode_box_shadow(&bytes), Ok(v));
}

#[test]
fn out_of_range_scalars_are_malformed() {
    let mut bytes = encode_box_shadow(&sample_shadow(200, false));
    // The horizontal offset sits after the version byte and the color.
    bytes[5] = 0xff;
    bytes[6] = 0xff;
    bytes[7] = 0xff;
    bytes[8] = 0xff;
    assert_eq!(decode_box_shadow(&bytes), Err(DecodeError::Malformed));
}

#[test]
fn per_worker_sinks_merge_after_the_workers_join() {
    let mut first = AccountingSink::new();
    let mut second = AccountingSink::new();
    let batch_one = vec![sample_shadow(100, false)];
    let batch_two = vec![sample_shadow(-200, true), sample_shadow(0, false)];
    let bytes_one = encode_box_shadow_batch(&batch_one, &mut first);
    let bytes_two = encode_box_shadow_batch(&batch_two, &mut second);
    first.merge(&second);
    assert_eq!(deinit(first), (bytes_one.len() + bytes_two.len()) as u64);
}
