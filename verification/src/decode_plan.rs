use vstd::prelude::*;
use vstd::string::StringExecFns;

use crate::decode::{
    color_detail, color_kind, has_supported_tga_header, inspect, source_transfer,
    supported_tga_header, ColorError, DecodeError, DecodeErrorKind, SourceFormat, Transfer,
    MAX_DECODED_BYTES,
};
use crate::image::MAX_IMAGE_BYTES;
use crate::text::{append_decimal, decimal_chars};
use image::ImageFormat as Fmt;

verus! {

/// Raster formats that decoding tells apart.
#[derive(Clone, Copy, Debug, PartialEq, Eq, Structural)]
pub enum ImageCodec {
    Png,
    Bmp,
    Ico,
    Qoi,
    Tga,
    Tiff,
    Gif,
    Pnm,
    WebP,
    /// Any other format the codecs recognize.
    Other,
}

/// The format that `image`'s content sniffing recognizes from the first
/// bytes of a source, if any.
pub uninterp spec fn guessed_format(prefix: Seq<u8>) -> Option<ImageCodec>;

/// Calls `image::guess_format`, which matches the leading bytes against the
/// codecs' magic numbers, and names the recognized format; an unrecognized
/// prefix gives `None`.
#[verifier::external_body]
fn guess_format(prefix: &[u8]) -> (r: Option<ImageCodec>)
    ensures
        r == guessed_format(prefix@),
{
    match image::guess_format(prefix).ok()? {
        Fmt::Png => Some(ImageCodec::Png),
        Fmt::Bmp => Some(ImageCodec::Bmp),
        Fmt::Ico => Some(ImageCodec::Ico),
        Fmt::Qoi => Some(ImageCodec::Qoi),
        Fmt::Tga => Some(ImageCodec::Tga),
        Fmt::Tiff => Some(ImageCodec::Tiff),
        Fmt::Gif => Some(ImageCodec::Gif),
        Fmt::Pnm => Some(ImageCodec::Pnm),
        Fmt::WebP => Some(ImageCodec::WebP),
        _ => Some(ImageCodec::Other),
    }
}

/// At most the first 16 bytes, which content sniffing reads.
pub open spec fn sniffed_prefix(bytes: Seq<u8>) -> Seq<u8> {
    if bytes.len() <= 16 {
        bytes
    } else {
        bytes.take(16)
    }
}

/// The format decoding uses: the sniffed one, or TGA, which has no magic
/// number, when nothing was sniffed and the source starts with a supported
/// TGA header.
pub open spec fn chosen_format(bytes: Seq<u8>, guessed: Option<ImageCodec>) -> Option<ImageCodec> {
    if guessed is None && supported_tga_header(bytes) {
        Some(ImageCodec::Tga)
    } else {
        guessed
    }
}

/// The color metadata policy that applies to a format.
pub open spec fn policy_format(format: Option<ImageCodec>) -> SourceFormat {
    match format {
        Some(ImageCodec::Png) => SourceFormat::Png,
        Some(ImageCodec::Bmp) => SourceFormat::Bmp,
        Some(ImageCodec::Ico) => SourceFormat::Ico,
        Some(ImageCodec::Qoi) => SourceFormat::Qoi,
        Some(ImageCodec::Tga) => SourceFormat::Tga,
        Some(ImageCodec::Tiff) => SourceFormat::Tiff,
        Some(ImageCodec::Gif) => SourceFormat::Gif,
        Some(ImageCodec::Pnm) => SourceFormat::Pnm,
        _ => SourceFormat::Other,
    }
}

/// What decoding a source needs before any pixels are decoded: the format
/// to decode it as, if one is known, and the transfer of its samples.
#[derive(Clone, Copy, Debug, PartialEq, Eq, Structural)]
pub struct DecodePlan {
    pub format: Option<ImageCodec>,
    pub transfer: Transfer,
}

/// Whether `r` is the plan for `bytes` once content sniffing gave
/// `guessed`: the chosen format and the transfer its color policy gives, or
/// the color inspection failure.
pub open spec fn plans(bytes: Seq<u8>, guessed: Option<ImageCodec>, r: Result<DecodePlan, DecodeError>) -> bool {
    let format = chosen_format(bytes, guessed);
    match source_transfer(bytes, policy_format(format)) {
        Ok(transfer) => r == Ok::<DecodePlan, DecodeError>(DecodePlan { format, transfer }),
        Err(e) => r matches Err(d) && d.kind_spec() == color_kind(e) && d.message_spec()
            == "failed to inspect image color metadata"@ + ": "@ + color_detail(e),
    }
}

fn policy_format_exec(format: Option<ImageCodec>) -> (r: SourceFormat)
    ensures
        r == policy_format(format),
{
    match format {
        Some(ImageCodec::Png) => SourceFormat::Png,
        Some(ImageCodec::Bmp) => SourceFormat::Bmp,
        Some(ImageCodec::Ico) => SourceFormat::Ico,
        Some(ImageCodec::Qoi) => SourceFormat::Qoi,
        Some(ImageCodec::Tga) => SourceFormat::Tga,
        Some(ImageCodec::Tiff) => SourceFormat::Tiff,
        Some(ImageCodec::Gif) => SourceFormat::Gif,
        Some(ImageCodec::Pnm) => SourceFormat::Pnm,
        _ => SourceFormat::Other,
    }
}

/// Plans decoding `bytes` once content sniffing has given `guessed`.
pub fn plan_from_guess(bytes: &[u8], guessed: Option<ImageCodec>) -> (r: Result<
    DecodePlan,
    DecodeError,
>)
    ensures
        plans(bytes@, guessed, r),
{
    let format = if guessed.is_none() && has_supported_tga_header(bytes) {
        Some(ImageCodec::Tga)
    } else {
        guessed
    };
    match inspect(bytes, policy_format_exec(format)) {
        Ok(transfer) => Ok(DecodePlan { format, transfer }),
        Err(e) => Err(DecodeError::color(e)),
    }
}

/// Plans decoding an encoded source: sniffs its format from its first bytes
/// (falling back to TGA by header) and inspects its color metadata.
pub fn plan_decode(bytes: &[u8]) -> (r: Result<DecodePlan, DecodeError>)
    ensures
        plans(bytes@, guessed_format(sniffed_prefix(bytes@)), r),
{
    let n: usize = if bytes.len() <= 16 {
        bytes.len()
    } else {
        16
    };
    let prefix = slice_prefix(bytes, n);
    assert(prefix@ =~= sniffed_prefix(bytes@));
    let guessed = guess_format(prefix);
    plan_from_guess(bytes, guessed)
}

/// The first `n` bytes.
fn slice_prefix(bytes: &[u8], n: usize) -> (r: &[u8])
    requires
        n <= bytes@.len(),
    ensures
        r@ == bytes@.take(n as int),
{
    let r = vstd::slice::slice_subrange(bytes, 0, n);
    assert(r@ =~= bytes@.take(n as int));
    r
}

/// Refuses a decoder whose output would take more than
/// `MAX_DECODED_BYTES` bytes.
pub fn check_decoder_bytes(total: u64) -> (r: Result<(), DecodeError>)
    ensures
        total <= MAX_DECODED_BYTES ==> r is Ok,
        total > MAX_DECODED_BYTES ==> (r matches Err(e) && e.kind_spec()
            == DecodeErrorKind::LimitExceeded && e.message_spec() == "decoder requires "@
            + decimal_chars(total as nat) + " bytes, exceeding the "@ + decimal_chars(
            MAX_IMAGE_BYTES as nat,
        ) + "-byte limit"@),
{
    if total <= MAX_DECODED_BYTES {
        return Ok(());
    }
    let mut message = String::from_str("decoder requires ");
    append_decimal(&mut message, total);
    message.append(" bytes, exceeding the ");
    append_decimal(&mut message, MAX_IMAGE_BYTES as u64);
    message.append("-byte limit");
    Err(DecodeError::message(DecodeErrorKind::LimitExceeded, message))
}

/// The description of an unsupported embedded color profile in `codec`.
pub open spec fn profile_feature(codec: Option<ImageCodec>) -> Seq<char> {
    if codec == Some(ImageCodec::WebP) {
        "WebP ICC profiles"@
    } else {
        "ICC profiles"@
    }
}

/// Refuses a source whose decoder reports an embedded ICC profile: no
/// profile is ever applied, so its pixels would be misread.
pub fn check_color_profile(codec: Option<ImageCodec>, has_icc: bool) -> (r: Result<(), DecodeError>)
    ensures
        !has_icc ==> r is Ok,
        has_icc ==> (r matches Err(e) && e.kind_spec() == DecodeErrorKind::Unsupported
            && e.message_spec() == "unsupported image color metadata"@ + ": "@
            + "The decoder does not support the format feature "@ + profile_feature(codec)),
{
    if !has_icc {
        return Ok(());
    }
    let mut detail = String::from_str("The decoder does not support the format feature ");
    let webp = match codec {
        Some(ImageCodec::WebP) => true,
        _ => false,
    };
    if webp {
        detail.append("WebP ICC profiles");
    } else {
        detail.append("ICC profiles");
    }
    Err(DecodeError::with_source(DecodeErrorKind::Unsupported, "unsupported image color metadata", detail.as_str()))
}

} // verus!
