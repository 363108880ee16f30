use vstd::prelude::*;
use vstd::string::StringExecFns;

use crate::image::{ImageError, MAX_IMAGE_BYTES};
use crate::text::{append_decimal, decimal_chars};

verus! {

/// Largest decoded RGBA byte length accepted.
pub const MAX_DECODED_BYTES: u64 = 67108864;

/// Largest pixel count along one axis.
pub const MAX_IMAGE_AXIS: u32 = 16777216;

/// Broad category of a decoding failure.
#[derive(Clone, Copy, Debug, PartialEq, Eq, Structural, Hash)]
pub enum DecodeErrorKind {
    /// The encoded source could not be read.
    Io,
    /// The source format or color space is unsupported.
    Unsupported,
    /// The encoded source is malformed or cannot produce valid RGBA pixels.
    InvalidData,
    /// Decoding would exceed the image resource limits.
    LimitExceeded,
}

/// Failure to read or decode an encoded raster image.
#[derive(Debug)]
pub struct DecodeError {
    kind: DecodeErrorKind,
    message: String,
}

/// Kind of an I/O failure reported by a codec.
#[derive(Clone, Copy, Debug, PartialEq, Eq, Structural)]
pub enum IoFailure {
    /// The source ended early.
    UnexpectedEof,
    /// The source bytes were rejected as invalid.
    InvalidData,
    /// Any other I/O failure.
    Other,
}

/// Category of a failure reported by the general image codec.
#[derive(Clone, Copy, Debug, PartialEq, Eq, Structural)]
pub enum CodecFailure {
    /// Reading the source failed.
    Io(IoFailure),
    /// The format or a feature is unsupported.
    Unsupported,
    /// A resource limit was reached.
    Limits,
    /// The data could not be decoded.
    Decoding,
    /// The data could not be encoded.
    Encoding,
    /// A parameter was invalid.
    Parameter,
}

/// Category of a failure reported by the WebP codec.
#[derive(Clone, Copy, Debug, PartialEq, Eq, Structural)]
pub enum WebpFailure {
    /// The configured memory limit was reached.
    MemoryLimitExceeded,
    /// The image is too large.
    ImageTooLarge,
    /// Reading the source failed.
    Io(IoFailure),
    /// A feature is unsupported.
    UnsupportedFeature,
    /// Any other decoding failure.
    Other,
}

/// Decode error kind of a general codec failure: truncated or invalid
/// input is invalid data, other I/O failures are I/O.
pub open spec fn codec_kind(failure: CodecFailure) -> DecodeErrorKind {
    match failure {
        CodecFailure::Io(IoFailure::UnexpectedEof) => DecodeErrorKind::InvalidData,
        CodecFailure::Io(IoFailure::InvalidData) => DecodeErrorKind::InvalidData,
        CodecFailure::Io(IoFailure::Other) => DecodeErrorKind::Io,
        CodecFailure::Unsupported => DecodeErrorKind::Unsupported,
        CodecFailure::Limits => DecodeErrorKind::LimitExceeded,
        _ => DecodeErrorKind::InvalidData,
    }
}

/// Decode error kind of a WebP codec failure: only a truncated source
/// counts as invalid among I/O failures.
pub open spec fn webp_kind(failure: WebpFailure) -> DecodeErrorKind {
    match failure {
        WebpFailure::MemoryLimitExceeded => DecodeErrorKind::LimitExceeded,
        WebpFailure::ImageTooLarge => DecodeErrorKind::LimitExceeded,
        WebpFailure::Io(IoFailure::UnexpectedEof) => DecodeErrorKind::InvalidData,
        WebpFailure::Io(_) => DecodeErrorKind::Io,
        WebpFailure::UnsupportedFeature => DecodeErrorKind::Unsupported,
        WebpFailure::Other => DecodeErrorKind::InvalidData,
    }
}

/// Decode error kind of an invalid decoded image: size limits are limit
/// failures, empty or mismatched pixels are invalid data.
pub open spec fn rgba_kind(error: ImageError) -> DecodeErrorKind {
    match error {
        ImageError::TooLarge { .. } => DecodeErrorKind::LimitExceeded,
        ImageError::SizeOverflow => DecodeErrorKind::LimitExceeded,
        ImageError::Empty => DecodeErrorKind::InvalidData,
        ImageError::LengthMismatch { .. } => DecodeErrorKind::InvalidData,
    }
}

impl DecodeError {
    /// Failure category.
    pub closed spec fn kind_spec(&self) -> DecodeErrorKind {
        self.kind
    }

    /// Human-readable description.
    pub closed spec fn message_spec(&self) -> Seq<char> {
        self.message@
    }

    /// Returns the broad failure category.
    pub fn kind(&self) -> (r: DecodeErrorKind)
        ensures
            r == self.kind_spec(),
    {
        self.kind
    }

    /// Returns the human-readable description.
    pub fn text(&self) -> (r: String)
        ensures
            r@ == self.message_spec(),
    {
        self.message.clone()
    }

    /// An error of `kind` described by `message`.
    pub fn message(kind: DecodeErrorKind, message: String) -> (r: Self)
        ensures
            r.kind_spec() == kind,
            r.message_spec() == message@,
    {
        DecodeError { kind, message }
    }

    /// An error of `kind` described as `context: detail`.
    pub fn with_source(kind: DecodeErrorKind, context: &str, detail: &str) -> (r: Self)
        ensures
            r.kind_spec() == kind,
            r.message_spec() == context@ + ": "@ + detail@,
    {
        let mut message = String::from_str(context);
        message.append(": ");
        message.append(detail);
        DecodeError { kind, message }
    }

    /// An error for a general codec failure, described as `context: detail`.
    pub fn decoder(context: &str, failure: CodecFailure, detail: &str) -> (r: Self)
        ensures
            r.kind_spec() == codec_kind(failure),
            r.message_spec() == context@ + ": "@ + detail@,
    {
        let kind = match failure {
            CodecFailure::Io(IoFailure::UnexpectedEof) => DecodeErrorKind::InvalidData,
            CodecFailure::Io(IoFailure::InvalidData) => DecodeErrorKind::InvalidData,
            CodecFailure::Io(IoFailure::Other) => DecodeErrorKind::Io,
            CodecFailure::Unsupported => DecodeErrorKind::Unsupported,
            CodecFailure::Limits => DecodeErrorKind::LimitExceeded,
            CodecFailure::Decoding | CodecFailure::Encoding | CodecFailure::Parameter => {
                DecodeErrorKind::InvalidData
            },
        };
        Self::with_source(kind, context, detail)
    }

    /// An error for a WebP codec failure, described as `context: detail`.
    pub fn webp(context: &str, failure: WebpFailure, detail: &str) -> (r: Self)
        ensures
            r.kind_spec() == webp_kind(failure),
            r.message_spec() == context@ + ": "@ + detail@,
    {
        let kind = match failure {
            WebpFailure::MemoryLimitExceeded | WebpFailure::ImageTooLarge => {
                DecodeErrorKind::LimitExceeded
            },
            WebpFailure::Io(IoFailure::UnexpectedEof) => DecodeErrorKind::InvalidData,
            WebpFailure::Io(_) => DecodeErrorKind::Io,
            WebpFailure::UnsupportedFeature => DecodeErrorKind::Unsupported,
            WebpFailure::Other => DecodeErrorKind::InvalidData,
        };
        Self::with_source(kind, context, detail)
    }

    /// An error for decoded pixels that do not form a valid image.
    pub fn rgba(error: ImageError) -> (r: Self)
        ensures
            r.kind_spec() == rgba_kind(error),
            r.message_spec() == "decoded image is invalid: "@ + error.text_spec(),
    {
        let kind = match error {
            ImageError::TooLarge { .. } | ImageError::SizeOverflow => DecodeErrorKind::LimitExceeded,
            ImageError::Empty | ImageError::LengthMismatch { .. } => DecodeErrorKind::InvalidData,
        };
        let mut message = String::from_str("decoded image is invalid: ");
        let detail = error.text();
        message.append(detail.as_str());
        DecodeError { kind, message }
    }
}

// ---------------------------------------------------------------------------
// Output size validation.
// ---------------------------------------------------------------------------

/// Why decoded dimensions are refused, if they are: a zero dimension is
/// invalid data; an RGBA length beyond `u64` or `MAX_DECODED_BYTES` exceeds
/// the limit.
pub open spec fn output_size_error(width: u32, height: u32) -> Option<DecodeErrorKind> {
    if width == 0 || height == 0 {
        Some(DecodeErrorKind::InvalidData)
    } else if width * height * 4 > MAX_DECODED_BYTES {
        Some(DecodeErrorKind::LimitExceeded)
    } else {
        None
    }
}

/// Checks that decoded dimensions are nonzero and fit the RGBA byte limit.
pub fn validate_output_size(width: u32, height: u32) -> (r: Result<(), DecodeError>)
    ensures
        output_size_error(width, height) is None ==> r is Ok,
        output_size_error(width, height) matches Some(kind) ==> (r matches Err(e)
            && e.kind_spec() == kind),
        width == 0 || height == 0 ==> (r matches Err(e) && e.message_spec()
            == "decoded image dimensions must be nonzero"@),
        width * height * 4 > u64::MAX && width != 0 && height != 0 ==> (r matches Err(e)
            && e.message_spec() == "decoded RGBA byte length overflows u64"@),
        width != 0 && height != 0 && MAX_DECODED_BYTES < width * height * 4 <= u64::MAX ==> (r matches Err(e)
            && e.message_spec() == "decoded image requires "@ + decimal_chars(
            (width * height * 4) as nat,
        ) + " RGBA bytes, exceeding the "@ + decimal_chars(MAX_IMAGE_BYTES as nat)
            + "-byte limit"@),
{
    if width == 0 || height == 0 {
        return Err(
            DecodeError::message(
                DecodeErrorKind::InvalidData,
                String::from_str("decoded image dimensions must be nonzero"),
            ),
        );
    }
    assert(width as int * height as int <= 0xffff_ffffu64 as int * 0xffff_ffffu64 as int)
        by (nonlinear_arith)
        requires
            width <= 0xffff_ffffu32,
            height <= 0xffff_ffffu32,
    ;
    let pixels = width as u64 * height as u64;
    if pixels > u64::MAX / 4 {
        return Err(
            DecodeError::message(
                DecodeErrorKind::LimitExceeded,
                String::from_str("decoded RGBA byte length overflows u64"),
            ),
        );
    }
    let bytes = pixels * 4;
    if bytes > MAX_DECODED_BYTES {
        let mut message = String::from_str("decoded image requires ");
        append_decimal(&mut message, bytes);
        message.append(" RGBA bytes, exceeding the ");
        append_decimal(&mut message, MAX_IMAGE_BYTES as u64);
        message.append("-byte limit");
        return Err(DecodeError::message(DecodeErrorKind::LimitExceeded, message));
    }
    Ok(())
}

// ---------------------------------------------------------------------------
// TGA header recognition.
// ---------------------------------------------------------------------------

/// Whether the first 18 bytes form a TGA header this decoder supports: a
/// color map exactly for color-mapped images, a pixel depth that fits the
/// image type, nonzero dimensions, and 0 or 8 alpha bits.
pub open spec fn supported_tga_header(b: Seq<u8>) -> bool {
    &&& b.len() >= 18
    &&& {
        let image_type = b[2];
        let color_map_valid = if image_type == 1 || image_type == 9 {
            b[1] == 1
        } else {
            b[1] <= 1
        };
        let depth = b[16];
        let pixel_depth_valid = if image_type == 1 || image_type == 9 || image_type == 3
            || image_type == 11 {
            depth == 8 || depth == 16
        } else if image_type == 2 || image_type == 10 {
            depth == 24 || depth == 32
        } else {
            false
        };
        let width = b[12] + b[13] * 256;
        let height = b[14] + b[15] * 256;
        let alpha_bits = b[17] % 16;
        color_map_valid && pixel_depth_valid && width != 0 && height != 0 && (alpha_bits == 0
            || alpha_bits == 8)
    }
}

/// Returns whether the source starts with a supported TGA header.
pub fn has_supported_tga_header(bytes: &[u8]) -> (r: bool)
    ensures
        r == supported_tga_header(bytes@),
{
    if bytes.len() < 18 {
        return false;
    }
    let image_type = bytes[2];
    let color_map_valid = if image_type == 1 || image_type == 9 {
        bytes[1] == 1
    } else {
        bytes[1] <= 1
    };
    let depth = bytes[16];
    let pixel_depth_valid = if image_type == 1 || image_type == 9 || image_type == 3 || image_type
        == 11 {
        depth == 8 || depth == 16
    } else if image_type == 2 || image_type == 10 {
        depth == 24 || depth == 32
    } else {
        false
    };
    let width = bytes[12] as u32 + bytes[13] as u32 * 256;
    let height = bytes[14] as u32 + bytes[15] as u32 * 256;
    let alpha_bits = bytes[17] % 16;
    color_map_valid && pixel_depth_valid && width != 0 && height != 0 && (alpha_bits == 0
        || alpha_bits == 8)
}

// ---------------------------------------------------------------------------
// Color metadata inspection.
// ---------------------------------------------------------------------------

/// Transfer function of decoded samples; primaries are always sRGB and
/// samples full range.
#[derive(Clone, Copy, Debug, PartialEq, Eq, Structural)]
pub enum Transfer {
    Srgb,
    Linear,
    Bt709,
}

/// Encoded formats whose color metadata is inspected.
#[derive(Clone, Copy, Debug, PartialEq, Eq, Structural)]
pub enum SourceFormat {
    Png,
    Bmp,
    Ico,
    Qoi,
    Tga,
    Tiff,
    Gif,
    Pnm,
    /// Any other or an unrecognized format.
    Other,
}

/// Malformed color metadata.
#[derive(Clone, Copy, Debug, PartialEq, Eq, Structural)]
pub enum InvalidColor {
    QoiColorSpace,
    PngColorChunk,
    PngRenderingIntent,
    PngZeroGamma,
    PngChecksum,
    IcoEmpty,
    TiffByteOrder,
    TiffVersion,
}

/// Recognized color metadata outside the supported policy.
#[derive(Clone, Copy, Debug, PartialEq, Eq, Structural)]
pub enum UnsupportedColor {
    TgaExtension,
    PngIcc,
    PngHdr,
    PngCicp,
    PngChromaticities,
    PngGamma,
    BmpProfile,
    TiffColorimetry,
    GifIcc,
    WebpIcc,
    Icc,
    SampleFormat,
}

/// Failure to inspect color metadata.
#[derive(Clone, Copy, Debug, PartialEq, Eq, Structural)]
pub enum ColorError {
    /// The source ended inside a header.
    Truncated,
    /// A header is malformed.
    Invalid(InvalidColor),
    /// A declaration is recognized but unsupported.
    Unsupported(UnsupportedColor),
    /// A declared chunk exceeds the decoded-byte limit.
    Limit,
}

impl UnsupportedColor {
    /// The unsupported feature, as described to users.
    pub open spec fn feature_spec(&self) -> Seq<char> {
        match *self {
            UnsupportedColor::TgaExtension => "TGA extension-area color metadata"@,
            UnsupportedColor::PngIcc => "PNG ICC profiles"@,
            UnsupportedColor::PngHdr => "PNG HDR mastering metadata"@,
            UnsupportedColor::PngCicp => "PNG cICP color space"@,
            UnsupportedColor::PngChromaticities => "PNG non-sRGB chromaticities"@,
            UnsupportedColor::PngGamma => "PNG gamma other than 1.0"@,
            UnsupportedColor::BmpProfile => "BMP calibrated colors or color profiles"@,
            UnsupportedColor::TiffColorimetry => "TIFF colorimetry or ICC profiles"@,
            UnsupportedColor::GifIcc => "GIF ICC profiles"@,
            UnsupportedColor::WebpIcc => "WebP ICC profiles"@,
            UnsupportedColor::Icc => "ICC profiles"@,
            UnsupportedColor::SampleFormat => "non-sRGB samples other than 8/16-bit integers"@,
        }
    }

    /// Returns the unsupported feature's description.
    pub fn feature(&self) -> (r: &'static str)
        ensures
            r@ == self.feature_spec(),
    {
        match *self {
            UnsupportedColor::TgaExtension => "TGA extension-area color metadata",
            UnsupportedColor::PngIcc => "PNG ICC profiles",
            UnsupportedColor::PngHdr => "PNG HDR mastering metadata",
            UnsupportedColor::PngCicp => "PNG cICP color space",
            UnsupportedColor::PngChromaticities => "PNG non-sRGB chromaticities",
            UnsupportedColor::PngGamma => "PNG gamma other than 1.0",
            UnsupportedColor::BmpProfile => "BMP calibrated colors or color profiles",
            UnsupportedColor::TiffColorimetry => "TIFF colorimetry or ICC profiles",
            UnsupportedColor::GifIcc => "GIF ICC profiles",
            UnsupportedColor::WebpIcc => "WebP ICC profiles",
            UnsupportedColor::Icc => "ICC profiles",
            UnsupportedColor::SampleFormat => "non-sRGB samples other than 8/16-bit integers",
        }
    }
}

impl InvalidColor {
    /// The malformation, as described to users.
    pub open spec fn description_spec(&self) -> Seq<char> {
        match *self {
            InvalidColor::QoiColorSpace => "invalid QOI color-space flag"@,
            InvalidColor::PngColorChunk => "invalid or duplicate PNG color chunk"@,
            InvalidColor::PngRenderingIntent => "invalid PNG sRGB rendering intent"@,
            InvalidColor::PngZeroGamma => "PNG gamma must be nonzero"@,
            InvalidColor::PngChecksum => "invalid PNG color chunk checksum"@,
            InvalidColor::IcoEmpty => "ICO directory contains no image"@,
            InvalidColor::TiffByteOrder => "invalid TIFF byte order"@,
            InvalidColor::TiffVersion => "invalid TIFF version"@,
        }
    }

    /// Returns the malformation's description.
    pub fn description(&self) -> (r: &'static str)
        ensures
            r@ == self.description_spec(),
    {
        match *self {
            InvalidColor::QoiColorSpace => "invalid QOI color-space flag",
            InvalidColor::PngColorChunk => "invalid or duplicate PNG color chunk",
            InvalidColor::PngRenderingIntent => "invalid PNG sRGB rendering intent",
            InvalidColor::PngZeroGamma => "PNG gamma must be nonzero",
            InvalidColor::PngChecksum => "invalid PNG color chunk checksum",
            InvalidColor::IcoEmpty => "ICO directory contains no image",
            InvalidColor::TiffByteOrder => "invalid TIFF byte order",
            InvalidColor::TiffVersion => "invalid TIFF version",
        }
    }
}

/// Decode error kind of a color inspection failure: a truncated or
/// malformed header is invalid data.
pub open spec fn color_kind(error: ColorError) -> DecodeErrorKind {
    match error {
        ColorError::Truncated => DecodeErrorKind::InvalidData,
        ColorError::Invalid(_) => DecodeErrorKind::InvalidData,
        ColorError::Unsupported(_) => DecodeErrorKind::Unsupported,
        ColorError::Limit => DecodeErrorKind::LimitExceeded,
    }
}

/// Description of a color inspection failure.
pub open spec fn color_detail(error: ColorError) -> Seq<char> {
    match error {
        ColorError::Truncated => "failed to fill whole buffer"@,
        ColorError::Invalid(invalid) => invalid.description_spec(),
        ColorError::Unsupported(feature) => "The decoder does not support the format feature "@
            + feature.feature_spec(),
        ColorError::Limit => "Memory limit exceeded"@,
    }
}

impl DecodeError {
    /// An error for a color inspection failure.
    pub fn color(error: ColorError) -> (r: Self)
        ensures
            r.kind_spec() == color_kind(error),
            r.message_spec() == "failed to inspect image color metadata"@ + ": "@ + color_detail(
                error,
            ),
    {
        let context = "failed to inspect image color metadata";
        match error {
            ColorError::Truncated => Self::with_source(
                DecodeErrorKind::InvalidData,
                context,
                "failed to fill whole buffer",
            ),
            ColorError::Invalid(invalid) => Self::with_source(
                DecodeErrorKind::InvalidData,
                context,
                invalid.description(),
            ),
            ColorError::Unsupported(feature) => {
                let mut detail = String::from_str(
                    "The decoder does not support the format feature ",
                );
                detail.append(feature.feature());
                Self::with_source(DecodeErrorKind::Unsupported, context, detail.as_str())
            },
            ColorError::Limit => Self::with_source(
                DecodeErrorKind::LimitExceeded,
                context,
                "Memory limit exceeded",
            ),
        }
    }
}

/// Whether `n` bytes can be read at position `p`.
pub open spec fn readable(b: Seq<u8>, p: int, n: int) -> bool {
    0 <= p && p + n <= b.len()
}

/// Little-endian 16-bit value at `p`.
pub open spec fn u16_le(b: Seq<u8>, p: int) -> int {
    b[p] + b[p + 1] * 256
}

/// Big-endian 16-bit value at `p`.
pub open spec fn u16_be(b: Seq<u8>, p: int) -> int {
    b[p] * 256 + b[p + 1]
}

/// Little-endian 32-bit value at `p`.
pub open spec fn u32_le(b: Seq<u8>, p: int) -> int {
    b[p] + b[p + 1] * 256 + b[p + 2] * 65536 + b[p + 3] * 16777216
}

/// Big-endian 32-bit value at `p`.
pub open spec fn u32_be(b: Seq<u8>, p: int) -> int {
    b[p] * 16777216 + b[p + 1] * 65536 + b[p + 2] * 256 + b[p + 3]
}

/// Reads a little-endian 16-bit value.
fn read_u16_le(b: &[u8], p: usize) -> (r: u16)
    requires
        p + 2 <= b@.len(),
    ensures
        r == u16_le(b@, p as int),
{
    b[p] as u16 + b[p + 1] as u16 * 256
}

/// Reads a big-endian 16-bit value.
fn read_u16_be(b: &[u8], p: usize) -> (r: u16)
    requires
        p + 2 <= b@.len(),
    ensures
        r == u16_be(b@, p as int),
{
    b[p] as u16 * 256 + b[p + 1] as u16
}

/// Reads a little-endian 32-bit value.
fn read_u32_le(b: &[u8], p: usize) -> (r: u32)
    requires
        p + 4 <= b@.len(),
    ensures
        r == u32_le(b@, p as int),
{
    b[p] as u32 + b[p + 1] as u32 * 256 + b[p + 2] as u32 * 65536 + b[p + 3] as u32 * 16777216
}

/// Reads a big-endian 32-bit value.
fn read_u32_be(b: &[u8], p: usize) -> (r: u32)
    requires
        p + 4 <= b@.len(),
    ensures
        r == u32_be(b@, p as int),
{
    b[p] as u32 * 16777216 + b[p + 1] as u32 * 65536 + b[p + 2] as u32 * 256 + b[p + 3] as u32
}

/// Whether `n` bytes can be read at position `p`.
fn can_read(b: &[u8], p: u128, n: u128) -> (r: bool)
    requires
        p <= 0x2_0000_0000_0000_0000,
        n <= 0x1_0000_0000,
    ensures
        r == readable(b@, p as int, n as int),
{
    p + n <= b.len() as u128
}

/// A slice never holds more than `usize::MAX` bytes.
fn slice_len(b: &[u8]) -> (r: usize)
    ensures
        r == b@.len(),
        b@.len() <= usize::MAX,
{
    b.len()
}

// PNG --------------------------------------------------------------------

/// Chunk types, as big-endian values of their four bytes.
pub const PNG_IDAT: u32 = 0x4944_4154;
pub const PNG_IEND: u32 = 0x4945_4e44;
pub const PNG_ICCP: u32 = 0x6943_4350;
pub const PNG_MDCV: u32 = 0x6d44_4356;
pub const PNG_CLLI: u32 = 0x634c_4c49;
pub const PNG_GAMA: u32 = 0x6741_4d41;
pub const PNG_CHRM: u32 = 0x6348_524d;
pub const PNG_SRGB: u32 = 0x7352_4742;
pub const PNG_CICP: u32 = 0x6349_4350;

/// Color declarations found before the image data.
#[derive(Clone, Copy, Debug)]
pub struct PngDecls {
    /// `gAMA` value.
    pub gamma: Option<u32>,
    /// Whether `cHRM` declares exactly the sRGB primaries and white point.
    pub srgb_primaries: Option<bool>,
    /// `sRGB` rendering intent.
    pub intent: Option<u8>,
    /// `cICP` primaries, transfer, matrix and range.
    pub cicp: Option<(u8, u8, u8, u8)>,
}

/// One CRC-32 (reflected, polynomial 0xEDB88320) shift step.
pub open spec fn crc_round(c: u32) -> u32 {
    if c & 1 == 1 {
        (c >> 1) ^ 0xedb8_8320
    } else {
        c >> 1
    }
}

/// CRC-32 register after processing one byte.
pub open spec fn crc_byte(c: u32, byte: u8) -> u32 {
    crc_round(
        crc_round(
            crc_round(crc_round(crc_round(crc_round(crc_round(crc_round(c ^ (byte as u32))))))),
        ),
    )
}

/// CRC-32 register after processing `bytes` in order from register `c`.
pub open spec fn crc_update(c: u32, bytes: Seq<u8>) -> u32
    decreases bytes.len(),
{
    if bytes.len() == 0 {
        c
    } else {
        crc_byte(crc_update(c, bytes.drop_last()), bytes.last())
    }
}

/// CRC-32 of `bytes`.
pub open spec fn crc32(bytes: Seq<u8>) -> u32 {
    !crc_update(0xffff_ffff, bytes)
}

/// Data of a color chunk of `n` bytes at `p` whose type bytes are at
/// `p - 4`, checked against its stored CRC.
pub open spec fn png_chunk_data(b: Seq<u8>, p: int, n: int) -> Result<Seq<u8>, ColorError> {
    if !readable(b, p, n) || !readable(b, p + n, 4) {
        Err(ColorError::Truncated)
    } else if crc32(b.subrange(p - 4, p + n)) != u32_be(b, p + n) {
        Err(ColorError::Invalid(InvalidColor::PngChecksum))
    } else {
        Ok(b.subrange(p, p + n))
    }
}

/// The sRGB white point and primaries, in `cHRM` units.
pub open spec fn srgb_chromaticity(i: int) -> int {
    if i == 0 {
        31270
    } else if i == 1 {
        32900
    } else if i == 2 {
        64000
    } else if i == 3 {
        33000
    } else if i == 4 {
        30000
    } else if i == 5 {
        60000
    } else if i == 6 {
        15000
    } else {
        6000
    }
}

/// Whether `cHRM` data declares exactly the sRGB primaries and white point.
pub open spec fn is_srgb_chrm(data: Seq<u8>) -> bool {
    forall|i: int| 0 <= i < 8 ==> #[trigger] u32_be(data, 4 * i) == srgb_chromaticity(i)
}

/// Chunk scan from position `p`: color declarations are collected until the
/// image data or the end chunk; ICC profiles and HDR metadata are refused,
/// and a color chunk of the wrong size or repeated is malformed.
pub open spec fn png_scan(b: Seq<u8>, p: int, d: PngDecls) -> Result<PngDecls, ColorError>
    decreases (if p <= b.len() {
        b.len() - p
    } else {
        0
    }),
{
    if !readable(b, p, 8) {
        Err(ColorError::Truncated)
    } else {
        let length = u32_be(b, p);
        let kind = u32_be(b, p + 4);
        if length > MAX_DECODED_BYTES {
            Err(ColorError::Limit)
        } else if kind == PNG_IDAT || kind == PNG_IEND {
            Ok(d)
        } else if kind == PNG_ICCP {
            Err(ColorError::Unsupported(UnsupportedColor::PngIcc))
        } else if kind == PNG_MDCV || kind == PNG_CLLI {
            Err(ColorError::Unsupported(UnsupportedColor::PngHdr))
        } else if kind == PNG_GAMA && length == 4 && d.gamma is None {
            match png_chunk_data(b, p + 8, 4) {
                Err(e) => Err(e),
                Ok(data) => png_scan(b, p + 16, PngDecls { gamma: Some(u32_be(data, 0) as u32), ..d }),
            }
        } else if kind == PNG_CHRM && length == 32 && d.srgb_primaries is None {
            match png_chunk_data(b, p + 8, 32) {
                Err(e) => Err(e),
                Ok(data) => png_scan(
                    b,
                    p + 44,
                    PngDecls { srgb_primaries: Some(is_srgb_chrm(data)), ..d },
                ),
            }
        } else if kind == PNG_SRGB && length == 1 && d.intent is None {
            match png_chunk_data(b, p + 8, 1) {
                Err(e) => Err(e),
                Ok(data) => png_scan(b, p + 13, PngDecls { intent: Some(data[0]), ..d }),
            }
        } else if kind == PNG_CICP && length == 4 && d.cicp is None {
            match png_chunk_data(b, p + 8, 4) {
                Err(e) => Err(e),
                Ok(data) => png_scan(
                    b,
                    p + 16,
                    PngDecls { cicp: Some((data[0], data[1], data[2], data[3])), ..d },
                ),
            }
        } else if kind == PNG_GAMA || kind == PNG_CHRM || kind == PNG_SRGB || kind == PNG_CICP {
            Err(ColorError::Invalid(InvalidColor::PngColorChunk))
        } else {
            png_scan(b, p + 8 + length + 4, d)
        }
    }
}

/// Transfer that PNG declarations select, in precedence `cICP` > `sRGB` >
/// `cHRM`/`gAMA`: only sRGB primaries with sRGB or linear transfer are
/// supported.
pub open spec fn png_decide(d: PngDecls) -> Result<Transfer, ColorError> {
    match d.cicp {
        Some(c) => if c == (1u8, 13u8, 0u8, 1u8) {
            Ok(Transfer::Srgb)
        } else if c == (1u8, 8u8, 0u8, 1u8) {
            Ok(Transfer::Linear)
        } else {
            Err(ColorError::Unsupported(UnsupportedColor::PngCicp))
        },
        None => match d.intent {
            Some(intent) => if intent <= 3 {
                Ok(Transfer::Srgb)
            } else {
                Err(ColorError::Invalid(InvalidColor::PngRenderingIntent))
            },
            None => if d.srgb_primaries == Some(false) {
                Err(ColorError::Unsupported(UnsupportedColor::PngChromaticities))
            } else {
                match d.gamma {
                    None => Ok(Transfer::Srgb),
                    Some(g) => if g == 100000 {
                        Ok(Transfer::Linear)
                    } else if g == 0 {
                        Err(ColorError::Invalid(InvalidColor::PngZeroGamma))
                    } else {
                        Err(ColorError::Unsupported(UnsupportedColor::PngGamma))
                    },
                }
            },
        },
    }
}

/// No declarations yet.
pub open spec fn no_decls() -> PngDecls {
    PngDecls { gamma: None, srgb_primaries: None, intent: None, cicp: None }
}

/// Transfer of a PNG stream whose signature starts at `start`.
pub open spec fn png_transfer(b: Seq<u8>, start: int) -> Result<Transfer, ColorError> {
    match png_scan(b, start + 8, no_decls()) {
        Err(e) => Err(e),
        Ok(d) => png_decide(d),
    }
}

/// CRC-32 register after processing one byte.
fn crc_step(c: u32, byte: u8) -> (r: u32)
    ensures
        r == crc_byte(c, byte),
{
    let mut crc = c ^ byte as u32;
    let mut k: usize = 0;
    let ghost start = crc;
    while k < 8
        invariant
            k <= 8,
            crc == (if k == 0 {
                start
            } else if k == 1 {
                crc_round(start)
            } else if k == 2 {
                crc_round(crc_round(start))
            } else if k == 3 {
                crc_round(crc_round(crc_round(start)))
            } else if k == 4 {
                crc_round(crc_round(crc_round(crc_round(start))))
            } else if k == 5 {
                crc_round(crc_round(crc_round(crc_round(crc_round(start)))))
            } else if k == 6 {
                crc_round(crc_round(crc_round(crc_round(crc_round(crc_round(start))))))
            } else if k == 7 {
                crc_round(crc_round(crc_round(crc_round(crc_round(crc_round(crc_round(start)))))))
            } else {
                crc_round(
                    crc_round(
                        crc_round(crc_round(crc_round(crc_round(crc_round(crc_round(start)))))),
                    ),
                )
            }),
        decreases 8 - k,
    {
        crc = if crc & 1 == 1 {
            (crc >> 1) ^ 0xedb8_8320
        } else {
            crc >> 1
        };
        k = k + 1;
    }
    crc
}

/// CRC-32 of the bytes of `b` from `from` up to `to`.
fn crc32_of(b: &[u8], from: usize, to: usize) -> (r: u32)
    requires
        from <= to <= b@.len(),
    ensures
        r == crc32(b@.subrange(from as int, to as int)),
{
    let mut crc: u32 = 0xffff_ffff;
    let mut i: usize = from;
    while i < to
        invariant
            from <= i <= to <= b@.len(),
            crc == crc_update(0xffff_ffff, b@.subrange(from as int, i as int)),
        decreases to - i,
    {
        assert(b@.subrange(from as int, i + 1).drop_last() =~= b@.subrange(from as int, i as int));
        crc = crc_step(crc, b[i]);
        i = i + 1;
    }
    !crc
}

/// Reads the data of a color chunk of `n` bytes at `p` and checks its CRC.
fn png_color_chunk(b: &[u8], p: u128, n: u128) -> (r: Result<usize, ColorError>)
    requires
        4 <= p <= b@.len() as int,
        n <= 32,
    ensures
        r matches Ok(at) ==> at == p && png_chunk_data(b@, p as int, n as int) == Ok::<
            Seq<u8>,
            ColorError,
        >(b@.subrange(p as int, p + n)),
        r matches Err(e) ==> png_chunk_data(b@, p as int, n as int) == Err::<Seq<u8>, ColorError>(
            e,
        ),
{
    let total = slice_len(b);
    if !can_read(b, p, n) || !can_read(b, p + n, 4) {
        return Err(ColorError::Truncated);
    }
    let at = p as usize;
    let len = n as usize;
    let crc = crc32_of(b, at - 4, at + len);
    let expected = read_u32_be(b, at + len);
    if crc != expected {
        return Err(ColorError::Invalid(InvalidColor::PngChecksum));
    }
    Ok(at)
}

/// Whether the 32 bytes at `p` declare exactly the sRGB chromaticities.
fn srgb_chrm_at(b: &[u8], p: usize) -> (r: bool)
    requires
        p + 32 <= b@.len(),
    ensures
        r == is_srgb_chrm(b@.subrange(p as int, p + 32)),
{
    let total = slice_len(b);
    let ghost data = b@.subrange(p as int, p + 32);
    let expected: [u32; 8] = [31270, 32900, 64000, 33000, 30000, 60000, 15000, 6000];
    let mut i: usize = 0;
    while i < 8
        invariant
            i <= 8,
            p + 32 <= b@.len(),
            b@.len() <= usize::MAX,
            data == b@.subrange(p as int, p + 32),
            expected@ == seq![31270u32, 32900, 64000, 33000, 30000, 60000, 15000, 6000],
            forall|k: int| 0 <= k < i ==> #[trigger] u32_be(data, 4 * k) == srgb_chromaticity(k),
        decreases 8 - i,
    {
        let value = read_u32_be(b, p + 4 * i);
        assert(u32_be(data, 4 * i) == u32_be(b@, p + 4 * i));
        if value != expected[i] {
            return false;
        }
        i = i + 1;
    }
    true
}

/// Scans PNG chunks from `start`, as [`png_scan`] describes.
fn scan_png(b: &[u8], start: u128) -> (r: Result<PngDecls, ColorError>)
    requires
        start <= b@.len() + 8,
    ensures
        r == png_scan(b@, start as int, no_decls()),
{
    let total = slice_len(b);
    let mut p = start;
    let mut d = PngDecls { gamma: None, srgb_primaries: None, intent: None, cicp: None };
    loop
        invariant
            p <= b@.len() + 8,
            b@.len() <= usize::MAX,
            total == b@.len(),
            png_scan(b@, p as int, d) == png_scan(b@, start as int, no_decls()),
        decreases (if p <= b@.len() {
            b@.len() - p
        } else {
            0
        }),
    {
        if !can_read(b, p, 8) {
            return Err(ColorError::Truncated);
        }
        let at = p as usize;
        assert(at == p);
        let length = read_u32_be(b, at);
        let kind = read_u32_be(b, at + 4);
        if length as u64 > MAX_DECODED_BYTES {
            return Err(ColorError::Limit);
        }
        if kind == PNG_IDAT || kind == PNG_IEND {
            return Ok(d);
        }
        if kind == PNG_ICCP {
            return Err(ColorError::Unsupported(UnsupportedColor::PngIcc));
        }
        if kind == PNG_MDCV || kind == PNG_CLLI {
            return Err(ColorError::Unsupported(UnsupportedColor::PngHdr));
        }
        if kind == PNG_GAMA && length == 4 && d.gamma.is_none() {
            match png_color_chunk(b, p + 8, 4) {
                Err(e) => {
                    return Err(e);
                },
                Ok(data) => {
                    let gamma = read_u32_be(b, data);
                    assert(u32_be(b@.subrange(data as int, data + 4), 0) == u32_be(b@, data as int));
                    d = PngDecls { gamma: Some(gamma), ..d };
                    p = p + 16;
                },
            }
        } else if kind == PNG_CHRM && length == 32 && d.srgb_primaries.is_none() {
            match png_color_chunk(b, p + 8, 32) {
                Err(e) => {
                    return Err(e);
                },
                Ok(data) => {
                    let srgb = srgb_chrm_at(b, data);
                    d = PngDecls { srgb_primaries: Some(srgb), ..d };
                    p = p + 44;
                },
            }
        } else if kind == PNG_SRGB && length == 1 && d.intent.is_none() {
            match png_color_chunk(b, p + 8, 1) {
                Err(e) => {
                    return Err(e);
                },
                Ok(data) => {
                    let intent = b[data];
                    d = PngDecls { intent: Some(intent), ..d };
                    p = p + 13;
                },
            }
        } else if kind == PNG_CICP && length == 4 && d.cicp.is_none() {
            match png_color_chunk(b, p + 8, 4) {
                Err(e) => {
                    return Err(e);
                },
                Ok(data) => {
                    let cicp = (b[data], b[data + 1], b[data + 2], b[data + 3]);
                    d = PngDecls { cicp: Some(cicp), ..d };
                    p = p + 16;
                },
            }
        } else if kind == PNG_GAMA || kind == PNG_CHRM || kind == PNG_SRGB || kind == PNG_CICP {
            return Err(ColorError::Invalid(InvalidColor::PngColorChunk));
        } else {
            p = p + 8 + length as u128 + 4;
            if p > total as u128 + 8 {
                assert(png_scan(b@, p as int, d) == Err::<PngDecls, ColorError>(
                    ColorError::Truncated,
                ));
                return Err(ColorError::Truncated);
            }
        }
    }
}

/// Decides the transfer of PNG declarations, as [`png_decide`] describes.
fn decide_png(d: PngDecls) -> (r: Result<Transfer, ColorError>)
    ensures
        r == png_decide(d),
{
    match d.cicp {
        Some(c) => {
            if c.0 == 1 && c.1 == 13 && c.2 == 0 && c.3 == 1 {
                Ok(Transfer::Srgb)
            } else if c.0 == 1 && c.1 == 8 && c.2 == 0 && c.3 == 1 {
                Ok(Transfer::Linear)
            } else {
                Err(ColorError::Unsupported(UnsupportedColor::PngCicp))
            }
        },
        None => match d.intent {
            Some(intent) => {
                if intent <= 3 {
                    Ok(Transfer::Srgb)
                } else {
                    Err(ColorError::Invalid(InvalidColor::PngRenderingIntent))
                }
            },
            None => {
                if d.srgb_primaries == Some(false) {
                    return Err(ColorError::Unsupported(UnsupportedColor::PngChromaticities));
                }
                match d.gamma {
                    None => Ok(Transfer::Srgb),
                    Some(g) => {
                        if g == 100000 {
                            Ok(Transfer::Linear)
                        } else if g == 0 {
                            Err(ColorError::Invalid(InvalidColor::PngZeroGamma))
                        } else {
                            Err(ColorError::Unsupported(UnsupportedColor::PngGamma))
                        }
                    },
                }
            },
        },
    }
}

/// Transfer of a PNG stream whose signature starts at `start`.
fn png(b: &[u8], start: u128) -> (r: Result<Transfer, ColorError>)
    requires
        start <= b@.len(),
    ensures
        r == png_transfer(b@, start as int),
{
    let total = slice_len(b);
    match scan_png(b, start + 8) {
        Err(e) => Err(e),
        Ok(d) => decide_png(d),
    }
}

// BMP ----------------------------------------------------------------------

/// Color space check of a BMP info header at `p`: version 4 and 5 headers
/// must declare sRGB or the Windows color space.
pub open spec fn bmp_check(b: Seq<u8>, p: int) -> Result<(), ColorError> {
    if !readable(b, p, 4) {
        Err(ColorError::Truncated)
    } else {
        let size = u32_le(b, p);
        if size == 108 || size == 124 {
            if !readable(b, p + 56, 4) {
                Err(ColorError::Truncated)
            } else {
                let space = u32_le(b, p + 56);
                if space == 0x7352_4742 || space == 0x5769_6e20 {
                    Ok(())
                } else {
                    Err(ColorError::Unsupported(UnsupportedColor::BmpProfile))
                }
            }
        } else {
            Ok(())
        }
    }
}

/// Checks the color space of a BMP info header at `p`.
fn bmp(b: &[u8], p: u128) -> (r: Result<(), ColorError>)
    requires
        p <= 0x1_0000_0000_0000_0000,
    ensures
        r == bmp_check(b@, p as int),
{
    let total = slice_len(b);
    if !can_read(b, p, 4) {
        return Err(ColorError::Truncated);
    }
    let size = read_u32_le(b, p as usize);
    if size == 108 || size == 124 {
        if !can_read(b, p + 56, 4) {
            return Err(ColorError::Truncated);
        }
        let space = read_u32_le(b, (p + 56) as usize);
        if space == 0x7352_4742 || space == 0x5769_6e20 {
            Ok(())
        } else {
            Err(ColorError::Unsupported(UnsupportedColor::BmpProfile))
        }
    } else {
        Ok(())
    }
}

// ICO ----------------------------------------------------------------------

/// Pixel extent of an ICO directory dimension byte (0 means 256).
pub open spec fn ico_extent(a: u8) -> int {
    if a == 0 {
        256
    } else {
        a as int
    }
}

/// Whether score `(a, s)` ranks above `(ba, bs)`: more bits per pixel, then
/// more pixels.
pub open spec fn score_above(a: int, s: int, ba: int, bs: int) -> bool {
    a > ba || (a == ba && s > bs)
}

/// The directory entry the pixel decoder selects among entries `i..count`
/// of the directory at `p`, given the selection `sel` so far as (bits,
/// pixels, offset): the first entry of greatest score, except that the last
/// entry also wins a tie.
pub open spec fn ico_select(b: Seq<u8>, p: int, count: int, i: int, sel: Option<(int, int, int)>) -> Result<
    Option<(int, int, int)>,
    ColorError,
>
    decreases count - i,
{
    if i >= count {
        Ok(sel)
    } else {
        let e = p + 6 + 16 * i;
        if !readable(b, e, 16) {
            Err(ColorError::Truncated)
        } else {
            let a = u16_le(b, e + 6);
            let s = ico_extent(b[e]) * ico_extent(b[e + 1]);
            let offset = u32_le(b, e + 12);
            let take = match sel {
                None => true,
                Some(best) => score_above(a, s, best.0, best.1) || (i == count - 1 && a == best.0 && s
                    == best.1),
            };
            ico_select(b, p, count, i + 1, if take {
                Some((a, s, offset))
            } else {
                sel
            })
        }
    }
}

/// Whether the eight bytes at `p` are the PNG signature.
pub open spec fn png_signature_at(b: Seq<u8>, p: int) -> bool {
    u32_be(b, p) == 0x8950_4e47 && u32_be(b, p + 4) == 0x0d0a_1a0a
}

/// Transfer of an ICO file at `p`: the PNG or BMP policy applied to the
/// entry that the pixel decoder selects.
pub open spec fn ico_transfer(b: Seq<u8>, p: int) -> Result<Transfer, ColorError> {
    if !readable(b, p, 6) {
        Err(ColorError::Truncated)
    } else {
        match ico_select(b, p, u16_le(b, p + 4), 0, None) {
            Err(e) => Err(e),
            Ok(None) => Err(ColorError::Invalid(InvalidColor::IcoEmpty)),
            Ok(Some(best)) => {
                let offset = best.2;
                if !readable(b, offset, 8) {
                    Err(ColorError::Truncated)
                } else if png_signature_at(b, offset) {
                    png_transfer(b, offset)
                } else {
                    match bmp_check(b, offset) {
                        Err(e) => Err(e),
                        Ok(_) => Ok(Transfer::Srgb),
                    }
                }
            },
        }
    }
}

/// Transfer of an ICO file at `p`.
fn ico(b: &[u8], p: u128) -> (r: Result<Transfer, ColorError>)
    requires
        p <= 0x1_0000_0000_0000_0000,
    ensures
        r == ico_transfer(b@, p as int),
{
    let total = slice_len(b);
    if !can_read(b, p, 6) {
        return Err(ColorError::Truncated);
    }
    let count = read_u16_le(b, (p + 4) as usize);
    let mut selected: Option<(u16, u32, u32)> = None;
    let mut index: u16 = 0;
    while index < count
        invariant
            total == b@.len(),
            p + 6 <= b@.len(),
            index <= count,
            count == u16_le(b@, p + 4),
            ico_select(b@, p as int, count as int, index as int, match selected {
                None => None,
                Some(t) => Some((t.0 as int, t.1 as int, t.2 as int)),
            }) == ico_select(b@, p as int, count as int, 0, None),
        decreases count - index,
    {
        let e = p + 6 + 16 * index as u128;
        if !can_read(b, e, 16) {
            return Err(ColorError::Truncated);
        }
        let at = e as usize;
        let bits = read_u16_le(b, at + 6);
        let w: u32 = if b[at] == 0 {
            256
        } else {
            b[at] as u32
        };
        let h: u32 = if b[at + 1] == 0 {
            256
        } else {
            b[at + 1] as u32
        };
        assert(w * h <= 65536) by (nonlinear_arith)
            requires
                w <= 256,
                h <= 256,
        ;
        let pixels = w * h;
        let offset = read_u32_le(b, at + 12);
        let take = match selected {
            None => true,
            Some(best) => bits > best.0 || (bits == best.0 && pixels > best.1) || (index == count - 1
                && bits == best.0 && pixels == best.1),
        };
        if take {
            selected = Some((bits, pixels, offset));
        }
        index = index + 1;
    }
    match selected {
        None => Err(ColorError::Invalid(InvalidColor::IcoEmpty)),
        Some(best) => {
            let offset = best.2 as u128;
            if !can_read(b, offset, 8) {
                return Err(ColorError::Truncated);
            }
            let at = offset as usize;
            if read_u32_be(b, at) == 0x8950_4e47 && read_u32_be(b, at + 4) == 0x0d0a_1a0a {
                png(b, offset)
            } else {
                match bmp(b, offset) {
                    Err(e) => Err(e),
                    Ok(_) => Ok(Transfer::Srgb),
                }
            }
        },
    }
}

// TIFF ---------------------------------------------------------------------

/// A 16-bit TIFF number at `p` in the file's byte order.
pub open spec fn tiff_u16(b: Seq<u8>, little: bool, p: int) -> int {
    if little {
        u16_le(b, p)
    } else {
        u16_be(b, p)
    }
}

/// A 32-bit TIFF number at `p` in the file's byte order.
pub open spec fn tiff_u32(b: Seq<u8>, little: bool, p: int) -> int {
    if little {
        u32_le(b, p)
    } else {
        u32_be(b, p)
    }
}

/// Colorimetry tags (transfer function, white point, primaries, transfer
/// range, reference black/white) and the ICC profile tag.
pub open spec fn colorimetry_tag(tag: int) -> bool {
    tag == 301 || tag == 318 || tag == 319 || tag == 342 || tag == 532 || tag == 34675
}

/// Scans entries `i..count` of the first image directory, whose entries start
/// at `base`, for colorimetry tags.
pub open spec fn tiff_tags(b: Seq<u8>, little: bool, base: int, count: int, i: int) -> Result<(), ColorError>
    decreases count - i,
{
    if i >= count {
        Ok(())
    } else if !readable(b, base + 12 * i, 2) {
        Err(ColorError::Truncated)
    } else if colorimetry_tag(tiff_u16(b, little, base + 12 * i)) {
        Err(ColorError::Unsupported(UnsupportedColor::TiffColorimetry))
    } else {
        tiff_tags(b, little, base, count, i + 1)
    }
}

/// Colorimetry check of a classic TIFF file at `p`.
pub open spec fn tiff_check(b: Seq<u8>, p: int) -> Result<(), ColorError> {
    if !readable(b, p, 4) {
        Err(ColorError::Truncated)
    } else {
        let little = b[p] == 0x49 && b[p + 1] == 0x49;
        let big = b[p] == 0x4d && b[p + 1] == 0x4d;
        if !little && !big {
            Err(ColorError::Invalid(InvalidColor::TiffByteOrder))
        } else if tiff_u16(b, little, p + 2) != 42 {
            Err(ColorError::Invalid(InvalidColor::TiffVersion))
        } else if !readable(b, p + 4, 4) {
            Err(ColorError::Truncated)
        } else {
            let offset = tiff_u32(b, little, p + 4);
            if !readable(b, offset, 2) {
                Err(ColorError::Truncated)
            } else {
                tiff_tags(b, little, offset + 2, tiff_u16(b, little, offset), 0)
            }
        }
    }
}

/// Reads a 16-bit TIFF number.
fn read_tiff_u16(b: &[u8], little: bool, p: usize) -> (r: u16)
    requires
        p + 2 <= b@.len(),
    ensures
        r == tiff_u16(b@, little, p as int),
{
    if little {
        read_u16_le(b, p)
    } else {
        read_u16_be(b, p)
    }
}

/// Rejects TIFF colorimetry and ICC tags in the first image directory.
fn tiff(b: &[u8], p: u128) -> (r: Result<(), ColorError>)
    requires
        p <= 0x1_0000_0000_0000_0000,
    ensures
        r == tiff_check(b@, p as int),
{
    let total = slice_len(b);
    if !can_read(b, p, 4) {
        return Err(ColorError::Truncated);
    }
    let at = p as usize;
    let little = b[at] == 0x49 && b[at + 1] == 0x49;
    let big = b[at] == 0x4d && b[at + 1] == 0x4d;
    if !little && !big {
        return Err(ColorError::Invalid(InvalidColor::TiffByteOrder));
    }
    if read_tiff_u16(b, little, at + 2) != 42 {
        return Err(ColorError::Invalid(InvalidColor::TiffVersion));
    }
    if !can_read(b, p + 4, 4) {
        return Err(ColorError::Truncated);
    }
    let offset: u32 = if little {
        read_u32_le(b, at + 4)
    } else {
        read_u32_be(b, at + 4)
    };
    if !can_read(b, offset as u128, 2) {
        return Err(ColorError::Truncated);
    }
    let count = read_tiff_u16(b, little, offset as usize);
    let base = offset as u128 + 2;
    let mut i: u16 = 0;
    while i < count
        invariant
            total == b@.len(),
            base == offset + 2,
            i <= count,
            tiff_check(b@, p as int) == tiff_tags(b@, little, base as int, count as int, 0),
            tiff_tags(b@, little, base as int, count as int, i as int) == tiff_tags(
                b@,
                little,
                base as int,
                count as int,
                0,
            ),
        decreases count - i,
    {
        let e = base + 12 * i as u128;
        if !can_read(b, e, 2) {
            return Err(ColorError::Truncated);
        }
        let tag = read_tiff_u16(b, little, e as usize);
        if tag == 301 || tag == 318 || tag == 319 || tag == 342 || tag == 532 || tag == 34675 {
            return Err(ColorError::Unsupported(UnsupportedColor::TiffColorimetry));
        }
        i = i + 1;
    }
    Ok(())
}

// GIF ----------------------------------------------------------------------

/// Bytes of a global color table declared by logical screen flags: three
/// times two to the power of one more than the size field.
pub open spec fn color_table_bytes(flags: u8) -> int {
    if flags < 128 {
        0
    } else {
        let k = flags % 8;
        if k == 0 {
            6
        } else if k == 1 {
            12
        } else if k == 2 {
            24
        } else if k == 3 {
            48
        } else if k == 4 {
            96
        } else if k == 5 {
            192
        } else if k == 6 {
            384
        } else {
            768
        }
    }
}

/// The application identifier of the ICC profile extension.
pub open spec fn icc_app_byte(i: int) -> u8 {
    if i == 0 {
        0x49
    } else if i == 1 || i == 2 {
        0x43
    } else if i == 3 {
        0x52
    } else if i == 4 || i == 6 {
        0x47
    } else if i == 5 {
        0x42
    } else if i == 7 || i == 9 {
        0x31
    } else if i == 8 {
        0x30
    } else {
        0x32
    }
}

/// Whether the 11 bytes at `q` identify the ICC profile extension.
pub open spec fn icc_app_at(b: Seq<u8>, q: int) -> bool {
    forall|i: int| 0 <= i < 11 ==> #[trigger] b[q + i] == icc_app_byte(i)
}

/// Scans the extension blocks before the first image from `q`. Outside a
/// block, an introducer `0x21` starts one with a label; inside, sub-blocks
/// follow until a zero size. The first 11-byte sub-block of an application
/// extension may identify an ICC profile.
pub open spec fn gif_scan(b: Seq<u8>, q: int, inside: bool, label: u8, first: bool) -> Result<
    (),
    ColorError,
>
    decreases (if q <= b.len() {
        b.len() - q
    } else {
        0
    }),
{
    if !readable(b, q, 1) {
        Err(ColorError::Truncated)
    } else if !inside {
        if b[q] != 0x21 {
            Ok(())
        } else if !readable(b, q + 1, 1) {
            Err(ColorError::Truncated)
        } else {
            gif_scan(b, q + 2, true, b[q + 1], true)
        }
    } else {
        let size = b[q];
        if size == 0 {
            gif_scan(b, q + 1, false, label, false)
        } else if label == 0xff && first && size == 11 {
            if !readable(b, q + 1, 11) {
                Err(ColorError::Truncated)
            } else if icc_app_at(b, q + 1) {
                Err(ColorError::Unsupported(UnsupportedColor::GifIcc))
            } else {
                gif_scan(b, q + 12, true, label, false)
            }
        } else {
            gif_scan(b, q + 1 + size, true, label, false)
        }
    }
}

/// ICC check of a GIF file at `p`.
pub open spec fn gif_check(b: Seq<u8>, p: int) -> Result<(), ColorError> {
    if !readable(b, p, 13) {
        Err(ColorError::Truncated)
    } else {
        gif_scan(b, p + 13 + color_table_bytes(b[p + 10]), false, 0, false)
    }
}

/// Whether the 11 bytes at `q` identify the ICC profile extension.
fn is_icc_app(b: &[u8], q: usize) -> (r: bool)
    requires
        q + 11 <= b@.len(),
    ensures
        r == icc_app_at(b@, q as int),
{
    let total = slice_len(b);
    let id: [u8; 11] = [0x49, 0x43, 0x43, 0x52, 0x47, 0x42, 0x47, 0x31, 0x30, 0x31, 0x32];
    let mut i: usize = 0;
    while i < 11
        invariant
            i <= 11,
            q + 11 <= b@.len(),
            b@.len() <= usize::MAX,
            id@ == seq![0x49u8, 0x43, 0x43, 0x52, 0x47, 0x42, 0x47, 0x31, 0x30, 0x31, 0x32],
            forall|k: int| 0 <= k < i ==> #[trigger] b@[q + k] == icc_app_byte(k),
        decreases 11 - i,
    {
        if b[q + i] != id[i] {
            assert(b@[q + i as int] != icc_app_byte(i as int));
            return false;
        }
        i = i + 1;
    }
    true
}

/// Rejects a GIF ICC profile extension before the first image.
fn gif(b: &[u8], p: u128) -> (r: Result<(), ColorError>)
    requires
        p <= 0x1_0000_0000_0000_0000,
    ensures
        r == gif_check(b@, p as int),
{
    let total = slice_len(b);
    if !can_read(b, p, 13) {
        return Err(ColorError::Truncated);
    }
    let flags = b[(p + 10) as usize];
    let table: u128 = if flags < 128 {
        0
    } else {
        let k = flags % 8;
        if k == 0 {
            6
        } else if k == 1 {
            12
        } else if k == 2 {
            24
        } else if k == 3 {
            48
        } else if k == 4 {
            96
        } else if k == 5 {
            192
        } else if k == 6 {
            384
        } else {
            768
        }
    };
    let mut q = p + 13 + table;
    let mut inside = false;
    let mut label: u8 = 0;
    let mut first = false;
    loop
        invariant
            total == b@.len(),
            q <= b@.len() + 1024,
            gif_scan(b@, q as int, inside, label, first) == gif_check(b@, p as int),
        decreases (if q <= b@.len() {
            b@.len() - q
        } else {
            0
        }),
    {
        if !can_read(b, q, 1) {
            return Err(ColorError::Truncated);
        }
        let at = q as usize;
        if !inside {
            if b[at] != 0x21 {
                return Ok(());
            }
            if !can_read(b, q + 1, 1) {
                return Err(ColorError::Truncated);
            }
            label = b[at + 1];
            inside = true;
            first = true;
            q = q + 2;
        } else {
            let size = b[at];
            if size == 0 {
                inside = false;
                first = false;
                q = q + 1;
            } else if label == 0xff && first && size == 11 {
                if !can_read(b, q + 1, 11) {
                    return Err(ColorError::Truncated);
                }
                if is_icc_app(b, at + 1) {
                    return Err(ColorError::Unsupported(UnsupportedColor::GifIcc));
                }
                first = false;
                q = q + 12;
            } else {
                first = false;
                q = q + 1 + size as u128;
            }
        }
    }
}

// TGA ----------------------------------------------------------------------

/// The TGA 2.0 footer signature `TRUEVISION-XFILE.` followed by a zero byte.
pub open spec fn truevision_byte(i: int) -> u8 {
    if i == 0 {
        0x54
    } else if i == 1 {
        0x52
    } else if i == 2 {
        0x55
    } else if i == 3 {
        0x45
    } else if i == 4 {
        0x56
    } else if i == 5 {
        0x49
    } else if i == 6 {
        0x53
    } else if i == 7 {
        0x49
    } else if i == 8 {
        0x4f
    } else if i == 9 {
        0x4e
    } else if i == 10 {
        0x2d
    } else if i == 11 {
        0x58
    } else if i == 12 {
        0x46
    } else if i == 13 {
        0x49
    } else if i == 14 {
        0x4c
    } else if i == 15 {
        0x45
    } else if i == 16 {
        0x2e
    } else {
        0
    }
}

/// Color metadata check of a TGA file: a TGA 2.0 footer that points to an
/// extension area declares unsupported gamma or color correction.
pub open spec fn tga_check(b: Seq<u8>) -> Result<(), ColorError> {
    if b.len() >= 26 {
        let f = b.len() - 26;
        if (forall|i: int| 0 <= i < 18 ==> #[trigger] b[f + 8 + i] == truevision_byte(i)) && !(b[f]
            == 0 && b[f + 1] == 0 && b[f + 2] == 0 && b[f + 3] == 0) {
            Err(ColorError::Unsupported(UnsupportedColor::TgaExtension))
        } else {
            Ok(())
        }
    } else {
        Ok(())
    }
}

/// Rejects a TGA 2.0 extension area.
fn tga(b: &[u8]) -> (r: Result<(), ColorError>)
    ensures
        r == tga_check(b@),
{
    let n = b.len();
    if n < 26 {
        return Ok(());
    }
    let f = n - 26;
    let signature: [u8; 18] = [
        0x54,
        0x52,
        0x55,
        0x45,
        0x56,
        0x49,
        0x53,
        0x49,
        0x4f,
        0x4e,
        0x2d,
        0x58,
        0x46,
        0x49,
        0x4c,
        0x45,
        0x2e,
        0,
    ];
    let mut i: usize = 0;
    while i < 18
        invariant
            i <= 18,
            n == b@.len(),
            f + 26 == n,
            signature@ == seq![
                0x54u8,
                0x52,
                0x55,
                0x45,
                0x56,
                0x49,
                0x53,
                0x49,
                0x4f,
                0x4e,
                0x2d,
                0x58,
                0x46,
                0x49,
                0x4c,
                0x45,
                0x2e,
                0,
            ],
            forall|k: int| 0 <= k < i ==> #[trigger] b@[f + 8 + k] == truevision_byte(k),
        decreases 18 - i,
    {
        if b[f + 8 + i] != signature[i] {
            assert(b@[f + 8 + i as int] != truevision_byte(i as int));
            return Ok(());
        }
        i = i + 1;
    }
    if b[f] == 0 && b[f + 1] == 0 && b[f + 2] == 0 && b[f + 3] == 0 {
        Ok(())
    } else {
        Err(ColorError::Unsupported(UnsupportedColor::TgaExtension))
    }
}

// Dispatch -----------------------------------------------------------------

/// Transfer of an encoded source of format `format`, from its header color
/// declarations; unsupported or malformed declarations are errors.
pub open spec fn source_transfer(b: Seq<u8>, format: SourceFormat) -> Result<Transfer, ColorError> {
    match format {
        SourceFormat::Png => png_transfer(b, 0),
        SourceFormat::Bmp => match bmp_check(b, 14) {
            Err(e) => Err(e),
            Ok(_) => Ok(Transfer::Srgb),
        },
        SourceFormat::Ico => ico_transfer(b, 0),
        SourceFormat::Qoi => if !readable(b, 0, 14) {
            Err(ColorError::Truncated)
        } else if b[13] == 0 {
            Ok(Transfer::Srgb)
        } else if b[13] == 1 {
            Ok(Transfer::Linear)
        } else {
            Err(ColorError::Invalid(InvalidColor::QoiColorSpace))
        },
        SourceFormat::Tga => match tga_check(b) {
            Err(e) => Err(e),
            Ok(_) => Ok(Transfer::Srgb),
        },
        SourceFormat::Tiff => match tiff_check(b, 0) {
            Err(e) => Err(e),
            Ok(_) => Ok(Transfer::Srgb),
        },
        SourceFormat::Gif => match gif_check(b, 0) {
            Err(e) => Err(e),
            Ok(_) => Ok(Transfer::Srgb),
        },
        SourceFormat::Pnm => Ok(Transfer::Bt709),
        SourceFormat::Other => Ok(Transfer::Srgb),
    }
}

/// Inspects the header color declarations of an encoded source, reading
/// only fixed-size headers.
pub fn inspect(bytes: &[u8], format: SourceFormat) -> (r: Result<Transfer, ColorError>)
    ensures
        r == source_transfer(bytes@, format),
{
    match format {
        SourceFormat::Png => png(bytes, 0),
        SourceFormat::Bmp => match bmp(bytes, 14) {
            Err(e) => Err(e),
            Ok(_) => Ok(Transfer::Srgb),
        },
        SourceFormat::Ico => ico(bytes, 0),
        SourceFormat::Qoi => {
            if bytes.len() < 14 {
                Err(ColorError::Truncated)
            } else if bytes[13] == 0 {
                Ok(Transfer::Srgb)
            } else if bytes[13] == 1 {
                Ok(Transfer::Linear)
            } else {
                Err(ColorError::Invalid(InvalidColor::QoiColorSpace))
            }
        },
        SourceFormat::Tga => match tga(bytes) {
            Err(e) => Err(e),
            Ok(_) => Ok(Transfer::Srgb),
        },
        SourceFormat::Tiff => match tiff(bytes, 0) {
            Err(e) => Err(e),
            Ok(_) => Ok(Transfer::Srgb),
        },
        SourceFormat::Gif => match gif(bytes, 0) {
            Err(e) => Err(e),
            Ok(_) => Ok(Transfer::Srgb),
        },
        SourceFormat::Pnm => Ok(Transfer::Bt709),
        SourceFormat::Other => Ok(Transfer::Srgb),
    }
}

} // verus!
