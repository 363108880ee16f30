use arborui::decode::{
    has_supported_tga_header, inspect, validate_output_size, CodecFailure, ColorError,
    DecodeError, DecodeErrorKind, InvalidColor, IoFailure, SourceFormat, Transfer,
    UnsupportedColor, WebpFailure,
};
use arborui::image::ImageError;

fn crc32(bytes: &[u8]) -> u32 {
    let mut crc = u32::MAX;
    for byte in bytes {
        crc ^= u32::from(*byte);
        for _ in 0..8 {
            crc = (crc >> 1) ^ (0xedb8_8320 & 0_u32.wrapping_sub(crc & 1));
        }
    }
    !crc
}

fn chunk(kind: &[u8; 4], data: &[u8]) -> Vec<u8> {
    let mut out = (data.len() as u32).to_be_bytes().to_vec();
    out.extend_from_slice(kind);
    out.extend_from_slice(data);
    let mut covered = kind.to_vec();
    covered.extend_from_slice(data);
    out.extend_from_slice(&crc32(&covered).to_be_bytes());
    out
}

fn png(chunks: &[Vec<u8>]) -> Vec<u8> {
    let mut out = b"\x89PNG\r\n\x1a\n".to_vec();
    out.extend(chunk(b"IHDR", &[0, 0, 0, 1, 0, 0, 0, 1, 8, 6, 0, 0, 0]));
    for c in chunks {
        out.extend_from_slice(c);
    }
    out.extend(chunk(b"IDAT", &[0; 4]));
    out.extend(chunk(b"IEND", &[]));
    out
}

#[test]
fn untagged_png_is_srgb_and_linear_gamma_is_linear() {
    assert_eq!(inspect(&png(&[]), SourceFormat::Png), Ok(Transfer::Srgb));
    let gamma = chunk(b"gAMA", &100_000_u32.to_be_bytes());
    assert_eq!(inspect(&png(&[gamma]), SourceFormat::Png), Ok(Transfer::Linear));
}

#[test]
fn png_metadata_precedence_and_checks() {
    let linear_cicp = chunk(b"cICP", &[1, 8, 0, 1]);
    let srgb_intent = chunk(b"sRGB", &[0]);
    let gamma_22 = chunk(b"gAMA", &45_455_u32.to_be_bytes());
    assert_eq!(
        inspect(&png(&[srgb_intent.clone(), linear_cicp]), SourceFormat::Png),
        Ok(Transfer::Linear)
    );
    assert_eq!(
        inspect(&png(&[gamma_22.clone(), srgb_intent]), SourceFormat::Png),
        Ok(Transfer::Srgb)
    );
    assert_eq!(
        inspect(&png(&[gamma_22]), SourceFormat::Png),
        Err(ColorError::Unsupported(UnsupportedColor::PngGamma))
    );
    assert_eq!(
        inspect(&png(&[chunk(b"gAMA", &[0; 4])]), SourceFormat::Png),
        Err(ColorError::Invalid(InvalidColor::PngZeroGamma))
    );
    assert_eq!(
        inspect(&png(&[chunk(b"sRGB", &[4])]), SourceFormat::Png),
        Err(ColorError::Invalid(InvalidColor::PngRenderingIntent))
    );
    assert_eq!(
        inspect(&png(&[chunk(b"gAMA", &[1])]), SourceFormat::Png),
        Err(ColorError::Invalid(InvalidColor::PngColorChunk))
    );
    let gamma = chunk(b"gAMA", &100_000_u32.to_be_bytes());
    assert_eq!(
        inspect(&png(&[gamma.clone(), gamma.clone()]), SourceFormat::Png),
        Err(ColorError::Invalid(InvalidColor::PngColorChunk))
    );
    let mut corrupted = png(&[gamma]);
    corrupted[45] ^= 1;
    assert_eq!(
        inspect(&corrupted, SourceFormat::Png),
        Err(ColorError::Invalid(InvalidColor::PngChecksum))
    );
    assert_eq!(
        inspect(&png(&[chunk(b"iCCP", b"x")]), SourceFormat::Png),
        Err(ColorError::Unsupported(UnsupportedColor::PngIcc))
    );
    assert_eq!(
        inspect(&png(&[chunk(b"cLLI", &[0; 8])]), SourceFormat::Png),
        Err(ColorError::Unsupported(UnsupportedColor::PngHdr))
    );
}

#[test]
fn png_chromaticities_must_be_srgb() {
    let mut srgb = Vec::new();
    for value in [31_270_u32, 32_900, 64_000, 33_000, 30_000, 60_000, 15_000, 6_000] {
        srgb.extend_from_slice(&value.to_be_bytes());
    }
    assert_eq!(
        inspect(&png(&[chunk(b"cHRM", &srgb)]), SourceFormat::Png),
        Ok(Transfer::Srgb)
    );
    srgb[3] ^= 1;
    assert_eq!(
        inspect(&png(&[chunk(b"cHRM", &srgb)]), SourceFormat::Png),
        Err(ColorError::Unsupported(UnsupportedColor::PngChromaticities))
    );
}

#[test]
fn truncated_and_oversized_png_chunks_fail() {
    let full = png(&[]);
    assert_eq!(inspect(&full[..16], SourceFormat::Png), Err(ColorError::Truncated));
    let mut huge = b"\x89PNG\r\n\x1a\n".to_vec();
    huge.extend_from_slice(&0x0500_0000_u32.to_be_bytes());
    huge.extend_from_slice(b"tEXt");
    assert_eq!(inspect(&huge, SourceFormat::Png), Err(ColorError::Limit));
}

#[test]
fn qoi_honors_both_color_space_flags() {
    let mut header = b"qoif\0\0\0\x02\0\0\0\x01\x04\0".to_vec();
    assert_eq!(inspect(&header, SourceFormat::Qoi), Ok(Transfer::Srgb));
    header[13] = 1;
    assert_eq!(inspect(&header, SourceFormat::Qoi), Ok(Transfer::Linear));
    header[13] = 2;
    assert_eq!(
        inspect(&header, SourceFormat::Qoi),
        Err(ColorError::Invalid(InvalidColor::QoiColorSpace))
    );
    assert_eq!(inspect(&header[..13], SourceFormat::Qoi), Err(ColorError::Truncated));
}

#[test]
fn tiff_profiles_are_rejected_before_reading_values_in_either_byte_order() {
    for little in [false, true] {
        let mut encoded = if little {
            b"II*\0\x08\0\0\0\x01\0".to_vec()
        } else {
            b"MM\0*\0\0\0\x08\0\x01".to_vec()
        };
        encoded.extend_from_slice(&if little {
            34675_u16.to_le_bytes()
        } else {
            34675_u16.to_be_bytes()
        });
        let error = inspect(&encoded, SourceFormat::Tiff).expect_err("TIFF ICC tag must fail");
        assert_eq!(error, ColorError::Unsupported(UnsupportedColor::TiffColorimetry));
        let decoded = DecodeError::color(error);
        assert_eq!(decoded.kind(), DecodeErrorKind::Unsupported);
        assert!(decoded.text().contains("TIFF colorimetry or ICC profiles"));
    }
    assert_eq!(
        inspect(b"XX*\0", SourceFormat::Tiff),
        Err(ColorError::Invalid(InvalidColor::TiffByteOrder))
    );
    assert_eq!(
        inspect(b"II+\0\x08\0\0\0", SourceFormat::Tiff),
        Err(ColorError::Invalid(InvalidColor::TiffVersion))
    );
}

#[test]
fn bmp_accepts_srgb_and_rejects_calibrated_headers() {
    let mut bytes = vec![0; 14 + 124];
    bytes[14..18].copy_from_slice(&124_u32.to_le_bytes());
    bytes[70..74].copy_from_slice(&0x7352_4742_u32.to_le_bytes());
    assert_eq!(inspect(&bytes, SourceFormat::Bmp), Ok(Transfer::Srgb));
    bytes[70..74].copy_from_slice(&0_u32.to_le_bytes());
    assert_eq!(
        inspect(&bytes, SourceFormat::Bmp),
        Err(ColorError::Unsupported(UnsupportedColor::BmpProfile))
    );
    bytes[14..18].copy_from_slice(&40_u32.to_le_bytes());
    assert_eq!(inspect(&bytes, SourceFormat::Bmp), Ok(Transfer::Srgb));
}

#[test]
fn ico_applies_the_policy_of_the_selected_entry() {
    let embedded = png(&[chunk(b"gAMA", &100_000_u32.to_be_bytes())]);
    let mut ico = vec![0, 0, 1, 0, 2, 0];
    let first_offset = 6 + 32;
    let mut small = [0_u8; 16];
    small[0] = 1;
    small[1] = 1;
    small[6..8].copy_from_slice(&32_u16.to_le_bytes());
    small[12..16].copy_from_slice(&(first_offset as u32).to_le_bytes());
    let mut large = [0_u8; 16];
    large[0] = 2;
    large[1] = 2;
    large[6..8].copy_from_slice(&32_u16.to_le_bytes());
    large[12..16].copy_from_slice(&((first_offset + 40) as u32).to_le_bytes());
    ico.extend_from_slice(&small);
    ico.extend_from_slice(&large);
    let mut bmp = vec![0; 40];
    bmp[0..4].copy_from_slice(&40_u32.to_le_bytes());
    ico.extend_from_slice(&bmp);
    ico.extend_from_slice(&embedded);
    assert_eq!(inspect(&ico, SourceFormat::Ico), Ok(Transfer::Linear));
    assert_eq!(
        inspect(&[0, 0, 1, 0, 0, 0], SourceFormat::Ico),
        Err(ColorError::Invalid(InvalidColor::IcoEmpty))
    );
}

#[test]
fn gif_icc_extension_is_rejected() {
    let mut gif = b"GIF89a\x01\0\x01\0\0\0\0".to_vec();
    gif.extend_from_slice(&[0x21, 0xff, 11]);
    gif.extend_from_slice(b"ICCRGBG1012");
    gif.extend_from_slice(&[0, 0x2c]);
    assert_eq!(
        inspect(&gif, SourceFormat::Gif),
        Err(ColorError::Unsupported(UnsupportedColor::GifIcc))
    );
    let mut plain = b"GIF89a\x01\0\x01\0\0\0\0".to_vec();
    plain.extend_from_slice(&[0x21, 0xf9, 4, 0, 0, 0, 0, 0, 0x2c]);
    assert_eq!(inspect(&plain, SourceFormat::Gif), Ok(Transfer::Srgb));
}

#[test]
fn tga_extension_area_is_rejected() {
    let mut tga = vec![0; 18];
    tga.extend_from_slice(&[1, 0, 0, 0, 0, 0, 0, 0]);
    tga.extend_from_slice(b"TRUEVISION-XFILE.\0");
    assert_eq!(
        inspect(&tga, SourceFormat::Tga),
        Err(ColorError::Unsupported(UnsupportedColor::TgaExtension))
    );
    let len = tga.len();
    tga[len - 26..len - 22].copy_from_slice(&[0, 0, 0, 0]);
    assert_eq!(inspect(&tga, SourceFormat::Tga), Ok(Transfer::Srgb));
}

#[test]
fn netpbm_uses_bt709_and_other_formats_srgb() {
    assert_eq!(inspect(b"P6", SourceFormat::Pnm), Ok(Transfer::Bt709));
    assert_eq!(inspect(b"", SourceFormat::Other), Ok(Transfer::Srgb));
}

#[test]
fn supported_tga_headers_are_recognized() {
    let mut header = [0_u8; 18];
    header[2] = 2;
    header[12] = 1;
    header[14] = 1;
    header[16] = 32;
    header[17] = 8;
    assert!(has_supported_tga_header(&header));
    header[16] = 16;
    assert!(!has_supported_tga_header(&header));
    header[2] = 1;
    header[1] = 1;
    assert!(has_supported_tga_header(&header));
    header[1] = 0;
    assert!(!has_supported_tga_header(&header));
    assert!(!has_supported_tga_header(&header[..17]));
}

#[test]
fn output_sizes_are_validated() {
    assert!(validate_output_size(2, 2).is_ok());
    let zero = validate_output_size(0, 5).expect_err("zero width");
    assert_eq!(zero.kind(), DecodeErrorKind::InvalidData);
    assert_eq!(zero.text(), "decoded image dimensions must be nonzero");
    let large = validate_output_size(5_000, 5_000).expect_err("too large");
    assert_eq!(large.kind(), DecodeErrorKind::LimitExceeded);
    assert_eq!(
        large.text(),
        "decoded image requires 100000000 RGBA bytes, exceeding the 67108864-byte limit"
    );
    let overflow = validate_output_size(u32::MAX, u32::MAX).expect_err("overflow");
    assert_eq!(overflow.kind(), DecodeErrorKind::LimitExceeded);
    assert_eq!(overflow.text(), "decoded RGBA byte length overflows u64");
}

#[test]
fn codec_failures_map_to_kinds() {
    let kind = |failure| DecodeError::decoder("ctx", failure, "detail").kind();
    assert_eq!(kind(CodecFailure::Io(IoFailure::UnexpectedEof)), DecodeErrorKind::InvalidData);
    assert_eq!(kind(CodecFailure::Io(IoFailure::InvalidData)), DecodeErrorKind::InvalidData);
    assert_eq!(kind(CodecFailure::Io(IoFailure::Other)), DecodeErrorKind::Io);
    assert_eq!(kind(CodecFailure::Unsupported), DecodeErrorKind::Unsupported);
    assert_eq!(kind(CodecFailure::Limits), DecodeErrorKind::LimitExceeded);
    assert_eq!(kind(CodecFailure::Parameter), DecodeErrorKind::InvalidData);
    let webp = |failure| DecodeError::webp("ctx", failure, "detail").kind();
    assert_eq!(webp(WebpFailure::ImageTooLarge), DecodeErrorKind::LimitExceeded);
    assert_eq!(webp(WebpFailure::Io(IoFailure::InvalidData)), DecodeErrorKind::Io);
    assert_eq!(webp(WebpFailure::Io(IoFailure::UnexpectedEof)), DecodeErrorKind::InvalidData);
    assert_eq!(webp(WebpFailure::UnsupportedFeature), DecodeErrorKind::Unsupported);
    assert_eq!(
        DecodeError::decoder("failed", CodecFailure::Decoding, "bad data").text(),
        "failed: bad data"
    );
    let rgba = DecodeError::rgba(ImageError::SizeOverflow);
    assert_eq!(rgba.kind(), DecodeErrorKind::LimitExceeded);
    assert_eq!(
        rgba.text(),
        "decoded image is invalid: image dimensions overflow its byte length"
    );
    assert_eq!(
        DecodeError::rgba(ImageError::Empty).kind(),
        DecodeErrorKind::InvalidData
    );
}

#[test]
fn color_errors_are_described_by_their_cause() {
    let truncated = DecodeError::color(ColorError::Truncated);
    assert_eq!(truncated.kind(), DecodeErrorKind::InvalidData);
    assert_eq!(
        truncated.text(),
        "failed to inspect image color metadata: failed to fill whole buffer"
    );
    let invalid = DecodeError::color(ColorError::Invalid(InvalidColor::PngZeroGamma));
    assert_eq!(invalid.kind(), DecodeErrorKind::InvalidData);
    assert_eq!(
        invalid.text(),
        "failed to inspect image color metadata: PNG gamma must be nonzero"
    );
    let limit = DecodeError::color(ColorError::Limit);
    assert_eq!(limit.kind(), DecodeErrorKind::LimitExceeded);
    assert_eq!(
        limit.text(),
        "failed to inspect image color metadata: Memory limit exceeded"
    );
    let unsupported = DecodeError::color(ColorError::Unsupported(UnsupportedColor::PngIcc));
    assert_eq!(unsupported.kind(), DecodeErrorKind::Unsupported);
    assert_eq!(
        unsupported.text(),
        "failed to inspect image color metadata: \
         The decoder does not support the format feature PNG ICC profiles"
    );
    assert_eq!(UnsupportedColor::GifIcc.feature(), "GIF ICC profiles");
    assert_eq!(InvalidColor::IcoEmpty.description(), "ICO directory contains no image");
}
