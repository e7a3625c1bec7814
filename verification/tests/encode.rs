use sixela::dither::DitherConf;
use sixela::encode::{indexed_pixels, preparation, Preparation};
use sixela::enums::PixelFormat;
use sixela::enums::{EncodePolicy, PaletteType};
use sixela::error::SixelError;
use sixela::output::SixelOutput;

fn text(bytes: &[u8]) -> String {
    String::from_utf8_lossy(bytes).to_string()
}

fn four_colors() -> DitherConf {
    let mut dither = DitherConf::new(4).unwrap();
    dither.set_palette(vec![
        0xFF, 0x00, 0x00, 0x00, 0xFF, 0x00, 0x00, 0x00, 0xFF, 0xFF, 0xFF, 0xFF,
    ]);
    dither
}

#[test]
fn two_by_two_red_green_blue_white() {
    let dither = four_colors();
    let mut out = SixelOutput::new();
    let pixels = [0u8, 1, 2, 3];
    assert_eq!(out.encode_dither(&pixels, 2, 2, &dither), Ok(()));
    let stream = text(&out.sink);
    assert!(stream.starts_with("\x1bP"));
    assert!(stream.ends_with("\x1b\\"));
    assert_eq!(
        stream,
        "\x1bPq\"1;1;2;2#0;2;100;0;0#1;2;0;100;0#2;2;0;0;100#3;2;100;100;100#0@#1@$#2A#3A\x1b\\"
    );
    let definitions: Vec<&str> =
        stream.split('#').skip(1).filter(|part| part.contains(";2;")).collect();
    assert_eq!(
        definitions,
        vec!["0;2;100;0;0", "1;2;0;100;0", "2;2;0;0;100", "3;2;100;100;100"]
    );
    assert_eq!(stream.matches('q').count(), 1);
    assert!(out.buffer.is_empty());
}

#[test]
fn one_by_one_has_no_next_line() {
    let mut dither = DitherConf::new(1).unwrap();
    dither.set_palette(vec![0x00, 0x80, 0xFF]);
    let mut out = SixelOutput::new();
    assert_eq!(out.encode_dither(&[0u8], 1, 1, &dither), Ok(()));
    let stream = text(&out.sink);
    assert_eq!(stream, "\x1bPq\"1;1;1;1#0;2;0;50;100#0@\x1b\\");
    assert!(!stream.contains('-'));
}

#[test]
fn bands_are_separated_by_next_line() {
    let mut dither = DitherConf::new(1).unwrap();
    dither.set_palette(vec![0, 0, 0]);
    dither.set_body_only(true);
    let mut out = SixelOutput::new();
    out.set_skip_dcs_envelope(true);
    let pixels = [0u8; 13];
    assert_eq!(out.encode_dither(&pixels, 1, 13, &dither), Ok(()));
    assert_eq!(text(&out.sink), "q\"1;1;1;13#0~-~-@");
}

#[test]
fn empty_palette_is_a_bad_argument() {
    let mut dither = DitherConf::new(4).unwrap();
    dither.set_palette(Vec::new());
    let mut out = SixelOutput::new();
    assert_eq!(out.encode_dither(&[0u8; 4], 2, 2, &dither), Err(SixelError::BadArgument));
    assert!(out.sink.is_empty());
    assert!(out.buffer.is_empty());
}

#[test]
fn short_pixels_are_bad_input() {
    let dither = four_colors();
    let mut out = SixelOutput::new();
    assert_eq!(out.encode_dither(&[0u8; 3], 2, 2, &dither), Err(SixelError::BadInput));
    assert_eq!(out.encode_dither(&[0u8; 4], 0, 2, &dither), Err(SixelError::BadInput));
    assert_eq!(out.encode_dither(&[0u8; 4], 2, -1, &dither), Err(SixelError::BadInput));
}

#[test]
fn hls_palette_and_size_policy() {
    let dither = four_colors();
    let mut out = SixelOutput::new();
    out.set_palette_type(PaletteType::HLS);
    out.set_encode_policy(EncodePolicy::Size);
    let pixels = [0u8, 1, 2, 3];
    assert_eq!(out.encode_dither(&pixels, 2, 2, &dither), Ok(()));
    assert_eq!(
        text(&out.sink),
        "\x1bPq\"1;1;2;2#0;1;120;50;100#1;1;240;50;100#2;1;0;50;100#3;1;0;100;0#0B#1B$#2A#3A\x1b\\"
    );
}

#[test]
fn products_above_the_signed_range_are_an_overflow() {
    let dither = four_colors();
    let mut out = SixelOutput::new();
    assert_eq!(
        out.encode_dither(&[0u8; 4], 65536, 65536, &dither),
        Err(SixelError::BadIntegerOverflow)
    );
    assert_eq!(
        out.encode_dither(&[0u8; 4], i32::MAX, 1, &dither),
        Err(SixelError::BadIntegerOverflow)
    );
    // A pending run that the first node cannot go on with.
    out.save_count = i32::MAX;
    assert_eq!(out.encode_dither(&[0u8; 4], 2, 2, &dither), Err(SixelError::BadIntegerOverflow));
    assert_eq!(
        out.encode_body(&[0u8; 4], 2, 2, &[0u8; 12], 4, -1, false, None),
        Err(SixelError::BadIntegerOverflow)
    );
    assert!(out.sink.is_empty() && out.buffer.is_empty());
}

#[test]
fn body_rejects_bad_input() {
    let mut out = SixelOutput::new();
    let palette = [0u8; 12];
    let pixels = [0u8; 4];
    assert_eq!(
        out.encode_body(&pixels, 2, 2, &[], 4, -1, false, None),
        Err(SixelError::BadArgument)
    );
    assert_eq!(
        out.encode_body(&pixels, 2, 2, &[], 400, -1, true, None),
        Err(SixelError::BadArgument)
    );
    assert_eq!(
        out.encode_body(&pixels, 2, 2, &palette, 257, -1, true, None),
        Err(SixelError::BadInput)
    );
    assert_eq!(
        out.encode_body(&pixels, 2, 2, &palette, 5, -1, false, None),
        Err(SixelError::BadInput)
    );
    assert_eq!(out.encode_body(&pixels, 2, 3, &palette, 4, -1, false, None), Err(SixelError::BadInput));
    assert_eq!(out.encode_body(&pixels, 0, 2, &palette, 4, -1, false, None), Err(SixelError::BadInput));
    assert!(out.sink.is_empty() && out.buffer.is_empty());
    assert_eq!(out.active_palette, -1);
    // A short palette is enough where it is not written.
    assert_eq!(out.encode_body(&pixels, 2, 2, &palette, 5, -1, true, None), Ok(()));
    assert_eq!(out.encode_body(&pixels, 2, 2, &palette[0..3], 2, 0, false, None), Ok(()));
}

#[test]
fn a_stream_through_packets_is_the_stream() {
    // An image whose stream is longer than three packets.
    let (width, height) = (500, 240);
    let pixels: Vec<u8> = (0..width * height).map(|i| ((i * 7 + i / 11) % 5) as u8).collect();
    let mut dither = DitherConf::new(5).unwrap();
    dither.set_palette((0..15).collect());
    let mut out = SixelOutput::new();
    assert_eq!(out.encode_dither(&pixels, width, height, &dither), Ok(()));
    assert!(out.sink.len() > 3 * 16384);
    let plain = out.sink.clone();

    let mut out = SixelOutput::new();
    out.set_penetrate_multiplexer(true);
    assert_eq!(out.encode_dither(&pixels, width, height, &dither), Ok(()));
    // Without the envelopes of the pieces the stream is the plain one less
    // its terminator. The pieces end with one more terminator.
    let mut at = 0;
    let mut unwrapped = Vec::new();
    while at + 2 < out.sink.len() {
        assert_eq!(&out.sink[at..at + 2], b"\x1bP");
        let end = out.sink[at + 2..].windows(2).position(|w| w == b"\x1b\\").unwrap() + at + 2;
        assert!(end - at - 2 <= 252);
        unwrapped.extend_from_slice(&out.sink[at + 2..end]);
        at = end + 2;
    }
    assert_eq!(&out.sink[at..], b"\x1b\\");
    // The first piece holds the introducer of the stream itself.
    assert_eq!(unwrapped, &plain[..plain.len() - 2]);
}

#[test]
fn pixels_are_prepared_by_their_format() {
    for format in [
        PixelFormat::PAL1,
        PixelFormat::PAL2,
        PixelFormat::PAL4,
        PixelFormat::G1,
        PixelFormat::G2,
        PixelFormat::G4,
    ] {
        assert_eq!(preparation(format), Preparation::Unpack);
    }
    for format in [PixelFormat::PAL8, PixelFormat::G8, PixelFormat::GA88, PixelFormat::AG88] {
        assert_eq!(preparation(format), Preparation::Direct);
    }
    for format in [
        PixelFormat::RGB555,
        PixelFormat::RGB565,
        PixelFormat::RGB888,
        PixelFormat::BGR555,
        PixelFormat::BGR565,
        PixelFormat::BGR888,
        PixelFormat::ARGB8888,
        PixelFormat::RGBA8888,
        PixelFormat::ABGR8888,
        PixelFormat::BGRA8888,
    ] {
        assert_eq!(preparation(format), Preparation::ApplyPalette);
    }
}

#[test]
fn packed_indices_are_unpacked_and_encoded() {
    let mut dither = DitherConf::new(4).unwrap();
    dither.set_palette(vec![0, 0, 0, 85, 85, 85, 170, 170, 170, 255, 255, 255]);
    dither.set_body_only(true);
    dither.set_pixelformat(PixelFormat::PAL2);
    // Two rows of three pixels: 3 2 1 and 0 1 2.
    let packed = [0b11_10_01_00u8, 0b00_01_10_00];
    let indices = indexed_pixels(&packed, 3, 2, &mut dither).unwrap().unwrap();
    assert_eq!(&indices[0..6], &[3, 2, 1, 0, 1, 2]);
    assert_eq!(dither.pixelformat, PixelFormat::PAL8);
    let mut out = SixelOutput::new();
    assert_eq!(out.encode_dither(&indices, 3, 2, &dither), Ok(()));
    assert_eq!(text(&out.sink), "\x1bPq\"1;1;3;2#0A#1A@$#2?@A$#3@\x1b\\");

    // Pixels of one byte are taken as they are; colors need the applier.
    let mut dither = DitherConf::new(4).unwrap();
    dither.set_pixelformat(PixelFormat::G8);
    assert_eq!(indexed_pixels(&[9, 8], 2, 1, &mut dither), Ok(Some(vec![9, 8])));
    dither.set_pixelformat(PixelFormat::RGB888);
    assert_eq!(indexed_pixels(&[9, 8, 7], 1, 1, &mut dither), Ok(None));
    dither.set_pixelformat(PixelFormat::G1);
    assert_eq!(indexed_pixels(&[], 1, 1, &mut dither), Err(SixelError::BadInput));
    assert_eq!(dither.pixelformat, PixelFormat::G1);
}
