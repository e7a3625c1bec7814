use sixela::decimal::push_decimal;
use sixela::dither::DitherConf;
use sixela::enums::{PixelFormat, Quality};
use sixela::output::SixelOutput;

fn numeral(value: i64) -> String {
    let mut out = b"x".to_vec();
    push_decimal(&mut out, value);
    String::from_utf8(out).unwrap()
}

#[test]
fn numerals() {
    assert_eq!(numeral(0), "x0");
    assert_eq!(numeral(9), "x9");
    assert_eq!(numeral(10), "x10");
    assert_eq!(numeral(-1), "x-1");
    assert_eq!(numeral(1234567890123), "x1234567890123");
    assert_eq!(numeral(i64::MAX), "x9223372036854775807");
    assert_eq!(numeral(-i64::MAX), "x-9223372036854775807");
}

fn stream(pixels: &[u8], width: i32, height: i32, ncolors: i32) -> Vec<u8> {
    let mut dither = DitherConf::new(ncolors).unwrap();
    dither.set_palette((0..3 * ncolors).map(|i| (i * 37 % 256) as u8).collect());
    let mut out = SixelOutput::new();
    assert_eq!(out.encode_dither(pixels, width, height, &dither), Ok(()));
    out.sink
}

#[test]
fn the_header_holds_the_only_q_in_front_of_the_bands() {
    // Color 0 stands in rows 1, 4 and 5 of the first column: the character
    // of that pattern is `q`.
    let pixels = [1u8, 0, 1, 1, 0, 0];
    let all = stream(&pixels, 1, 6, 2);
    let text = String::from_utf8_lossy(&all).to_string();
    assert_eq!(text, "\x1bPq\"1;1;1;6#0;2;0;15;29#1;2;44;58;73#0q$#1L\x1b\\");
    let bands = text.find("#0q").unwrap();
    assert_eq!(text[..bands].matches('q').count(), 1);
    assert_eq!(text.matches('q').count(), 2);
    // Without that pattern the stream holds one `q`.
    let pixels = [0u8, 0, 1, 1, 0, 0];
    let text = String::from_utf8_lossy(&stream(&pixels, 1, 6, 2)).to_string();
    assert_eq!(text.matches('q').count(), 1);
}

#[test]
fn the_raster_attributes_end_with_width_and_height() {
    for (width, height) in [(1, 1), (7, 3), (12, 25), (100, 1)] {
        let pixels = vec![0u8; (width * height) as usize];
        let text = String::from_utf8_lossy(&stream(&pixels, width, height, 1)).to_string();
        assert!(text.starts_with(&format!("\x1bPq\"1;1;{};{}#0;2;", width, height)));
    }
}

#[test]
fn equal_characters_are_one_token() {
    let text = String::from_utf8_lossy(&stream(&[0u8; 40], 40, 1, 1)).to_string();
    assert!(text.ends_with("#0!40@\x1b\\"));
    let text = String::from_utf8_lossy(&stream(&[0u8; 300], 300, 1, 1)).to_string();
    assert!(text.ends_with("#0!255@!45@\x1b\\"));
    let text = String::from_utf8_lossy(&stream(&[0u8; 3], 3, 1, 1)).to_string();
    assert!(text.ends_with("#0@@@\x1b\\"));
}

#[test]
fn runs_of_one_color_select_it_once() {
    // Color 0 in columns 0 and 20: two runs, one selection.
    let mut pixels = vec![1u8; 21];
    pixels[0] = 0;
    pixels[20] = 0;
    let text = String::from_utf8_lossy(&stream(&pixels, 21, 1, 2)).to_string();
    assert!(text.ends_with("#0@!19?@$#1?!19@\x1b\\"));
    assert_eq!(text.matches("#0").count(), 2);
}

fn colors(width: usize, height: usize) -> Vec<u8> {
    let mut pixels = Vec::new();
    for i in 0..width * height {
        pixels.push(((i * 13) % 256) as u8);
        pixels.push(((i / 7 * 29) % 256) as u8);
        pixels.push(((i / 50 * 101) % 256) as u8);
    }
    pixels
}

/// The slots that the stream names behind `#`, each with the byte that
/// follows its numeral.
fn named_slots(stream: &[u8]) -> Vec<(u32, u8)> {
    let mut slots = Vec::new();
    for at in 0..stream.len() {
        if stream[at] == b'#' {
            let mut end = at + 1;
            let mut slot = 0u32;
            while end < stream.len() && stream[end].is_ascii_digit() {
                slot = slot * 10 + (stream[end] - b'0') as u32;
                end += 1;
            }
            assert!(end > at + 1);
            slots.push((slot, stream[end]));
        }
    }
    slots
}

#[test]
fn a_body_names_the_slots_of_its_palette() {
    let pixels: Vec<u8> = (0..600).map(|i| ((i * 5 + i / 9) % 12) as u8).collect();
    let slots = named_slots(&stream(&pixels, 60, 10, 12));
    assert!(slots.len() > 12);
    assert!(slots.iter().all(|&(slot, _)| slot < 12));
    assert!(slots.iter().any(|&(slot, _)| slot == 11));
}

#[test]
fn no_pass_names_the_slot_of_unresolved_pixels() {
    // More colors than a pass has slots: the stream has several passes.
    let (width, height) = (90, 8);
    let mut pixels = colors(width, height);
    let mut dither = DitherConf::new(-1).unwrap();
    let mut out = SixelOutput::new();
    assert_eq!(out.encode_highcolor(&mut pixels, width as i32, height as i32, &mut dither), Ok(()));
    let passes = out.sink.iter().filter(|&&b| b == b'$').count();
    assert!(passes >= 2);
    let slots = named_slots(&out.sink);
    assert!(slots.iter().all(|&(slot, _)| slot <= 254));
    assert!(slots.iter().any(|&(slot, _)| slot == 254));
    assert!(slots.iter().any(|&(slot, next)| slot == 25 && next != b';'));
    assert!(!String::from_utf8_lossy(&out.sink).contains("#255"));
}

#[test]
fn a_stream_in_pieces_starts_with_the_header_and_holds_one_q() {
    let (width, height) = (90, 8);
    let image = colors(width, height);
    let mut plain = SixelOutput::new();
    let mut dither = DitherConf::new(-1).unwrap();
    let mut pixels = image.clone();
    assert_eq!(plain.encode_highcolor(&mut pixels, 90, 8, &mut dither), Ok(()));
    assert!(plain.sink.starts_with(b"\x1bPq\"1;1;90;8#0;2;"));

    let mut pieces = SixelOutput::new();
    pieces.set_penetrate_multiplexer(true);
    let mut dither = DitherConf::new(-1).unwrap();
    let mut pixels = image.clone();
    assert_eq!(pieces.encode_highcolor(&mut pixels, 90, 8, &mut dither), Ok(()));
    assert!(pieces.sink.starts_with(b"\x1bP\x1bPq\"1;1;90;8#0;2;"));
    let count = |bytes: &[u8]| bytes.iter().filter(|&&b| b == b'q').count();
    assert_eq!(count(&pieces.sink), count(&plain.sink));

    // Bands of one color in a pattern that is not `q`: one `q` in all.
    let mut flat = vec![7u8; 3 * 12];
    let mut dither = DitherConf::new(-1).unwrap();
    let mut out = SixelOutput::new();
    out.set_penetrate_multiplexer(true);
    assert_eq!(out.encode_highcolor(&mut flat, 2, 6, &mut dither), Ok(()));
    assert_eq!(count(&out.sink), 1);
    let mut out = SixelOutput::new();
    out.set_penetrate_multiplexer(true);
    let mut dither = DitherConf::new(1).unwrap();
    assert_eq!(out.encode_dither(&[0u8; 12], 2, 6, &dither), Ok(()));
    assert_eq!(count(&out.sink), 1);
    assert!(out.sink.starts_with(b"\x1bP\x1bPq\"1;1;2;6#0;2;0;0;0#0~~"));
}

#[test]
fn one_pixel_is_encoded_in_every_format() {
    let formats = [
        PixelFormat::RGB555,
        PixelFormat::RGB565,
        PixelFormat::RGB888,
        PixelFormat::BGR555,
        PixelFormat::BGR565,
        PixelFormat::BGR888,
        PixelFormat::ARGB8888,
        PixelFormat::RGBA8888,
        PixelFormat::ABGR8888,
        PixelFormat::BGRA8888,
        PixelFormat::G1,
        PixelFormat::G2,
        PixelFormat::G4,
        PixelFormat::G8,
        PixelFormat::AG88,
        PixelFormat::GA88,
        PixelFormat::PAL1,
        PixelFormat::PAL2,
        PixelFormat::PAL4,
        PixelFormat::PAL8,
    ];
    for format in formats {
        let mut pixels = vec![0u8; 4];
        let mut dither = DitherConf::new(256).unwrap();
        dither.set_pixelformat(format);
        let index = [0u8];
        let applied: Option<&[u8]> = if SixelOutput::needs_applier(1, 1, &dither).unwrap() {
            Some(&index)
        } else {
            None
        };
        let mut out = SixelOutput::new();
        assert_eq!(out.encode(&mut pixels, 1, 1, 0, &mut dither, applied), Ok(()), "{:?}", format);
        assert!(out.sink.starts_with(b"\x1bPq\"1;1;1;1#0;2;0;0;0"));
        assert!(out.sink.ends_with(b"#0@\x1b\\"));
        assert!(!out.sink.contains(&b'-'));

        let mut dither = DitherConf::new(-1).unwrap();
        assert_eq!(dither.quality_mode, Quality::HighColor);
        dither.set_pixelformat(format);
        let mut out = SixelOutput::new();
        assert_eq!(out.encode(&mut pixels, 1, 1, 0, &mut dither, None), Ok(()), "{:?}", format);
        assert!(out.sink.starts_with(b"\x1bPq\"1;1;1;1#0;2;"));
        assert!(out.sink.ends_with(b"#0@$\x1b\\"));
        assert!(!out.sink.contains(&b'-'));
    }
}

#[test]
fn no_body_names_the_key_color() {
    let pixels: Vec<u8> = (0..600).map(|i| ((i * 5 + i / 9) % 12) as u8).collect();
    assert!(pixels.contains(&7));
    let mut dither = DitherConf::new(12).unwrap();
    dither.set_palette((0..36).collect());
    dither.set_transparent(7);
    let mut out = SixelOutput::new();
    assert_eq!(out.encode_dither(&pixels, 60, 10, &dither), Ok(()));
    let slots = named_slots(&out.sink);
    assert!(slots.iter().all(|&(slot, _)| slot < 12 && slot != 7));
    for slot in [0, 6, 8, 11] {
        // Defined once and selected at least once.
        assert!(slots.iter().any(|&(s, next)| s == slot && next == b';'));
        assert!(slots.iter().any(|&(s, next)| s == slot && next != b';'));
    }
}

#[test]
fn a_stream_moves_on_between_bands_only() {
    for (height, feeds) in [(1, 0), (5, 0), (6, 0), (7, 1), (12, 1), (13, 2), (25, 4)] {
        for pieces in [false, true] {
            let pixels: Vec<u8> = (0..3 * height).map(|i| (i % 4) as u8).collect();
            let mut dither = DitherConf::new(4).unwrap();
            dither.set_palette((0..12).map(|i| i * 20).collect());
            let mut out = SixelOutput::new();
            out.set_penetrate_multiplexer(pieces);
            assert_eq!(out.encode_dither(&pixels, 3, height as i32, &dither), Ok(()));
            let count = out.sink.iter().filter(|&&b| b == b'-').count();
            assert_eq!(count, feeds, "height {}", height);
        }
    }
    // The same with the palette in hue, lightness and saturation.
    let pixels: Vec<u8> = (0..3 * 13).map(|i| (i % 4) as u8).collect();
    let mut dither = DitherConf::new(4).unwrap();
    dither.set_palette(vec![255, 0, 0, 0, 255, 0, 0, 0, 255, 10, 200, 90]);
    let mut out = SixelOutput::new();
    out.set_palette_type(sixela::enums::PaletteType::HLS);
    assert_eq!(out.encode_dither(&pixels, 3, 13, &dither), Ok(()));
    assert_eq!(out.sink.iter().filter(|&&b| b == b'-').count(), 2);
}
