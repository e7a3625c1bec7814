use sixela::dither::DitherConf;
use sixela::enums::{PixelFormat, Quality, SixelDiffusion};
use sixela::error::SixelError;
use sixela::output::SixelOutput;

/// What a terminal shows after a stream: for each pixel the color drawn
/// last, on the protocol's scale of 0 to 100, and how often it was drawn.
struct Screen {
    width: usize,
    colors: Vec<Option<(u32, u32, u32)>>,
    drawn: Vec<u32>,
}

fn number(bytes: &[u8], at: &mut usize) -> u32 {
    let mut value = 0;
    while *at < bytes.len() && bytes[*at].is_ascii_digit() {
        value = value * 10 + (bytes[*at] - b'0') as u32;
        *at += 1;
    }
    value
}

fn show(stream: &[u8], width: usize, height: usize) -> Screen {
    let mut screen =
        Screen { width, colors: vec![None; width * height], drawn: vec![0; width * height] };
    let mut palette: Vec<(u32, u32, u32)> = vec![(0, 0, 0); 256];
    let mut at = stream.iter().position(|&b| b == b'q').unwrap() + 1;
    assert_eq!(stream[at], b'"');
    at += 1;
    for _ in 0..4 {
        number(stream, &mut at);
        if stream[at] == b';' {
            at += 1;
        }
    }
    let (mut x, mut y, mut color) = (0usize, 0usize, 0usize);
    while at < stream.len() && stream[at] != 0x1b {
        let byte = stream[at];
        at += 1;
        match byte {
            b'#' => {
                color = number(stream, &mut at) as usize;
                if at < stream.len() && stream[at] == b';' {
                    at += 1;
                    assert_eq!(number(stream, &mut at), 2);
                    at += 1;
                    let r = number(stream, &mut at);
                    at += 1;
                    let g = number(stream, &mut at);
                    at += 1;
                    let b = number(stream, &mut at);
                    palette[color] = (r, g, b);
                }
            }
            b'$' => x = 0,
            b'-' => {
                x = 0;
                y += 6;
            }
            _ => {
                let (count, pattern) = if byte == b'!' {
                    let count = number(stream, &mut at);
                    let pattern = stream[at];
                    at += 1;
                    (count, pattern)
                } else {
                    (1, byte)
                };
                assert!((b'?'..=b'~').contains(&pattern));
                for _ in 0..count {
                    for row in 0..6 {
                        if (pattern - b'?') & (1 << row) != 0 {
                            let cell = (y + row) * screen.width + x;
                            screen.colors[cell] = Some(palette[color]);
                            screen.drawn[cell] += 1;
                        }
                    }
                    x += 1;
                }
            }
        }
    }
    screen
}

fn percent(channel: u8) -> u32 {
    (channel as u32 * 100 + 127) / 255
}

fn gradient(width: usize, height: usize) -> Vec<u8> {
    let mut pixels = Vec::new();
    for i in 0..width * height {
        pixels.push(((i % 32) * 8) as u8);
        pixels.push((((i / 32) % 32) * 8) as u8);
        pixels.push((((i / 1024) % 32) * 8) as u8);
    }
    pixels
}

fn assert_shows(stream: &[u8], pixels: &[u8], width: usize, height: usize) {
    let screen = show(stream, width, height);
    for cell in 0..width * height {
        let expected =
            (percent(pixels[3 * cell]), percent(pixels[3 * cell + 1]), percent(pixels[3 * cell + 2]));
        assert_eq!(screen.colors[cell], Some(expected), "pixel {}", cell);
        assert_eq!(screen.drawn[cell], 1, "pixel {}", cell);
    }
}

#[test]
fn highcolor_single_pixel() {
    let mut dither = DitherConf::new(-1).unwrap();
    assert_eq!(dither.quality_mode, Quality::HighColor);
    dither.set_body_only(true);
    let mut out = SixelOutput::new();
    let mut pixels = vec![255u8, 0, 0];
    assert_eq!(out.encode_highcolor(&mut pixels, 1, 1, &mut dither), Ok(()));
    assert_eq!(String::from_utf8_lossy(&out.sink), "\x1bPq\"1;1;1;1#0@$\x1b\\");
    assert_eq!(&dither.palette[0..3], &[255, 0, 0]);
    assert_eq!(pixels, vec![255u8, 0, 0]);
}

#[test]
fn highcolor_defines_the_slots_of_the_palette() {
    let mut dither = DitherConf::new(-1).unwrap();
    let mut out = SixelOutput::new();
    let mut pixels = vec![255u8, 0, 0, 0, 255, 0];
    assert_eq!(out.encode_highcolor(&mut pixels, 2, 1, &mut dither), Ok(()));
    let stream = String::from_utf8_lossy(&out.sink).to_string();
    assert!(stream.starts_with("\x1bPq\"1;1;2;1#0;2;100;0;0#1;2;0;100;0#2;2;0;0;0"));
    assert!(stream.contains("#254;2;0;0;0#0@#1@$"));
    assert!(!stream.contains("#255"));
    assert!(stream.ends_with("$\x1b\\"));
}

#[test]
fn highcolor_few_colors_take_one_pass() {
    let (width, height) = (16, 13);
    let mut pixels = gradient(width, height);
    let image = pixels.clone();
    let mut dither = DitherConf::new(-1).unwrap();
    let mut out = SixelOutput::new();
    assert_eq!(out.encode_highcolor(&mut pixels, width as i32, height as i32, &mut dither), Ok(()));
    assert_eq!(out.sink.iter().filter(|&&b| b == b'-').count(), 2);
    assert_eq!(pixels, image);
    assert_shows(&out.sink, &image, width, height);
}

#[test]
fn highcolor_more_colors_than_slots_in_one_band() {
    let (width, height) = (300, 1);
    let mut pixels = gradient(width, height);
    let image = pixels.clone();
    let mut dither = DitherConf::new(-1).unwrap();
    dither.set_diffusion_method(SixelDiffusion::Off);
    let mut out = SixelOutput::new();
    assert_eq!(out.encode_highcolor(&mut pixels, width as i32, height as i32, &mut dither), Ok(()));
    // Two passes: each ends with a carriage return, and none moves on a band.
    let body: Vec<u8> = out.sink.clone();
    assert_eq!(body.iter().filter(|&&b| b == b'$').count(), 2);
    assert_eq!(body.iter().filter(|&&b| b == b'-').count(), 0);
    assert_shows(&out.sink, &image, width, height);
}

#[test]
fn highcolor_more_colors_than_slots_in_many_bands() {
    let (width, height) = (40, 20);
    let mut pixels = gradient(width, height);
    let image = pixels.clone();
    let mut dither = DitherConf::new(-1).unwrap();
    let mut out = SixelOutput::new();
    assert_eq!(out.encode_highcolor(&mut pixels, width as i32, height as i32, &mut dither), Ok(()));
    assert_shows(&out.sink, &image, width, height);
}

#[test]
fn highcolor_wide_image_with_many_colors() {
    let (width, height) = (700, 7);
    let mut pixels = gradient(width, height);
    let image = pixels.clone();
    let mut dither = DitherConf::new(-1).unwrap();
    let mut out = SixelOutput::new();
    assert_eq!(out.encode_highcolor(&mut pixels, width as i32, height as i32, &mut dither), Ok(()));
    assert_shows(&out.sink, &image, width, height);
}

#[test]
fn highcolor_rejects_bad_input() {
    let mut out = SixelOutput::new();
    let mut pixels = vec![0u8; 12];
    let mut dither = DitherConf::new(-1).unwrap();
    assert_eq!(out.encode_highcolor(&mut pixels, 0, 4, &mut dither), Err(SixelError::BadInput));
    assert_eq!(out.encode_highcolor(&mut pixels, 4, 0, &mut dither), Err(SixelError::BadInput));
    assert_eq!(out.encode_highcolor(&mut pixels, 5, 1, &mut dither), Err(SixelError::BadInput));
    assert_eq!(
        out.encode_highcolor(&mut pixels, 65536, 65536, &mut dither),
        Err(SixelError::BadIntegerOverflow)
    );
    let mut small = DitherConf::new(16).unwrap();
    small.set_palette(Vec::new());
    assert_eq!(out.encode_highcolor(&mut pixels, 2, 2, &mut small), Err(SixelError::BadArgument));
    assert!(out.sink.is_empty());
    assert!(out.buffer.is_empty());
}

#[test]
fn encode_chooses_by_quality_mode() {
    let mut pixels = vec![0u8, 0, 255];
    let mut dither = DitherConf::new(-1).unwrap();
    dither.set_body_only(true);
    let mut out = SixelOutput::new();
    assert_eq!(SixelOutput::needs_applier(1, 1, &dither), Ok(false));
    assert_eq!(out.encode(&mut pixels, 1, 1, 0, &mut dither, None), Ok(()));
    assert_eq!(String::from_utf8_lossy(&out.sink), "\x1bPq\"1;1;1;1#0@$\x1b\\");

    // An image of colors is encoded with the indices of the palette applier.
    let mut colors = vec![9u8, 9, 9, 0, 0, 0, 9, 9, 9];
    let indices = [1u8, 0, 1];
    let mut dither = DitherConf::new(2).unwrap();
    dither.set_body_only(true);
    assert_eq!(SixelOutput::needs_applier(3, 1, &dither), Ok(true));
    let mut out = SixelOutput::new();
    assert_eq!(out.encode(&mut colors, 3, 1, 0, &mut dither, Some(&indices)), Ok(()));
    assert_eq!(String::from_utf8_lossy(&out.sink), "\x1bPq\"1;1;3;1#0?@$#1@?@\x1b\\");
    assert_eq!(colors, vec![9u8, 9, 9, 0, 0, 0, 9, 9, 9]);
    let mut out = SixelOutput::new();
    assert_eq!(
        out.encode(&mut colors, 3, 1, 0, &mut dither, None),
        Err(SixelError::NotImplemented)
    );
    assert!(out.sink.is_empty() && out.buffer.is_empty());

    // Pixels of one byte are the indices.
    let mut bytes = vec![1u8, 0, 1];
    dither.set_pixelformat(PixelFormat::PAL8);
    assert_eq!(SixelOutput::needs_applier(3, 1, &dither), Ok(false));
    let mut out = SixelOutput::new();
    assert_eq!(out.encode(&mut bytes, 3, 1, 0, &mut dither, None), Ok(()));
    assert_eq!(String::from_utf8_lossy(&out.sink), "\x1bPq\"1;1;3;1#0?@$#1@?@\x1b\\");

    // Packed pixels are unpacked, and the configuration takes their format.
    let mut packed = vec![0b1010_0000u8];
    dither.set_pixelformat(PixelFormat::PAL1);
    let mut out = SixelOutput::new();
    assert_eq!(out.encode(&mut packed, 3, 1, 0, &mut dither, None), Ok(()));
    assert_eq!(String::from_utf8_lossy(&out.sink), "\x1bPq\"1;1;3;1#0?@$#1@?@\x1b\\");
    assert_eq!(dither.pixelformat, PixelFormat::PAL8);
    // An image that is rejected leaves the configuration as it is.
    dither.set_pixelformat(PixelFormat::PAL1);
    dither.set_palette(Vec::new());
    let mut out = SixelOutput::new();
    assert_eq!(
        out.encode(&mut packed, 3, 1, 0, &mut dither, None),
        Err(SixelError::BadArgument)
    );
    assert_eq!(dither.pixelformat, PixelFormat::PAL1);
    assert_eq!(out.encode(&mut packed, 9, 1, 0, &mut dither, None), Err(SixelError::BadInput));

    let mut out = SixelOutput::new();
    assert_eq!(out.encode(&mut bytes, 0, 1, 0, &mut dither, None), Err(SixelError::BadInput));
    assert_eq!(out.encode(&mut bytes, 1, -1, 0, &mut dither, None), Err(SixelError::BadInput));
    assert_eq!(SixelOutput::needs_applier(0, 1, &dither), Err(SixelError::BadInput));
    assert_eq!(SixelOutput::needs_applier(1, 0, &dither), Err(SixelError::BadInput));
}

#[test]
fn highcolor_extends_a_short_palette() {
    // The palette of an image of one color.
    let mut dither = DitherConf::new(256).unwrap();
    dither.initialize(vec![10, 20, 30], 1, 1);
    dither.set_quality_mode(Quality::HighColor);
    let mut pixels = vec![200u8, 100, 0];
    let mut out = SixelOutput::new();
    assert_eq!(out.encode(&mut pixels, 1, 1, 0, &mut dither, None), Ok(()));
    assert_eq!(dither.palette.len(), 765);
    assert_eq!(&dither.palette[0..3], &[200, 100, 0]);
    assert!(dither.palette[3..].iter().all(|&b| b == 0));
    let stream = String::from_utf8_lossy(&out.sink).to_string();
    assert!(stream.starts_with("\x1bPq\"1;1;1;1#0;2;78;39;0#1;2;0;0;0#2;2;0;0;0"));
    assert!(stream.ends_with("#254;2;0;0;0#0@$\x1b\\"));
    assert_eq!(pixels, vec![200u8, 100, 0]);

    // Sixteen colors in the palette, four in the image.
    let mut dither = DitherConf::new(16).unwrap();
    dither.set_body_only(true);
    dither.set_diffusion_method(SixelDiffusion::Off);
    assert_eq!(dither.palette.len(), 48);
    let mut pixels = vec![255u8, 0, 0, 0, 255, 0, 0, 0, 255, 255, 255, 255];
    let image = pixels.clone();
    let mut out = SixelOutput::new();
    assert_eq!(out.encode_highcolor(&mut pixels, 2, 2, &mut dither), Ok(()));
    assert_eq!(dither.palette.len(), 765);
    assert_eq!(&dither.palette[0..12], &image[..]);
    assert_eq!(String::from_utf8_lossy(&out.sink), "\x1bPq\"1;1;2;2#0@#1@$#2A#3A$\x1b\\");
    // With its definitions the stream shows the image.
    let mut dither = DitherConf::new(16).unwrap();
    dither.set_diffusion_method(SixelDiffusion::Off);
    let mut out = SixelOutput::new();
    assert_eq!(out.encode_highcolor(&mut pixels, 2, 2, &mut dither), Ok(()));
    assert_shows(&out.sink, &image, 2, 2);

    // A palette with room for every slot keeps its length.
    let mut dither = DitherConf::new(-1).unwrap();
    let mut out = SixelOutput::new();
    assert_eq!(out.encode_highcolor(&mut pixels, 2, 2, &mut dither), Ok(()));
    assert_eq!(dither.palette.len(), 768);
}

#[test]
fn highcolor_one_column_of_six_rows() {
    // Six pixels of one color in one column: one slot, one character with
    // all six rows, one pass.
    let mut dither = DitherConf::new(-1).unwrap();
    dither.set_body_only(true);
    dither.set_diffusion_method(SixelDiffusion::Off);
    let mut pixels = [40u8, 80, 120].repeat(6);
    let mut out = SixelOutput::new();
    assert_eq!(out.encode_highcolor(&mut pixels, 1, 6, &mut dither), Ok(()));
    assert_eq!(String::from_utf8_lossy(&out.sink), "\x1bPq\"1;1;1;6#0~$\x1b\\");
    assert_eq!(&dither.palette[0..3], &[40, 80, 120]);

    // Six colors: a slot and a line for each.
    let mut dither = DitherConf::new(-1).unwrap();
    dither.set_body_only(true);
    dither.set_diffusion_method(SixelDiffusion::Off);
    let mut pixels: Vec<u8> = (0..6).flat_map(|i| [i * 40, 0, 0]).collect();
    let mut out = SixelOutput::new();
    assert_eq!(out.encode_highcolor(&mut pixels, 1, 6, &mut dither), Ok(()));
    assert_eq!(
        String::from_utf8_lossy(&out.sink),
        "\x1bPq\"1;1;1;6#0@$#1A$#2C$#3G$#4O$#5_$\x1b\\"
    );
}
