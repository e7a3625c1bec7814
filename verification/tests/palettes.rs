use sixela::dither::{DitherConf, DitherMode};
use sixela::palettes::{pal_gray, pal_mono_dark, pal_mono_light, pal_vt340, pal_xterm256};

/// A 64 bit FNV-1a hash.
fn hash(bytes: &[u8]) -> u64 {
    let mut h: u64 = 0xcbf29ce484222325;
    for &b in bytes {
        h ^= b as u64;
        h = h.wrapping_mul(0x100000001b3);
    }
    h
}

fn sum(bytes: &[u8]) -> u32 {
    bytes.iter().map(|&b| b as u32).sum()
}

#[test]
fn monochrome_palettes() {
    assert_eq!(pal_mono_dark(), vec![0x00, 0x00, 0x00, 0xff, 0xff, 0xff]);
    assert_eq!(pal_mono_light(), vec![0xff, 0xff, 0xff, 0x00, 0x00, 0x00]);
}

#[test]
fn gray_ramps() {
    assert_eq!(pal_gray(2), vec![0x00, 0x00, 0x00, 0xff, 0xff, 0xff]);
    assert_eq!(
        pal_gray(4),
        vec![0x00, 0x00, 0x00, 0x55, 0x55, 0x55, 0xaa, 0xaa, 0xaa, 0xff, 0xff, 0xff]
    );
    let sixteen = pal_gray(16);
    assert_eq!(sixteen.len(), 48);
    assert_eq!(&sixteen[3..6], &[0x11, 0x11, 0x11]);
    assert_eq!(&sixteen[42..48], &[0xee, 0xee, 0xee, 0xff, 0xff, 0xff]);
    assert_eq!((hash(&sixteen), sum(&sixteen)), (0x818e28d3cdac4b55, 6120));
    let all = pal_gray(256);
    assert_eq!(all.len(), 768);
    assert_eq!(&all[381..387], &[0x7f, 0x7f, 0x7f, 0x80, 0x80, 0x80]);
    assert_eq!((hash(&all), sum(&all)), (0x3ac8574c48f9b025, 97920));
}

#[test]
fn vt340_palette() {
    let p = pal_vt340();
    assert_eq!(p.len(), 48);
    assert_eq!(&p[0..12], &[0x21, 0x21, 0x21, 0x42, 0x42, 0x42, 0x66, 0x66, 0x66, 0x0f, 0x0f, 0x0f]);
    assert_eq!(&p[18..27], &[0x75, 0x75, 0x75, 0x00, 0x00, 0x00, 0x21, 0x21, 0x21]);
    assert_eq!((hash(&p), sum(&p)), (0x73bc527ee79b9a21, 2808));
}

#[test]
fn xterm_palette() {
    let p = pal_xterm256();
    assert_eq!(p.len(), 768);
    // The system colors.
    assert_eq!(&p[0..12], &[0x00, 0x00, 0x00, 0x80, 0x00, 0x00, 0x00, 0x80, 0x00, 0x80, 0x80, 0x00]);
    assert_eq!(&p[21..27], &[0xc0, 0xc0, 0xc0, 0x80, 0x80, 0x80]);
    assert_eq!(&p[27..30], &[0xff, 0x00, 0x00]);
    assert_eq!(&p[45..48], &[0xff, 0xff, 0xff]);
    // The cube.
    assert_eq!(&p[48..54], &[0x00, 0x00, 0x00, 0x00, 0x00, 0x5f]);
    assert_eq!(&p[3 * 67..3 * 68], &[0x5f, 0x87, 0xaf]);
    assert_eq!(&p[3 * 231..3 * 232], &[0xff, 0xff, 0xff]);
    // The grays.
    assert_eq!(&p[3 * 232..3 * 233], &[0x08, 0x08, 0x08]);
    assert_eq!(&p[765..768], &[0xee, 0xee, 0xee]);
    assert_eq!((hash(&p), sum(&p)), (0x5fb584e8d22525ed, 108528));
}

#[test]
fn predefined_modes() {
    let modes = [
        (DitherMode::MonoDark, 2, pal_mono_dark(), 0),
        (DitherMode::MonoLight, 2, pal_mono_light(), 0),
        (DitherMode::XTerm16, 16, pal_xterm256(), -1),
        (DitherMode::XTerm256, 256, pal_xterm256(), -1),
        (DitherMode::VT340Mono, 16, pal_vt340(), -1),
        (DitherMode::VT340Color, 16, pal_vt340(), -1),
        (DitherMode::G1, 2, pal_gray(2), -1),
        (DitherMode::G2, 4, pal_gray(4), -1),
        (DitherMode::G4, 16, pal_gray(16), -1),
        (DitherMode::G8, 256, pal_gray(256), -1),
    ];
    for (mode, ncolors, palette, keycolor) in modes {
        let dither = DitherConf::new_mode(mode).unwrap();
        assert_eq!(dither.ncolors, ncolors);
        assert_eq!(dither.reqcolors, ncolors);
        assert_eq!(dither.palette, palette);
        assert_eq!(dither.keycolor, keycolor);
        assert!(dither.optimized);
        assert!(!dither.optimize_palette);
    }
}
