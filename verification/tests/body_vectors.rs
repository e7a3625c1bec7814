use sixela::dither::DitherConf;
use sixela::enums::{EncodePolicy, PaletteType};
use sixela::output::SixelOutput;

struct Picture {
    state: u32,
}

impl Picture {
    fn next(&mut self, k: u32) -> u32 {
        self.state = self.state.wrapping_mul(1103515245).wrapping_add(12345) % (1 << 31);
        (self.state >> 16) % k
    }
}

fn encoded(
    seed: u32,
    size_of: (i32, i32, i32),
    keycolor: i32,
    holes: u32,
    rare: u32,
    options: (bool, bool, bool, bool, bool, bool),
) -> Vec<u8> {
    let (width, height, ncolors) = size_of;
    let (bodyonly, size, hls, limit, eight, skip) = options;
    let mut picture = Picture { state: seed };
    let mut pixels: Vec<u8> = Vec::new();
    for _ in 0..width * height {
        if holes > 0 && picture.next(100) < holes {
            pixels.push(255);
        } else if rare > 0 {
            pixels.push(if picture.next(rare) == 0 { 1 } else { 0 });
        } else {
            pixels.push(picture.next(ncolors as u32) as u8);
        }
    }
    let mut palette: Vec<u8> = Vec::new();
    for _ in 0..3 * ncolors {
        palette.push(picture.next(256) as u8);
    }
    let mut dither = DitherConf::new(ncolors).unwrap();
    dither.set_palette(palette);
    dither.set_transparent(keycolor);
    dither.set_body_only(bodyonly);
    let mut out = SixelOutput::new();
    if size {
        out.set_encode_policy(EncodePolicy::Size);
    }
    if hls {
        out.set_palette_type(PaletteType::HLS);
    }
    out.set_gri_arg_limit(limit);
    out.set_8bit_availability(eight);
    out.set_skip_dcs_envelope(skip);
    assert_eq!(out.encode_dither(&pixels, width, height, &dither), Ok(()));
    assert!(out.buffer.is_empty());
    out.sink
}

#[test]
fn random_three_colors() {
    let expected: &[u8] = b"\x1bPq\"1;1;7;5#0;2;98;24;14#1;2;1;33;51#2;2;50;43;11#0AQQA@YA$#1HDDCI?W$#2SGGXSDD\x1b\\";
    let options = (false, false, false, true, false, false);
    let stream = encoded(7919, (7, 5, 3), -1, 0, 0, options);
    assert_eq!(String::from_utf8_lossy(&stream), String::from_utf8_lossy(expected));
    assert_eq!(stream, expected);
}

#[test]
fn random_two_bands() {
    let expected: &[u8] = b"\x1bPq\"1;1;9;8#0;2;84;68;6#1;2;47;54;75#2;2;87;100;35#3;2;82;84;9#0hWRGMOGdq$#1CDcA`BeIL$#2Oa?d?K$#3A?GOO_PO-#0?@!5?A$#1A???AA?@@$#2@?AA!4?A$#3?A!4@B\x1b\\";
    let options = (false, false, false, true, false, false);
    let stream = encoded(15838, (9, 8, 4), -1, 0, 0, options);
    assert_eq!(String::from_utf8_lossy(&stream), String::from_utf8_lossy(expected));
    assert_eq!(stream, expected);
}

#[test]
fn random_three_bands_with_holes() {
    let expected: &[u8] = b"\x1bPq\"1;1;12;14#0;2;43;99;10#1;2;58;93;93#2;2;9;65;55#0@ED??Q@?CO?A$#1!4?G?OCGc?x$#2{hgT?@MbP?}-#0?`OK@BA?@@c_$#1PID@WCOA??@O$#2gSi?Eo_`g_AA-#0??AA?A!4?@$#1B??@@@!5?A$#2?B??A??@BA?@\x1b\\";
    let options = (false, false, false, true, false, false);
    let stream = encoded(23757, (12, 14, 3), -1, 30, 0, options);
    assert_eq!(String::from_utf8_lossy(&stream), String::from_utf8_lossy(expected));
    assert_eq!(stream, expected);
}

#[test]
fn random_key_color() {
    let expected: &[u8] = b"\x1bPq\"1;1;10;7#0;2;36;56;97#1;2;35;75;36#3;2;57;2;80#0@GEWHJOoda$#1?P@?S?`GGS$#3[A_`AC?EQH-#0!5?@$#1?@??@?@@?@$#3@!7?@\x1b\\";
    let options = (false, false, false, true, false, false);
    let stream = encoded(31676, (10, 7, 4), 2, 0, 0, options);
    assert_eq!(String::from_utf8_lossy(&stream), String::from_utf8_lossy(expected));
    assert_eq!(stream, expected);
}

#[test]
fn random_two_colors_with_key() {
    let expected: &[u8] = b"\x1bPq\"1;1;8;6ggm]EVof\x1b\\";
    let options = (false, false, false, true, false, false);
    let stream = encoded(39595, (8, 6, 2), 0, 0, 0, options);
    assert_eq!(String::from_utf8_lossy(&stream), String::from_utf8_lossy(expected));
    assert_eq!(stream, expected);
}

#[test]
fn random_two_colors_without_key() {
    let expected: &[u8] = b"\x1bPq\"1;1;8;6#0;2;79;15;80#1;2;64;93;78#0r~dX^Bcr$#1K?Ye_{ZK\x1b\\";
    let options = (false, false, false, true, false, false);
    let stream = encoded(47514, (8, 6, 2), -1, 0, 0, options);
    assert_eq!(String::from_utf8_lossy(&stream), String::from_utf8_lossy(expected));
    assert_eq!(stream, expected);
}

#[test]
fn random_body_only() {
    let expected: &[u8] = b"\x1bPq\"1;1;6;6#0g?@e?g$#1@?C?`@$#2??oHAE$#3QbGOWO$#4C[A?C\x1b\\";
    let options = (true, false, false, true, false, false);
    let stream = encoded(55433, (6, 6, 5), -1, 0, 0, options);
    assert_eq!(String::from_utf8_lossy(&stream), String::from_utf8_lossy(expected));
    assert_eq!(stream, expected);
}

#[test]
fn random_size_policy() {
    let expected: &[u8] = b"\x1bPq\"1;1;11;12#0;2;4;84;7#1;2;74;32;32#2;2;22;42;36#0!11~$#1nrT?UDOORiE$#2??GJ?G?dkDh-#0!11~$#1GURqi?OC?@H$#2b@KG?UjrOwE\x1b\\";
    let options = (false, true, false, true, false, false);
    let stream = encoded(63352, (11, 12, 3), -1, 0, 0, options);
    assert_eq!(String::from_utf8_lossy(&stream), String::from_utf8_lossy(expected));
    assert_eq!(stream, expected);
}

#[test]
fn random_size_policy_with_holes() {
    let expected: &[u8] = b"\x1bPq\"1;1;11;12#0;2;43;26;75#1;2;8;16;24#2;2;56;65;76#0JPAAG??mK_@$#1OMGO_YbPoL$#2c__lVd??BQ[-#0IQ_CZgG}BQR$#1DlSh?CQ?WCG$#2O?HQcPd?CG\x1b\\";
    let options = (false, true, false, true, false, false);
    let stream = encoded(71271, (11, 12, 3), -1, 10, 0, options);
    assert_eq!(String::from_utf8_lossy(&stream), String::from_utf8_lossy(expected));
    assert_eq!(stream, expected);
}

#[test]
fn random_hls_palette() {
    let expected: &[u8] = b"\x1bPq\"1;1;5;3#0;1;272;68;77#1;1;171;21;79#2;1;230;53;96#3;1;19;39;98#4;1;279;61;95#5;1;248;26;55#0@F@A@$#1??C?A$#3C?AC$#4A#5??@C\x1b\\";
    let options = (false, false, true, true, false, false);
    let stream = encoded(79190, (5, 3, 6), -1, 0, 0, options);
    assert_eq!(String::from_utf8_lossy(&stream), String::from_utf8_lossy(expected));
    assert_eq!(stream, expected);
}

#[test]
fn random_wide_with_gaps() {
    let expected: &[u8] = b"\x1bPq\"1;1;64;6#0;2;74;39;73#1;2;90;90;68#0C_???Q@!9?G?O?_??AA?C??@??O?G???E!5?AG!4?_??A!4?A??@$#1!8?C!5?_??O!4?C???AO?GO?C!10?O!11?O?_C@A?A\x1b\\";
    let options = (false, false, false, true, false, false);
    let stream = encoded(87109, (64, 6, 2), -1, 90, 0, options);
    assert_eq!(String::from_utf8_lossy(&stream), String::from_utf8_lossy(expected));
    assert_eq!(stream, expected);
}

#[test]
fn random_wide_runs() {
    let expected: &[u8] = b"\x1bPq\"1;1;300;2#0;2;13;16;100#1;2;72;48;69#0BBBA!21BA!8BA!9B@!6BABBB@!10BA@!10BA!33BABB@!14B@!23BABBB@BA!6B@!8BA!9B@!5B@BA!4BA!10BA!15B@BBBAA!18BA@!17BA!7BA!7BA!4BA!9B$#1???@!21?@!8?@!9?A!6?@???A!10?@A!10?@!33?@??A!14?A!23?@???A?@!6?A!8?@!9?A!5?A?@!4?@!10?@!15?A???@@!18?@A!17?@!7?@!7?@!4?@\x1b\\";
    let options = (false, false, false, true, false, false);
    let stream = encoded(95028, (300, 2, 2), -1, 0, 20, options);
    assert_eq!(String::from_utf8_lossy(&stream), String::from_utf8_lossy(expected));
    assert_eq!(stream, expected);
}

#[test]
fn random_wide_runs_unlimited() {
    let expected: &[u8] = b"\x1bPq\"1;1;300;2#0;2;58;9;41#1;2;26;81;75#0!7BA!59BA!14B@!42B@!15BA@B@!45B@!85B@!23B$#1!7?@!59?@!14?A!42?A!15?@A?A!45?A!85?A\x1b\\";
    let options = (false, false, false, false, false, false);
    let stream = encoded(102947, (300, 2, 2), -1, 0, 41, options);
    assert_eq!(String::from_utf8_lossy(&stream), String::from_utf8_lossy(expected));
    assert_eq!(stream, expected);
}

#[test]
fn random_eight_bit() {
    let expected: &[u8] = b"\xc8\xa0q\"1;1;4;4#0;2;12;20;77#1;2;67;84;73#0FDEI$#1GIHD\xc8\xb4";
    let options = (false, false, false, true, true, false);
    let stream = encoded(110866, (4, 4, 2), -1, 0, 0, options);
    assert_eq!(String::from_utf8_lossy(&stream), String::from_utf8_lossy(expected));
    assert_eq!(stream, expected);
}

#[test]
fn random_no_envelope() {
    let expected: &[u8] = b"q\"1;1;4;4#0;2;67;82;36#1;2;51;4;35#0NIGD$#1?DFI";
    let options = (false, false, false, true, false, true);
    let stream = encoded(118785, (4, 4, 2), -1, 0, 0, options);
    assert_eq!(String::from_utf8_lossy(&stream), String::from_utf8_lossy(expected));
    assert_eq!(stream, expected);
}

#[test]
fn random_key_column() {
    let expected: &[u8] = b"\x1bPq\"1;1;9;6#0;2;59;79;7#1;2;36;17;58#2;2;99;75;49#4;2;16;4;100#5;2;86;100;46#6;2;76;39;91#7;2;66;70;5#8;2;51;99;6#0!4?@?A$#1?A@G_$#2_?SCO?C$#4GH__K_?EC$#5?_?A?G@@y$#6???@?O?G@$#7E!4?EG$#8@CGOA@__\x1b\\";
    let options = (false, false, false, true, false, false);
    let stream = encoded(126704, (9, 6, 9), 3, 0, 0, options);
    assert_eq!(String::from_utf8_lossy(&stream), String::from_utf8_lossy(expected));
    assert_eq!(stream, expected);
}
