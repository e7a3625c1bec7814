use sixela::enums::PaletteType;
use sixela::error::SixelError;
use sixela::output::{SixelNode, SixelOutput};

fn text(out: &SixelOutput) -> String {
    let mut all = out.sink.clone();
    all.extend_from_slice(&out.buffer);
    String::from_utf8_lossy(&all).to_string()
}

#[test]
fn new_writer() {
    let out = SixelOutput::new();
    assert!(out.sink.is_empty() && out.buffer.is_empty());
    assert!(!out.get_8bit_availability());
    assert!(out.has_gri_arg_limit);
    assert!(!out.skip_dcs_envelope && !out.penetrate_multiplexer);
    assert!(!out.has_sixel_scrolling && !out.has_sdm_glitch);
    assert_eq!(out.palette_type, PaletteType::Auto);
    assert_eq!((out.save_pixel, out.save_count, out.active_palette), (0, 0, -1));
}

#[test]
fn default_writer() {
    let out = SixelOutput::default();
    assert!(out.sink.is_empty() && out.buffer.is_empty());
    assert!(!out.has_gri_arg_limit && !out.has_8bit_control);
    assert_eq!((out.save_pixel, out.save_count, out.active_palette), (0, 0, 0));
}

#[test]
fn characters_strings_and_numbers() {
    let mut out = SixelOutput::new();
    out.putc('#');
    out.puts(";2;");
    out.puti(0);
    out.putc(';');
    out.puti(-17);
    out.putc(';');
    out.puti(i32::MAX);
    out.putc(';');
    out.puti(i32::MIN);
    out.putc(';');
    out.putb(255);
    out.putb(7);
    assert_eq!(text(&out), "#;2;0;-17;2147483647;-2147483648;2557");
    assert!(out.sink.is_empty());
}

#[test]
fn characters_are_written_in_utf8() {
    let mut out = SixelOutput::new();
    out.putc('\u{220}');
    out.putc('\u{20ac}');
    out.putc('\u{1f600}');
    out.puts("\u{234}");
    assert_eq!(out.buffer, vec![0xc8, 0xa0, 0xe2, 0x82, 0xac, 0xf0, 0x9f, 0x98, 0x80, 0xc8, 0xb4]);
}

fn run(count: i32, limit: bool) -> String {
    let mut out = SixelOutput::new();
    out.set_gri_arg_limit(limit);
    for _ in 0..count {
        assert_eq!(out.put_pixel(1), Ok(()));
    }
    assert_eq!((out.save_pixel, out.save_count), (b'@', count));
    assert_eq!(out.put_flash(), Ok(()));
    assert_eq!((out.save_pixel, out.save_count), (0, 0));
    text(&out)
}

#[test]
fn short_runs_are_written_out() {
    assert_eq!(run(1, true), "@");
    assert_eq!(run(2, true), "@@");
    assert_eq!(run(3, true), "@@@");
}

#[test]
fn long_runs_are_one_token() {
    assert_eq!(run(4, true), "!4@");
    assert_eq!(run(17, true), "!17@");
    assert_eq!(run(255, true), "!255@");
    assert_eq!(run(256, false), "!256@");
    assert_eq!(run(1000, false), "!1000@");
}

#[test]
fn long_runs_are_split_at_the_limit() {
    assert_eq!(run(256, true), "!255@@");
    assert_eq!(run(258, true), "!255@@@@");
    assert_eq!(run(259, true), "!255@!4@");
    assert_eq!(run(510, true), "!255@!255@");
    assert_eq!(run(600, true), "!255@!255@!90@");
}

#[test]
fn an_empty_run_writes_nothing() {
    let mut out = SixelOutput::new();
    assert_eq!(out.put_flash(), Ok(()));
    assert_eq!(text(&out), "");
}

#[test]
fn pixels_form_runs() {
    let mut out = SixelOutput::new();
    for pix in [0u8, 0, 63, 63, 63, 63, 63, 1, 64, 200, 2] {
        out.put_pixel(pix).unwrap();
    }
    out.put_flash().unwrap();
    // A value above 63 is no pattern: it reads as the empty one.
    assert_eq!(text(&out), "??!5~@??A");
}

fn node(pal: i32, sx: i32, mx: i32, map: &[u8]) -> SixelNode {
    SixelNode { pal, sx, mx, map: map.to_vec() }
}

#[test]
fn a_node_selects_its_slot_and_fills_the_gap() {
    let mut out = SixelOutput::new();
    let mut x = 0;
    let map = [0u8, 0, 0, 1, 1, 3, 3, 3, 3, 0];
    assert_eq!(out.put_node(&mut x, node(5, 3, 9, &map), 16, -1), Ok(()));
    assert_eq!(x, 9);
    assert_eq!(out.active_palette, 5);
    assert_eq!((out.save_pixel, out.save_count), (0, 0));
    assert_eq!(text(&out), "#5???@@!4B");
}

#[test]
fn nodes_of_one_slot_select_it_once() {
    let mut out = SixelOutput::new();
    let mut x = 0;
    let map = [1u8, 0, 0, 2];
    out.put_node(&mut x, node(2, 0, 1, &map), 16, -1).unwrap();
    out.put_node(&mut x, node(2, 3, 4, &map), 16, -1).unwrap();
    out.put_node(&mut x, node(3, 4, 4, &map), 16, -1).unwrap();
    out.put_node(&mut x, node(2, 4, 4, &map), 16, -1).unwrap();
    assert_eq!(text(&out), "#2@??A#3#2");
    assert_eq!(x, 4);
}

#[test]
fn two_colors_with_a_key_select_no_slot() {
    let mut out = SixelOutput::new();
    let mut x = 0;
    out.put_node(&mut x, node(1, 0, 2, &[1, 1]), 2, 0).unwrap();
    assert_eq!(text(&out), "@@");
    assert_eq!(out.active_palette, -1);
    let mut out = SixelOutput::new();
    let mut x = 0;
    out.put_node(&mut x, node(1, 0, 2, &[1, 1]), 2, -1).unwrap();
    assert_eq!(text(&out), "#1@@");
    let mut out = SixelOutput::new();
    let mut x = 0;
    out.put_node(&mut x, node(1, 0, 2, &[1, 1]), 3, 0).unwrap();
    assert_eq!(text(&out), "#1@@");
}

#[test]
fn a_node_behind_the_cursor_moves_nothing() {
    let mut out = SixelOutput::new();
    let mut x = 7;
    out.put_node(&mut x, node(1, 0, 2, &[1, 1]), 4, -1).unwrap();
    assert_eq!(x, 7);
    assert_eq!(text(&out), "#1");
}

#[test]
fn a_pending_run_goes_on_in_a_node() {
    let mut out = SixelOutput::new();
    out.put_pixel(1).unwrap();
    out.put_pixel(1).unwrap();
    let mut x = 0;
    out.put_node(&mut x, node(0, 0, 2, &[1, 1]), 4, -1).unwrap();
    assert_eq!(text(&out), "#0!4@");
}

#[test]
fn headers() {
    let mut out = SixelOutput::new();
    assert_eq!(out.encode_header(640, 480), Ok(()));
    assert_eq!(text(&out), "\x1bPq\"1;1;640;480");
    let mut out = SixelOutput::new();
    out.set_8bit_availability(true);
    out.encode_header(1, 2).unwrap();
    assert_eq!(out.buffer, b"\xc8\xa0q\"1;1;1;2");
    let mut out = SixelOutput::new();
    out.set_skip_dcs_envelope(true);
    out.set_8bit_availability(true);
    out.encode_header(-3, 0).unwrap();
    assert_eq!(text(&out), "q\"1;1;-3;0");
}

#[test]
fn palette_definitions_in_rgb() {
    let palette = [0u8, 1, 2, 127, 128, 255, 3, 4, 5];
    let mut out = SixelOutput::new();
    assert_eq!(out.output_rgb_palette_definition(&palette, 0, -1), Ok(()));
    assert_eq!(out.output_rgb_palette_definition(&palette, 1, -1), Ok(()));
    assert_eq!(out.output_rgb_palette_definition(&palette, 2, 2), Ok(()));
    assert_eq!(text(&out), "#0;2;0;0;1#1;2;50;50;100");
    assert_eq!(out.output_rgb_palette_definition(&palette, 3, -1), Err(SixelError::BadInput));
    assert_eq!(out.output_rgb_palette_definition(&palette[0..8], 2, -1), Err(SixelError::BadInput));
    assert_eq!(out.output_rgb_palette_definition(&palette, -1, -2), Err(SixelError::BadInput));
    assert_eq!(out.output_rgb_palette_definition(&palette, -1, -1), Ok(()));
    assert_eq!(text(&out), "#0;2;0;0;1#1;2;50;50;100");
}

fn hls(r: u8, g: u8, b: u8) -> String {
    let mut out = SixelOutput::new();
    assert_eq!(out.output_hls_palette_definition(&[r, g, b], 0, -1), Ok(()));
    text(&out)
}

#[test]
fn palette_definitions_in_hls() {
    assert_eq!(hls(0, 0, 0), "#0;1;0;0;0");
    assert_eq!(hls(255, 255, 255), "#0;1;0;100;0");
    assert_eq!(hls(128, 128, 128), "#0;1;0;50;0");
    assert_eq!(hls(255, 0, 0), "#0;1;120;50;100");
    assert_eq!(hls(0, 255, 0), "#0;1;240;50;100");
    assert_eq!(hls(0, 0, 255), "#0;1;0;50;100");
    assert_eq!(hls(255, 255, 0), "#0;1;180;50;100");
    assert_eq!(hls(255, 0, 255), "#0;1;60;50;100");
    assert_eq!(hls(0, 255, 255), "#0;1;300;50;100");
    // Blue is the greatest channel: the branch goes by red and green.
    assert_eq!(hls(10, 20, 200), "#0;1;357;41;90");
    assert_eq!(hls(20, 10, 200), "#0;1;3;41;90");
    assert_eq!(hls(200, 100, 50), "#0;1;140;49;60");
    assert_eq!(hls(50, 100, 200), "#0;1;340;49;60");
    assert_eq!(hls(250, 240, 230), "#0;1;150;94;66");
    let mut out = SixelOutput::new();
    assert_eq!(out.output_hls_palette_definition(&[1, 2, 3], 0, 0), Ok(()));
    assert_eq!(out.output_hls_palette_definition(&[1, 2, 3], 1, 0), Err(SixelError::BadInput));
    assert_eq!(text(&out), "");
}

#[test]
fn footers() {
    let mut out = SixelOutput::new();
    out.puts("abc");
    assert_eq!(out.encode_footer(), Ok(()));
    assert_eq!(out.sink, b"abc\x1b\\");
    assert!(out.buffer.is_empty());
    let mut out = SixelOutput::new();
    out.set_8bit_availability(true);
    out.encode_footer().unwrap();
    assert_eq!(out.sink, b"\xc8\xb4");
    let mut out = SixelOutput::new();
    out.set_skip_dcs_envelope(true);
    out.encode_footer().unwrap();
    assert!(out.sink.is_empty());
    let mut out = SixelOutput::new();
    out.set_penetrate_multiplexer(true);
    out.encode_footer().unwrap();
    assert!(out.sink.is_empty());
    let mut out = SixelOutput::new();
    out.set_penetrate_multiplexer(true);
    out.puts("abc");
    out.encode_footer().unwrap();
    assert_eq!(out.sink, b"\x1bPabc\x1b\\\x1b\\");
}

#[test]
fn full_packets_go_to_the_sink() {
    let mut out = SixelOutput::new();
    let line: Vec<u8> = (0..16383).map(|i| b'a' + (i % 26) as u8).collect();
    out.write_bytes(&line);
    assert!(out.sink.is_empty());
    assert_eq!(out.buffer.len(), 16383);
    out.putc('Z');
    assert_eq!(out.sink.len(), 16384);
    assert_eq!(&out.sink[0..16383], &line[..]);
    assert_eq!(out.sink[16383], b'Z');
    assert!(out.buffer.is_empty());
    out.write_bytes(&line);
    out.write_bytes(&line);
    out.write_bytes(&line);
    assert_eq!(out.sink.len(), 3 * 16384);
    assert_eq!(out.buffer.len(), 16383 * 4 + 1 - 3 * 16384);
    let mut all = line.clone();
    all.push(b'Z');
    all.extend_from_slice(&line);
    all.extend_from_slice(&line);
    all.extend_from_slice(&line);
    let mut written = out.sink.clone();
    written.extend_from_slice(&out.buffer);
    assert_eq!(written, all);
}

#[test]
fn packets_are_wrapped_for_a_multiplexer() {
    let mut out = SixelOutput::new();
    out.set_penetrate_multiplexer(true);
    let line: Vec<u8> = (0..16390).map(|i| b'a' + (i % 26) as u8).collect();
    out.write_bytes(&line);
    assert_eq!(out.buffer, &line[16384..]);
    // 65 pieces of 252 bytes and one of 4, each between ESC P and ESC \.
    assert_eq!(out.sink.len(), 16384 + 66 * 4);
    let mut at = 0;
    let mut payload = Vec::new();
    let mut pieces = Vec::new();
    while at < out.sink.len() {
        assert_eq!(&out.sink[at..at + 2], b"\x1bP");
        let end = out.sink[at..].windows(2).position(|w| w == b"\x1b\\").unwrap() + at;
        payload.extend_from_slice(&out.sink[at + 2..end]);
        pieces.push(end - at - 2);
        at = end + 2;
    }
    assert_eq!(payload, &line[0..16384]);
    assert_eq!(pieces.len(), 66);
    assert!(pieces[0..65].iter().all(|&n| n == 252));
    assert_eq!(pieces[65], 4);
    out.encode_footer().unwrap();
    assert!(out.sink.ends_with(b"\x1bPefghij\x1b\\\x1b\\"));
    assert!(out.buffer.is_empty());
}
