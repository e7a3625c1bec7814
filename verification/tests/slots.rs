use sixela::highcolor::{scan_pass, Workspace};
use sixela::enums::SixelDiffusion;
use sixela::slots::{key_of, SlotTable, PALETTE_CHANGE, PALETTE_HIT, UNRESOLVED};

#[test]
fn keys_take_five_bits_of_each_channel() {
    assert_eq!(key_of(0, 0, 0), 0);
    assert_eq!(key_of(7, 7, 7), 0);
    assert_eq!(key_of(8, 0, 0), 1 << 10);
    assert_eq!(key_of(0, 8, 0), 1 << 5);
    assert_eq!(key_of(0, 0, 8), 1);
    assert_eq!(key_of(255, 255, 255), 32767);
    assert_eq!(key_of(0xf8, 0x10, 0x1f), (31 << 10) | (2 << 5) | 3);
}

#[test]
fn a_new_color_takes_the_next_slot() {
    let mut table = SlotTable::new();
    let mut palette = vec![0u8; 768];
    assert_eq!(table.resolve(&mut palette, 10, 20, 30), 0);
    assert_eq!(table.resolve(&mut palette, 200, 100, 50), 1);
    assert_eq!(&palette[0..6], &[10, 20, 30, 200, 100, 50]);
    assert_eq!(table.nextpal, 2);
    assert_eq!(table.palstate[0], PALETTE_CHANGE);
    assert_eq!(table.palhitcount[0], 1);
    assert!(!table.dirty);
    // A color with the key of another one takes its slot.
    assert_eq!(table.resolve(&mut palette, 15, 23, 25), 0);
    assert_eq!(&palette[0..3], &[10, 20, 30]);
    assert_eq!(table.palstate[0], PALETTE_CHANGE);
    assert_eq!(table.palhitcount[0], 2);
    assert_eq!(table.nextpal, 2);
}

fn color(i: usize) -> (u8, u8, u8) {
    (((i % 32) * 8) as u8, (((i / 32) % 32) * 8) as u8, (((i / 1024) % 32) * 8) as u8)
}

#[test]
fn a_pass_has_255_slots() {
    let mut table = SlotTable::new();
    let mut palette = vec![0u8; 768];
    for i in 0..255 {
        let (r, g, b) = color(i);
        assert_eq!(table.resolve(&mut palette, r, g, b), i as u8);
    }
    assert!(!table.dirty);
    let (r, g, b) = color(255);
    assert_eq!(table.resolve(&mut palette, r, g, b), UNRESOLVED);
    assert!(table.dirty);
    assert_eq!(table.threshold, 255);
    assert_eq!(&palette[765..768], &[0, 0, 0]);
    // The colors that have a slot keep it.
    let (r, g, b) = color(17);
    assert_eq!(table.resolve(&mut palette, r, g, b), 17);
}

#[test]
fn the_next_pass_recycles_the_slots_used_least() {
    let mut table = SlotTable::new();
    let mut palette = vec![0u8; 768];
    for i in 0..255 {
        let (r, g, b) = color(i);
        table.resolve(&mut palette, r, g, b);
    }
    // Slot 0 was used twice, slot 1 ten times.
    let (r, g, b) = color(0);
    table.resolve(&mut palette, r, g, b);
    let (r, g, b) = color(1);
    for _ in 0..9 {
        table.resolve(&mut palette, r, g, b);
    }
    table.begin_pass();
    table.recycling = true;
    assert_eq!((table.nextpal, table.threshold, table.dirty), (0, 1, false));
    assert!(table.palstate.iter().all(|&s| s == 0));
    // A color known before marks its slot as hit.
    let (r, g, b) = color(2);
    assert_eq!(table.resolve(&mut palette, r, g, b), 2);
    assert_eq!(table.palstate[2], PALETTE_HIT);
    // A new color takes the first slot used once that this pass has not used.
    let (r, g, b) = color(300);
    assert_eq!(table.resolve(&mut palette, r, g, b), 3);
    assert_eq!(table.threshold, 1);
    assert_eq!(&palette[9..12], &[r, g, b]);
    // The color that the slot held has no slot any more.
    let (r, g, b) = color(3);
    assert_eq!(table.resolve(&mut palette, r, g, b), 4);
    // The counts stop at 255.
    let (r, g, b) = color(2);
    for _ in 0..300 {
        table.resolve(&mut palette, r, g, b);
    }
    assert_eq!(table.palhitcount[2], 255);
}

#[test]
fn slots_used_more_often_are_recycled_later() {
    let mut table = SlotTable::new();
    let mut palette = vec![0u8; 768];
    for i in 0..255 {
        let (r, g, b) = color(i);
        table.resolve(&mut palette, r, g, b);
        table.resolve(&mut palette, r, g, b);
    }
    // Slot 200 was used nine times, the others twice or more than nine times.
    for i in 0..255 {
        let (r, g, b) = color(i);
        for _ in 0..(if i == 200 { 7 } else if i < 100 { 0 } else { 20 }) {
            table.resolve(&mut palette, r, g, b);
        }
    }
    table.begin_pass();
    table.recycling = true;
    let (r, g, b) = color(400);
    assert_eq!(table.resolve(&mut palette, r, g, b), 0);
    assert_eq!(table.threshold, 9);
    for i in 401..500 {
        let (r, g, b) = color(i);
        assert_eq!(table.resolve(&mut palette, r, g, b), (i - 400) as u8);
    }
    let (r, g, b) = color(500);
    assert_eq!(table.resolve(&mut palette, r, g, b), 200);
    let (r, g, b) = color(501);
    assert_eq!(table.resolve(&mut palette, r, g, b), 100);
    assert_eq!(table.threshold, 255);
}

#[test]
fn a_pass_stops_at_the_band_that_leaves_it_dirty() {
    let (width, height) = (100usize, 14usize);
    let mut pixels = Vec::new();
    for i in 0..width * height {
        // Ten colors in the first band, a color a pixel from there on.
        let (r, g, b) = color(if i < 6 * width { i % 10 } else { i });
        pixels.extend_from_slice(&[r, g, b]);
    }
    let mut palette = vec![0u8; 768];
    let mut work = Workspace {
        paletted: vec![0u8; width * height],
        marks: vec![false; 6 * width],
        table: SlotTable::new(),
    };
    let (rows, next) = scan_pass(
        &mut pixels,
        &mut palette,
        &mut work,
        width,
        height,
        0,
        SixelDiffusion::Off,
    );
    assert_eq!((rows, next), (12, 6));
    assert!(work.table.dirty);
    // The first band has its slots; of the second, 245 pixels have one.
    assert!(work.paletted[0..600].iter().all(|&i| i < 10));
    assert_eq!(work.paletted[600..1200].iter().filter(|&&i| i != UNRESOLVED).count(), 245);
    assert_eq!(work.marks.iter().filter(|&&m| m).count(), 245);
    work.table.recycling = true;
    let (rows, next) = scan_pass(
        &mut pixels,
        &mut palette,
        &mut work,
        width,
        height,
        6,
        SixelDiffusion::Off,
    );
    assert_eq!((rows, next), (6, 6));
    assert_eq!(work.paletted[0..245].iter().filter(|&&i| i != UNRESOLVED).count(), 0);
    assert_eq!(work.paletted[245..600].iter().filter(|&&i| i != UNRESOLVED).count(), 255);
    assert_eq!(work.marks.iter().filter(|&&m| m).count(), 500);
    let (_, next) = scan_pass(
        &mut pixels,
        &mut palette,
        &mut work,
        width,
        height,
        6,
        SixelDiffusion::Off,
    );
    // The band is done; the pass goes on to the last band and stops there.
    assert_eq!(next, 12);
}
