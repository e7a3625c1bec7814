use sixela::band::{band_map, find_runs, Run};
use sixela::output::SixelOutput;

#[test]
fn the_working_map_holds_the_rows_of_each_color() {
    // Three columns, four rows, three colors; color 1 is the key color.
    let pixels = [
        0u8, 1, 2, //
        0, 0, 9, //
        2, 1, 0, //
        0, 2, 2,
    ];
    assert_eq!(
        band_map(&pixels, 3, 0, 4, 3, 1),
        vec![
            0b1011, 0b0010, 0b0100, // color 0
            0, 0, 0, // the key color
            0b0100, 0b1000, 0b1001, // color 2
        ]
    );
    assert_eq!(band_map(&pixels, 3, 1, 2, 3, -1), vec![1, 1, 2, 0, 2, 0, 2, 0, 0]);
    assert_eq!(band_map(&pixels, 3, 3, 1, 1, -1), vec![1, 0, 0]);
    assert_eq!(band_map(&pixels, 3, 0, 4, 0, -1), Vec::<u8>::new());
}

fn runs_of(row: &[u8]) -> Vec<(i32, i32)> {
    find_runs(&row.to_vec(), row.len(), 1).iter().map(|r| (r.sx, r.mx)).collect()
}

#[test]
fn runs_go_on_over_short_gaps() {
    assert_eq!(runs_of(&[0, 0, 0]), vec![]);
    assert_eq!(runs_of(&[1]), vec![(0, 1)]);
    assert_eq!(runs_of(&[0, 1, 1, 0]), vec![(1, 3)]);
    // A gap of nine columns is part of the run.
    let mut row = vec![0u8; 30];
    row[2] = 1;
    row[12] = 1;
    assert_eq!(runs_of(&row), vec![(2, 13)]);
    // A gap of ten columns ends it.
    row[12] = 0;
    row[13] = 1;
    assert_eq!(runs_of(&row), vec![(2, 3), (13, 14)]);
    // A gap that reaches the end of the row is no part of a run.
    let mut row = vec![0u8; 8];
    row[1] = 5;
    row[3] = 5;
    assert_eq!(runs_of(&row), vec![(1, 4)]);
    row[7] = 5;
    assert_eq!(runs_of(&row), vec![(1, 8)]);
}

#[test]
fn runs_are_found_color_by_color() {
    let map = vec![
        1u8, 0, 0, 1, //
        0, 0, 0, 0, //
        0, 2, 2, 0,
    ];
    assert_eq!(
        find_runs(&map, 4, 3),
        vec![Run { pal: 0, sx: 0, mx: 4 }, Run { pal: 2, sx: 1, mx: 3 }]
    );
}

#[test]
fn a_line_takes_the_runs_that_start_at_the_cursor_or_behind_it() {
    let map = vec![
        1u8, 1, 0, 0, 0, 0, //
        0, 1, 1, 1, 0, 0, //
        0, 0, 1, 0, 0, 0, //
        0, 0, 0, 0, 1, 1,
    ];
    let runs = vec![
        Run { pal: 0, sx: 0, mx: 2 },
        Run { pal: 1, sx: 1, mx: 4 },
        Run { pal: 2, sx: 2, mx: 3 },
        Run { pal: 3, sx: 4, mx: 6 },
    ];
    let mut out = SixelOutput::new();
    let left = out.put_line(&runs, &map, 6, 1, false, 4, -1);
    assert_eq!(left, vec![Run { pal: 1, sx: 1, mx: 4 }]);
    assert_eq!(String::from_utf8_lossy(&out.buffer), "#0@@#2@#3?@@");
    let mut out = SixelOutput::new();
    out.put_band(runs, &map, 6, 1, false, 4, -1);
    assert_eq!(String::from_utf8_lossy(&out.buffer), "#0@@#2@#3?@@$#1?@@@");
    assert_eq!(out.active_palette, 1);
}

#[test]
fn the_first_line_of_a_filled_band_has_all_rows() {
    let map = vec![
        1u8, 2, 0, //
        2, 1, 3,
    ];
    let runs = vec![Run { pal: 0, sx: 0, mx: 2 }, Run { pal: 1, sx: 0, mx: 3 }];
    let mut out = SixelOutput::new();
    out.put_band(runs, &map, 3, 2, true, 2, -1);
    assert_eq!(String::from_utf8_lossy(&out.buffer), "#0BB$#1A@B");
}

#[test]
fn every_drawn_pixel_lies_in_a_run_of_its_color() {
    let (width, rows, ncolors, key) = (57usize, 6usize, 5usize, 3i32);
    let mut seed: u32 = 12345;
    let mut pixels = Vec::new();
    for i in 0..width * rows {
        seed = seed.wrapping_mul(1103515245).wrapping_add(12345);
        // Long stretches of one color, with single pixels of others, and
        // values that are no palette slot.
        let value = if (seed >> 16) % 4 == 0 { (seed >> 20) % 7 } else { (i / 23 % 5) as u32 };
        pixels.push(value as u8);
    }
    let map = band_map(&pixels, width, 0, rows, ncolors, key);
    let runs = find_runs(&map, width, ncolors);
    let mut drawn = 0;
    for r in 0..rows {
        for x in 0..width {
            let color = pixels[r * width + x] as usize;
            if color < ncolors && color as i32 != key {
                drawn += 1;
                assert_ne!(map[color * width + x] & (1 << r), 0);
                let holding = runs
                    .iter()
                    .filter(|run| {
                        run.pal as usize == color && run.sx as usize <= x && x < run.mx as usize
                    })
                    .count();
                assert_eq!(holding, 1, "row {} column {}", r, x);
            } else if color < ncolors {
                assert_eq!(map[color * width + x], 0);
            }
        }
    }
    assert!(drawn > 200);
    assert!(runs.iter().all(|run| run.pal != key));
}
