use biplanevsaliens::common::{paint_title, title_mask, Colour, Event};
use biplanevsaliens::landscape::{
    add_sand_borders, get_landscape, AIR_STRIP, GRID, LAND, LAND_X, LAND_Z, SAND, WATER,
};

#[test]
fn sand_rings_a_land_cell() {
    let mut what = [[WATER; GRID]; GRID];
    what[10][10] = LAND;
    add_sand_borders(&mut what);
    for z in 0..GRID {
        for x in 0..GRID {
            let expected = if z == 10 && x == 10 {
                LAND
            } else if (8..12).contains(&z) && (8..12).contains(&x) {
                SAND
            } else {
                WATER
            };
            assert_eq!(what[z][x], expected, "cell {} {}", z, x);
        }
    }
}

#[test]
fn land_at_the_edge_makes_no_beach() {
    let mut what = [[WATER; GRID]; GRID];
    what[1][1] = LAND;
    what[93][50] = LAND;
    add_sand_borders(&mut what);
    let sand = what.iter().flatten().filter(|c| **c == SAND).count();
    assert_eq!(sand, 0);
}

#[test]
fn beach_keeps_air_strip_and_land() {
    let mut what = [[WATER; GRID]; GRID];
    what[20][20] = LAND;
    what[19][19] = AIR_STRIP;
    what[21][21] = LAND;
    add_sand_borders(&mut what);
    assert_eq!(what[19][19], AIR_STRIP);
    assert_eq!(what[21][21], LAND);
    assert_eq!(what[18][18], SAND);
    assert_eq!(what[22][22], SAND);
    assert_eq!(what[23][23], WATER);
}

#[test]
fn tiles_wrap_around_the_world() {
    let tiles: Vec<Vec<(usize, usize)>> =
        (0..LAND_Z).map(|z| (0..LAND_X).map(|x| (z, x)).collect()).collect();
    assert_eq!(*get_landscape(2, 3, &tiles), (2, 3));
    assert_eq!(*get_landscape(4, 4, &tiles), (0, 0));
    assert_eq!(*get_landscape(5, -1, &tiles), (3, 3));
    assert_eq!(*get_landscape(8, -4, &tiles), (0, 0));
    assert_eq!(*get_landscape(-2, 6, &tiles), (2, 2));
}

#[test]
fn title_mask_reads_alpha_below_the_top_rows() {
    let width = 2u32;
    let height = 13u32;
    let pitch = 8u32;
    let mut pixels = vec![0u8; (pitch * height) as usize];
    pixels[(11 * pitch + 4 + 3) as usize] = 200;
    pixels[(12 * pitch + 3) as usize] = 1;
    pixels[(3 * pitch + 3) as usize] = 255; // above the cut: ignored
    pixels[(11 * pitch + 2) as usize] = 255; // a colour byte: ignored
    let mask = title_mask(&pixels, width, height, pitch);
    let mut expected = vec![0u8; 26];
    expected[1] = 1;
    expected[2] = 1;
    assert_eq!(mask, expected);
}

#[test]
fn title_mask_of_a_short_surface_is_empty() {
    let pixels = vec![255u8; 4 * 3 * 5];
    let mask = title_mask(&pixels, 3, 5, 12);
    assert_eq!(mask, vec![0u8; 15]);
}

#[test]
fn paint_title_slants_rows_upwards() {
    let pitch = 16u32;
    let mut buffer = vec![0u8; 48];
    // width 1, height 3: cell (0, 0) lit, drawn in the second pass with slant 2
    let mask = vec![1u8, 0, 0];
    let c = Colour { r: 10, g: 20, b: 30 };
    paint_title(&mut buffer, pitch, &mask, 1, 3, c);
    let mut expected = vec![0u8; 48];
    for off in [8usize, 12, 24, 28] {
        expected[off..off + 4].copy_from_slice(&[255, 10, 20, 30]);
    }
    assert_eq!(buffer, expected);
}

#[test]
fn paint_title_first_pass_has_no_slant() {
    let pitch = 40u32;
    let mut buffer = vec![0u8; 400];
    // width 2, height 3: row 1 is painted first, with no slant
    let mask = vec![0u8, 0, 0, 1, 0, 0];
    let c = Colour { r: 1, g: 2, b: 3 };
    paint_title(&mut buffer, pitch, &mask, 2, 3, c);
    let mut expected = vec![0u8; 400];
    // cell (1, 1): texture rows 4 and 5, columns 4 and 5
    for (yy, xx) in [(4u32, 4u32), (4, 5), (5, 4), (5, 5)] {
        let off = (yy * pitch + xx * 4) as usize;
        expected[off..off + 4].copy_from_slice(&[255, 1, 2, 3]);
    }
    assert_eq!(buffer, expected);
}

#[test]
fn paint_title_ignores_the_last_row() {
    let mut buffer = vec![7u8; 64];
    let mask = vec![0u8, 1];
    paint_title(&mut buffer, 16, &mask, 1, 2, Colour { r: 0, g: 0, b: 0 });
    assert_eq!(buffer, vec![7u8; 64]);
}

#[test]
fn events_compare() {
    assert!(Event::Up == Event::Up);
    assert!(Event::OffSpace != Event::Space);
    assert!(Event::Idle != Event::Shift);
}
