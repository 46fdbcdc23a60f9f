use vic3_analyzer::draw::{apply_lines, border_lines, fill_sea, Coloring, Owners};

const A: [u8; 3] = [1, 1, 1];
const B: [u8; 3] = [2, 2, 2];
const C: [u8; 3] = [3, 3, 3];
const WHITE: [u8; 3] = [0xFF, 0xFF, 0xFF];
const GREY: [u8; 3] = [0x7F, 0x7F, 0x7F];
const BLACK: [u8; 3] = [0, 0, 0];

#[test]
fn borders_lie_where_colors_meet() {
    let mut owners = Owners::new();
    owners.mark_unowned(&B, 0);
    let pixels = vec![A, A, B, A, A, B];
    let lines = border_lines(&pixels, 3, &owners, 0);
    assert_eq!(lines, vec![WHITE, BLACK, BLACK, WHITE, BLACK, BLACK]);
}

#[test]
fn borders_between_sea_provinces_are_grey() {
    let mut owners = Owners::new();
    owners.mark_unowned(&B, 0);
    owners.mark_unowned(&C, 0);
    let pixels = vec![B, C];
    let lines = border_lines(&pixels, 2, &owners, 0);
    assert_eq!(lines, vec![GREY, GREY]);
    // another save knows nothing of these colors
    assert_eq!(border_lines(&pixels, 2, &owners, 1), vec![BLACK, BLACK]);
    let mut map = pixels.clone();
    apply_lines(&mut map, &lines, false);
    assert_eq!(map, vec![B, C]);
    apply_lines(&mut map, &lines, true);
    assert_eq!(map, vec![BLACK, BLACK]);
}

#[test]
fn a_one_pixel_wide_map_looks_up_and_down_only() {
    let owners = Owners::new();
    let lines = border_lines(&vec![A, A, B], 1, &owners, 0);
    assert_eq!(lines, vec![WHITE, BLACK, BLACK]);
}

#[test]
fn the_sea_takes_its_color() {
    let mut owners = Owners::new();
    owners.mark_unowned(&B, 0);
    owners.record(&A, Some((4, 5)), 0);
    let mut map = vec![A, B, C];
    fill_sea(&mut map, &owners, 0, [0, 0x22, 0x66]);
    assert_eq!(map, vec![A, [0, 0x22, 0x66], C]);
    assert!(owners.is_unowned(&B, 0));
    assert!(!owners.is_unowned(&A, 0));
    assert!(owners.owner_getter(Coloring::Nothing, &A, 0).is_err());
}
