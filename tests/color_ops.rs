use paint_compiler::cluster::dominant_color;
use paint_compiler::color::{blend_with_white, color_difference, is_within, Color, Rgba, Tolerance};
use paint_compiler::palette::{best_match, preset};
use paint_compiler::quantize::mean_of;

fn rgb(r: u8, g: u8, b: u8) -> Color {
    Color { r, g, b }
}

#[test]
fn distance_to_self_is_zero_and_symmetric() {
    let a = rgb(12, 200, 77);
    let b = rgb(250, 3, 80);
    assert_eq!(color_difference(a, a), 0);
    assert_eq!(color_difference(a, b), color_difference(b, a));
    assert_eq!(color_difference(a, b), 238 + 197 + 3);
    assert_eq!(color_difference(rgb(0, 0, 0), rgb(255, 255, 255)), 765);
}

#[test]
fn tolerance_is_inclusive() {
    let tol = Tolerance { max_diff: 25 };
    assert!(is_within(rgb(0, 0, 0), rgb(10, 10, 5), tol));
    assert!(!is_within(rgb(0, 0, 0), rgb(10, 10, 6), tol));
}

#[test]
fn blending_onto_white() {
    assert_eq!(blend_with_white(Rgba { r: 9, g: 8, b: 7, a: 255 }), Some(rgb(9, 8, 7)));
    assert_eq!(blend_with_white(Rgba { r: 9, g: 8, b: 7, a: 0 }), None);
    assert_eq!(blend_with_white(Rgba { r: 0, g: 0, b: 0, a: 128 }), Some(rgb(127, 127, 127)));
    // floor((200 * 51 + 255 * 204) / 255) = 244
    assert_eq!(blend_with_white(Rgba { r: 200, g: 255, b: 0, a: 51 }), Some(rgb(244, 255, 204)));
}

#[test]
fn best_match_scans_presets_then_customs() {
    assert_eq!(best_match(rgb(0, 0, 0), &vec![]), (0, 0));
    assert_eq!(best_match(rgb(0, 0, 255), &vec![]), (7, 185));
    let customs = vec![rgb(1, 2, 3), rgb(0, 0, 250)];
    assert_eq!(best_match(rgb(0, 0, 255), &customs), (21, 5));
    // A custom equal to a preset loses the tie to the preset.
    assert_eq!(best_match(rgb(255, 255, 255), &vec![rgb(255, 255, 255)]), (10, 0));
    assert_eq!(preset(19), rgb(200, 191, 231));
}

#[test]
fn dominant_colour_counts_clusters() {
    let tol = Tolerance { max_diff: 10 };
    let colors = vec![rgb(0, 0, 0), rgb(100, 0, 0), rgb(3, 3, 3), rgb(101, 1, 0), rgb(4, 4, 4)];
    assert_eq!(dominant_color(&colors, tol), Some(rgb(0, 0, 0)));
    assert_eq!(dominant_color(&vec![], tol), None);
    // On a tie the earlier cluster wins.
    let tie = vec![rgb(50, 50, 50), rgb(200, 0, 0), rgb(200, 0, 1), rgb(50, 50, 51)];
    assert_eq!(dominant_color(&tie, Tolerance { max_diff: 1 }), Some(rgb(50, 50, 50)));
}

#[test]
fn representatives_do_not_move() {
    // (16,0,0), (30,0,0) and (0,0,0) each found a cluster; (8,0,0) is as near
    // to (16,0,0) as to (0,0,0) and joins the earlier; (2,0,0) joins (0,0,0),
    // which still represents its cluster.
    let tol = Tolerance { max_diff: 10 };
    let colors = vec![rgb(16, 0, 0), rgb(30, 0, 0), rgb(0, 0, 0), rgb(8, 0, 0), rgb(16, 0, 0), rgb(2, 0, 0)];
    assert_eq!(dominant_color(&colors, tol), Some(rgb(16, 0, 0)));
}

#[test]
fn mean_rounds_toward_zero() {
    let cs = vec![rgb(1, 10, 255), rgb(2, 11, 254)];
    assert_eq!(mean_of(&cs), rgb(1, 10, 254));
}
