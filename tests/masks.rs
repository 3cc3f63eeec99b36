use outline_particles::outline::{build_edge_mask, build_inside_mask, dilate, edge8};
use outline_particles::seed::edge_mask_from_rgba;

fn rgba_from_alpha(alpha: &[u8]) -> Vec<u8> {
    let mut v = Vec::new();
    for &a in alpha {
        v.extend_from_slice(&[10, 20, 30, a]);
    }
    v
}

#[test]
fn inside_mask_uses_strict_threshold() {
    let rgba = rgba_from_alpha(&[0, 10, 11, 255]);
    assert_eq!(build_inside_mask(2, 2, &rgba, 10), vec![0, 0, 1, 1]);
    assert_eq!(build_inside_mask(4, 1, &rgba, 0), vec![0, 1, 1, 1]);
    assert_eq!(build_inside_mask(2, 2, &rgba, 255), vec![0, 0, 0, 0]);
}

#[test]
fn inside_mask_ignores_trailing_bytes() {
    let mut rgba = rgba_from_alpha(&[200, 0]);
    rgba.extend_from_slice(&[1, 2, 3]);
    assert_eq!(build_inside_mask(2, 1, &rgba, 100), vec![1, 0]);
}

#[test]
fn dilate_non_positive_radius_is_identity() {
    let m = vec![0, 2, 0, 1];
    assert_eq!(dilate(2, 2, &m, 0), m);
    assert_eq!(dilate(2, 2, &m, -3), m);
}

#[test]
fn dilate_paints_square() {
    let mut m = vec![0u8; 25];
    m[2 * 5 + 2] = 1;
    let d = dilate(5, 5, &m, 1);
    for y in 0..5 {
        for x in 0..5 {
            let expect = if (1..=3).contains(&x) && (1..=3).contains(&y) { 1 } else { 0 };
            assert_eq!(d[y * 5 + x], expect, "cell {} {}", x, y);
        }
    }
    assert_eq!(dilate(5, 5, &m, 2), vec![1u8; 25]);
}

#[test]
fn dilate_clips_at_canvas_border() {
    let mut m = vec![0u8; 12];
    m[0] = 7;
    let d = dilate(4, 3, &m, 1);
    assert_eq!(d, vec![1, 1, 0, 0, 1, 1, 0, 0, 0, 0, 0, 0]);
}

#[test]
fn dilate_is_monotone_in_radius() {
    let mut m = vec![0u8; 49];
    m[3 * 7 + 1] = 1;
    m[5 * 7 + 6] = 1;
    let mut prev = dilate(7, 7, &m, 1);
    for r in 2..5 {
        let next = dilate(7, 7, &m, r);
        for i in 0..49 {
            assert!(prev[i] == 0 || next[i] == 1);
        }
        prev = next;
    }
}

#[test]
fn edge8_marks_interior_boundary_only() {
    let mut inside = vec![0u8; 25];
    for y in 1..4 {
        for x in 1..4 {
            inside[y * 5 + x] = 1;
        }
    }
    let e = edge8(5, 5, &inside);
    for y in 0..5 {
        for x in 0..5 {
            let ring = (1..=3).contains(&x) && (1..=3).contains(&y) && !(x == 2 && y == 2);
            assert_eq!(e[y * 5 + x], if ring { 1 } else { 0 }, "cell {} {}", x, y);
        }
    }
}

#[test]
fn edge8_never_marks_outer_rows() {
    let mut inside = vec![1u8; 16];
    inside[5] = 0;
    let e = edge8(4, 4, &inside);
    assert_eq!(e, vec![0, 0, 0, 0, 0, 0, 1, 0, 0, 1, 1, 0, 0, 0, 0, 0]);
    assert_eq!(edge8(4, 4, &vec![1u8; 16]), vec![0u8; 16]);
}

#[test]
fn empty_inside_gives_empty_edge_mask() {
    assert_eq!(build_edge_mask(6, 4, &vec![0u8; 24]), vec![0u8; 24]);
}

#[test]
fn edge_mask_is_union_of_rings() {
    // A single inside pixel is its own boundary: the inner ring is the 5x5
    // square around it, the outer shell the cells at distance 4 and 5.
    let w = 15;
    let h = 15;
    let mut inside = vec![0u8; w * h];
    inside[7 * w + 7] = 1;
    let e = build_edge_mask(w, h, &inside);
    for y in 0..h {
        for x in 0..w {
            let dx = (x as i32 - 7).abs();
            let dy = (y as i32 - 7).abs();
            let cheb = dx.max(dy);
            let expect = if cheb <= 2 || (cheb > 3 && cheb <= 5) { 1 } else { 0 };
            assert_eq!(e[y * w + x], expect, "cell {} {}", x, y);
        }
    }
}

#[test]
fn degenerate_canvas_has_no_edge_mask() {
    let rgba = rgba_from_alpha(&[255; 16]);
    assert!(edge_mask_from_rgba(0, 4, &rgba, 0).is_none());
    assert!(edge_mask_from_rgba(4, 0, &rgba, 0).is_none());
    assert!(edge_mask_from_rgba(5, 4, &rgba, 0).is_none());
    assert!(edge_mask_from_rgba(4, 4, &rgba[..63], 0).is_none());
    assert!(edge_mask_from_rgba(u32::MAX, u32::MAX, &rgba, 0).is_none());
    assert!(edge_mask_from_rgba(4, 4, &rgba, 0).is_some());
}

#[test]
fn transparent_image_has_empty_edge_mask() {
    let rgba = rgba_from_alpha(&[0; 16]);
    let edge = edge_mask_from_rgba(4, 4, &rgba, 10).unwrap();
    assert_eq!(edge, vec![0u8; 16]);
}

#[test]
fn edge_mask_from_rgba_matches_stages() {
    let mut alpha = vec![0u8; 100];
    for y in 2..8 {
        for x in 3..7 {
            alpha[y * 10 + x] = 200;
        }
    }
    let rgba = rgba_from_alpha(&alpha);
    let inside = build_inside_mask(10, 10, &rgba, 100);
    let edge = edge_mask_from_rgba(10, 10, &rgba, 100).unwrap();
    assert_eq!(edge, build_edge_mask(10, 10, &inside));
    assert!(edge.iter().any(|&v| v == 1));
}
