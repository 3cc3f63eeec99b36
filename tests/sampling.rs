use outline_particles::grid::SpatialGrid;
use outline_particles::outline::{build_edge_mask, build_inside_mask};
use outline_particles::project::edge_cells_in_window;
use outline_particles::rng::Lcg;
use outline_particles::seed::{
    canvas_ok, edge_mask_from_rgba, keeps_sample, normalized_step, plan_seeds, relax_snap_radius,
    seed_snap_radius, CANDIDATES, JITTER_DRAWS,
};

#[test]
fn lcg_follows_recurrence() {
    let mut rng = Lcg::new(0);
    assert_eq!(rng.next_u32(), 1013904223);
    assert_eq!(rng.next_u32(), 1196435762);
    assert_eq!(rng.next_u32(), 3519870697);
}

#[test]
fn lcg_sample_bits_are_middle_bits() {
    let mut rng = Lcg::new(0);
    assert_eq!(rng.next_sample_bits(), 3960563);
    assert_eq!(rng.next_sample_bits(), 4673577);
    assert_eq!(rng.next_sample_bits(), 13749494);
}

#[test]
fn lcg_same_seed_same_stream() {
    let mut a = Lcg::new(0xA3C5_1F2D);
    let mut b = Lcg::new(0xA3C5_1F2D);
    for _ in 0..100 {
        assert_eq!(a.next_u32(), b.next_u32());
    }
}

#[test]
fn step_and_radii() {
    assert_eq!(normalized_step(0), 1);
    assert_eq!(normalized_step(1), 1);
    assert_eq!(normalized_step(7), 7);
    assert_eq!(seed_snap_radius(1), 8);
    assert_eq!(seed_snap_radius(4), 8);
    assert_eq!(seed_snap_radius(5), 10);
    assert_eq!(relax_snap_radius(1), 11);
    assert_eq!(relax_snap_radius(2), 11);
    assert_eq!(relax_snap_radius(4), 17);
}

#[test]
fn canvas_check() {
    assert!(canvas_ok(2, 3, 24));
    assert!(canvas_ok(2, 3, 100));
    assert!(!canvas_ok(2, 3, 23));
    assert!(!canvas_ok(0, 3, 100));
    assert!(!canvas_ok(3, 0, 100));
    assert!(!canvas_ok(u32::MAX, u32::MAX, usize::MAX));
}

#[test]
fn keep_rule_is_inverse_square_of_step() {
    assert!(keeps_sample(0xFF_FFFF, 1));
    assert!(keeps_sample(1 << 22, 2));
    assert!(!keeps_sample((1 << 22) + 1, 2));
    assert!(keeps_sample(1864135, 3));
    assert!(!keeps_sample(1864136, 3));
    assert!(keeps_sample(0, 5000));
    assert!(!keeps_sample(1, 5000));
}

fn opaque_square(n: usize) -> Vec<u8> {
    let mut v = Vec::new();
    for _ in 0..n * n {
        v.extend_from_slice(&[255, 255, 255, 255]);
    }
    v
}

#[test]
fn plan_is_bounded_by_edge_cells() {
    let rgba = opaque_square(20);
    let edge = edge_mask_from_rgba(20, 20, &rgba, 0).unwrap();
    let marked = edge.iter().filter(|&&v| v != 0).count();
    for step in 1..6 {
        let mut rng = Lcg::new(0xA3C5_1F2D);
        let plan = plan_seeds(&edge, step, &mut rng);
        assert!(CANDIDATES * plan.cells.len() <= CANDIDATES * marked);
        assert_eq!(plan.jitter.len(), JITTER_DRAWS * plan.cells.len());
        assert!(plan.jitter.iter().all(|&b| b < 0x100_0000));
        for &c in &plan.cells {
            assert_eq!(edge[c], 1);
        }
        assert!(plan.cells.windows(2).all(|p| p[0] < p[1]));
    }
}

#[test]
fn plan_with_step_one_keeps_every_edge_cell() {
    let rgba = opaque_square(20);
    let edge = edge_mask_from_rgba(20, 20, &rgba, 0).unwrap();
    let marked: Vec<usize> = (0..400).filter(|&i| edge[i] != 0).collect();
    let mut rng = Lcg::new(12345);
    let plan = plan_seeds(&edge, 1, &mut rng);
    assert_eq!(plan.cells, marked);
}

#[test]
fn plan_draws_one_sample_per_marked_cell_and_eight_per_kept() {
    let edge = vec![0u8, 1, 0, 1, 1];
    let mut rng = Lcg::new(99);
    let plan = plan_seeds(&edge, 1, &mut rng);
    assert_eq!(plan.cells, vec![1, 3, 4]);
    let mut check = Lcg::new(99);
    let mut expect = Vec::new();
    for _ in 0..3 {
        check.next_sample_bits();
        for _ in 0..8 {
            expect.push(check.next_sample_bits());
        }
    }
    assert_eq!(plan.jitter, expect);
    assert_eq!(rng.next_u32(), check.next_u32());
}

#[test]
fn plan_is_deterministic() {
    let rgba = opaque_square(20);
    let edge = edge_mask_from_rgba(20, 20, &rgba, 0).unwrap();
    let mut a = Lcg::new(0xA3C5_1F2D);
    let mut b = Lcg::new(0xA3C5_1F2D);
    let pa = plan_seeds(&edge, 3, &mut a);
    let pb = plan_seeds(&edge, 3, &mut b);
    assert_eq!(pa.cells, pb.cells);
    assert_eq!(pa.jitter, pb.jitter);
    assert_eq!(a.next_u32(), b.next_u32());
}

#[test]
fn transparent_image_seeds_nothing() {
    let rgba = vec![0u8; 64];
    let edge = edge_mask_from_rgba(4, 4, &rgba, 10).unwrap();
    for step in 1..8 {
        let mut rng = Lcg::new(0xA3C5_1F2D);
        let plan = plan_seeds(&edge, step, &mut rng);
        assert!(plan.cells.is_empty());
        assert!(plan.jitter.is_empty());
    }
}

fn independent_edge_band(w: usize, h: usize, inside: &[u8]) -> Vec<u8> {
    let at = |x: i64, y: i64| -> bool {
        x >= 0 && y >= 0 && (x as usize) < w && (y as usize) < h && inside[y as usize * w + x as usize] != 0
    };
    let mut boundary = vec![false; w * h];
    for y in 1..h - 1 {
        for x in 1..w - 1 {
            if !at(x as i64, y as i64) {
                continue;
            }
            let mut clear = false;
            for dy in -1..=1i64 {
                for dx in -1..=1i64 {
                    if (dx, dy) != (0, 0) && !at(x as i64 + dx, y as i64 + dy) {
                        clear = true;
                    }
                }
            }
            boundary[y * w + x] = clear;
        }
    }
    let near = |src: &dyn Fn(i64, i64) -> bool, x: i64, y: i64, r: i64| -> bool {
        for sy in y - r..=y + r {
            for sx in x - r..=x + r {
                if sx >= 0 && sy >= 0 && (sx as usize) < w && (sy as usize) < h && src(sx, sy) {
                    return true;
                }
            }
        }
        false
    };
    let bnd = |x: i64, y: i64| boundary[y as usize * w + x as usize];
    let mut out = vec![0u8; w * h];
    for y in 0..h as i64 {
        for x in 0..w as i64 {
            let ring = near(&bnd, x, y, 2);
            let shell = near(&at, x, y, 5) && !near(&at, x, y, 3);
            out[y as usize * w + x as usize] = if ring || shell { 1 } else { 0 };
        }
    }
    out
}

#[test]
fn opaque_full_canvas_has_no_edge_band() {
    // A shape that fills the whole canvas has no interior pixel with a clear
    // neighbour and no room for the outer shell, so nothing is seeded.
    let rgba = opaque_square(20);
    let edge = edge_mask_from_rgba(20, 20, &rgba, 0).unwrap();
    let inside = build_inside_mask(20, 20, &rgba, 0);
    assert_eq!(edge, independent_edge_band(20, 20, &inside));
    assert_eq!(edge, vec![0u8; 400]);
    let mut rng = Lcg::new(0xA3C5_1F2D);
    assert!(plan_seeds(&edge, normalized_step(2), &mut rng).cells.is_empty());
}

#[test]
fn opaque_square_seeds_on_the_edge_band() {
    // a 20x20 opaque square centred on a 30x30 transparent canvas
    let n = 30;
    let mut rgba = vec![0u8; n * n * 4];
    for y in 5..25 {
        for x in 5..25 {
            rgba[(y * n + x) * 4 + 3] = 255;
        }
    }
    let edge = edge_mask_from_rgba(n as u32, n as u32, &rgba, 0).unwrap();
    let inside = build_inside_mask(n, n, &rgba, 0);
    assert_eq!(edge, independent_edge_band(n, n, &inside));
    assert_eq!(build_edge_mask(n, n, &inside), edge);

    let step = normalized_step(2);
    let mut rng = Lcg::new(0xA3C5_1F2D);
    let plan = plan_seeds(&edge, step, &mut rng);
    assert!(!plan.cells.is_empty());
    let radius = seed_snap_radius(step);
    let last = (n - 1) as f32 + 0.5;
    for (k, &cell) in plan.cells.iter().enumerate() {
        let (cx, cy) = (cell % n, cell / n);
        for c in 0..CANDIDATES {
            let jx = (plan.jitter[8 * k + 2 * c] as f32 / 16777216.0 - 0.5) * (step as f32 * 0.9);
            let jy = (plan.jitter[8 * k + 2 * c + 1] as f32 / 16777216.0 - 0.5) * (step as f32 * 0.9);
            let fx = (cx as f32 + 0.5 + jx).clamp(0.5, last);
            let fy = (cy as f32 + 0.5 + jy).clamp(0.5, last);
            let cands = edge_cells_in_window(n, n, &edge, fx.round() as i64, fy.round() as i64, radius);
            assert!(!cands.is_empty());
            for &(x, y) in &cands {
                assert_eq!(edge[y * n + x], 1);
            }
        }
    }
}

#[test]
fn window_lists_marked_cells_in_scan_order() {
    let mut edge = vec![0u8; 36];
    for &(x, y) in &[(0usize, 0usize), (3, 1), (1, 2), (5, 5), (2, 3), (4, 2)] {
        edge[y * 6 + x] = 1;
    }
    let c = edge_cells_in_window(6, 6, &edge, 2, 2, 1);
    assert_eq!(c, vec![(3, 1), (1, 2), (2, 3)]);
    let all = edge_cells_in_window(6, 6, &edge, 2, 2, 10);
    assert_eq!(all, vec![(0, 0), (3, 1), (1, 2), (4, 2), (2, 3), (5, 5)]);
    assert_eq!(edge_cells_in_window(6, 6, &edge, 2, 2, 0), c);
    assert_eq!(edge_cells_in_window(6, 6, &edge, 2, 2, -4), c);
    assert!(edge_cells_in_window(6, 6, &edge, 40, 40, 3).is_empty());
    assert_eq!(edge_cells_in_window(6, 6, &edge, -1, -1, 1), vec![(0, 0)]);
}

#[test]
fn grid_buckets_and_neighbours() {
    let mut g = SpatialGrid::new(3, 2);
    assert_eq!(g.col_count(), 3);
    assert_eq!(g.row_count(), 2);
    g.insert(0, 0, 0);
    g.insert(2, 1, 1);
    g.insert(1, 0, 2);
    g.insert(-5, 9, 3);
    g.insert(7, -2, 4);
    g.insert(0, 0, 5);
    assert_eq!(g.neighbors(0, 0), vec![0, 5, 2, 3]);
    assert_eq!(g.neighbors(1, 0), vec![0, 5, 2, 4, 3, 1]);
    assert_eq!(g.neighbors(2, 1), vec![2, 4, 1]);
    assert!(g.neighbors(10, 10).is_empty());
    g.clear();
    assert!(g.neighbors(1, 1).is_empty());
    g.insert(1, 1, 8);
    assert_eq!(g.neighbors(0, 0), vec![8]);
}
