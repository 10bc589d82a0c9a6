//! Eye pairs against the same geometry on floats.

use autofocus::eyes::{radial_eye_pairs, RadialMap};
use autofocus::rank::rank;

fn map_from(w: u32, h: u32, v: &[f32]) -> RadialMap {
    let top = v.iter().fold(0.0f32, |a, &b| a.max(b));
    RadialMap {
        w,
        h,
        level: v.iter().map(|x| rank(x.to_bits()).unwrap()).collect(),
        partner: v.iter().map(|x| rank((x * 0.45).to_bits()).unwrap()).collect(),
        relative_floor: rank((0.30 * top).to_bits()).unwrap(),
    }
}

fn map_of(w: u32, h: u32, dots: &[(u32, u32, f32)]) -> RadialMap {
    let mut v = vec![0.0f32; (w * h) as usize];
    for &(x, y, s) in dots {
        v[(y * w + x) as usize] = s;
    }
    map_from(w, h, &v)
}

/// Twice the midpoint, the spacing and the members of each pair.
fn plain(rad: &[f32], w: usize, h: usize) -> Vec<(usize, usize, f32, (usize, usize), (usize, usize))> {
    let top = rad.iter().fold(0.0f32, |a, &v| a.max(v));
    let floor = (0.30 * top).max(0.12);
    let mut peaks: Vec<(usize, usize, f32)> = Vec::new();
    for y in 2..h.saturating_sub(2) {
        for x in 2..w.saturating_sub(2) {
            let i = y * w + x;
            let v = rad[i];
            if v >= floor && v >= rad[i - 1] && v > rad[i + 1] && v >= rad[i - w] && v > rad[i + w] {
                peaks.push((x, y, v));
            }
        }
    }
    peaks.sort_by(|a, b| b.2.partial_cmp(&a.2).unwrap());
    let mut kept: Vec<(usize, usize, f32)> = Vec::new();
    for &(x, y, v) in &peaks {
        if kept.len() >= 40 {
            break;
        }
        let apart = kept.iter().all(|&(kx, ky, _)| {
            let (dx, dy) = (kx as i32 - x as i32, ky as i32 - y as i32);
            dx * dx + dy * dy >= 9
        });
        if apart {
            kept.push((x, y, v));
        }
    }
    let span = (w.max(h) as f32) * 0.15;
    let mut pairs = Vec::new();
    for i in 0..kept.len() {
        for j in (i + 1)..kept.len() {
            let (xi, yi, vi) = kept[i];
            let (xj, yj, vj) = kept[j];
            let dx = (xi as f32 - xj as f32).abs();
            let dy = (yi as f32 - yj as f32).abs();
            if vj < vi * 0.45 || dx < 3.0 || dx > span || dy > dx * 0.35 {
                continue;
            }
            let stacked = kept.iter().any(|&(xk, yk, vk)| {
                let over = |x: usize, y: usize| {
                    let gx = (xk as f32 - x as f32).abs();
                    let gy = (yk as f32 - y as f32).abs();
                    gx <= (dx * 0.35).max(2.0) && gy >= 3.0 && gy <= span
                };
                vk >= vi * 0.45 && (over(xi, yi) || over(xj, yj))
            });
            if !stacked {
                pairs.push((xi + xj, yi + yj, dx, (xi, yi), (xj, yj)));
            }
        }
    }
    pairs
}

#[test]
fn two_level_dots_make_a_pair() {
    let map = map_of(100, 60, &[(40, 20, 1.0), (50, 20, 0.9)]);
    assert_eq!(radial_eye_pairs(&map), 1);
    let pair = map.eye_pairs()[0];
    assert_eq!((pair.mid_x2, pair.mid_y2, pair.spacing), (90, 40, 10));
    assert_eq!((pair.m1, pair.m2), ((40, 20), (50, 20)));
}

#[test]
fn a_weak_or_tilted_partner_makes_none() {
    assert_eq!(radial_eye_pairs(&map_of(100, 60, &[(40, 20, 1.0), (50, 20, 0.44)])), 0);
    assert_eq!(radial_eye_pairs(&map_of(100, 60, &[(40, 20, 1.0), (50, 24, 0.9)])), 0);
    assert_eq!(radial_eye_pairs(&map_of(100, 60, &[(40, 20, 1.0), (50, 23, 0.9)])), 1);
    assert_eq!(radial_eye_pairs(&map_of(100, 60, &[(40, 20, 1.0), (55, 20, 0.9)])), 1);
    assert_eq!(radial_eye_pairs(&map_of(100, 60, &[(40, 20, 1.0), (56, 20, 0.9)])), 0);
}

#[test]
fn a_lattice_makes_none() {
    let lattice = [(40, 20, 1.0), (50, 20, 0.9), (40, 28, 0.95), (50, 28, 0.9)];
    assert_eq!(radial_eye_pairs(&map_of(100, 60, &lattice)), 0);
}

#[test]
fn small_maps_have_no_pairs() {
    assert_eq!(radial_eye_pairs(&map_of(4, 4, &[(1, 1, 1.0)])), 0);
    assert_eq!(radial_eye_pairs(&map_of(0, 0, &[])), 0);
}

#[test]
fn pairs_agree_with_the_float_geometry() {
    let mut state: u64 = 4;
    let mut next = || {
        state = state.wrapping_mul(6364136223846793005).wrapping_add(1442695040888963407);
        (state >> 40) as f32 / (1u64 << 24) as f32
    };
    let mut found = 0;
    for round in 0..40 {
        let (w, h) = (30 + 7 * (round % 9), 25 + 5 * (round % 7));
        let mut v = vec![0.0f32; w * h];
        for _ in 0..(6 + round % 30) {
            let (x, y) = ((next() * w as f32) as usize, (next() * h as f32) as usize);
            v[y * w + x] = ((next() * 20.0) as u32) as f32 / 20.0;
        }
        let expected = plain(&v, w, h);
        let got: Vec<(usize, usize, f32, (usize, usize), (usize, usize))> = map_from(w as u32, h as u32, &v)
            .eye_pairs()
            .iter()
            .map(|p| {
                (
                    p.mid_x2 as usize,
                    p.mid_y2 as usize,
                    p.spacing as f32,
                    (p.m1.0 as usize, p.m1.1 as usize),
                    (p.m2.0 as usize, p.m2.1 as usize),
                )
            })
            .collect();
        found += expected.len();
        assert_eq!(got, expected);
    }
    assert!(found > 10);
}

#[test]
fn pairs_list_the_stronger_member_first() {
    let map = map_of(60, 60, &[(20, 30, 0.6), (26, 31, 1.0), (50, 10, 0.9)]);
    let pairs = map.eye_pairs();
    assert_eq!(pairs.len(), 1);
    let p = &pairs[0];
    assert_eq!((p.m1, p.m2), ((26, 31), (20, 30)));
    assert_eq!((p.mid_x2, p.mid_y2, p.spacing), (46, 61, 6));
}

#[test]
fn a_pair_is_level_to_a_third_of_its_spacing() {
    assert_eq!(radial_eye_pairs(&map_of(100, 100, &[(20, 20, 1.0), (25, 22, 1.0)])), 0);
    assert_eq!(radial_eye_pairs(&map_of(100, 100, &[(20, 20, 1.0), (25, 21, 1.0)])), 1);
    assert_eq!(radial_eye_pairs(&map_of(100, 100, &[(20, 20, 1.0), (26, 22, 1.0)])), 1);
}
