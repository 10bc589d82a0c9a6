//! Refinement, counts, peaks, spectrum and the skin model.

use autofocus::blocks::BlockMeta;
use autofocus::grid::Frame;
use autofocus::peaks::{
    damping, neighbours, radial_peaks, saliency_peak, saliency_top_peaks, LevelMap,
};
use autofocus::rank::rank;
use autofocus::refine::{may_fall_far, EyeRegion, RefineField};
use autofocus::signals::{
    above, block_meta, block_radial_peak, contenders, counted, eye_tally, face_tally, mirrors_well,
    wants_symmetry,
};
use autofocus::skin::{
    ballot, can_learn, chroma, in_linear_part, is_scored, joins_first, keeps_lesson, teaches, votes,
    Lesson, SkinCenters,
};
use autofocus::spectrum::{butterflies, reversed, swaps};

fn r(v: f32) -> i32 {
    rank(v.to_bits()).unwrap()
}

struct Dice(u64);

impl Dice {
    fn next(&mut self) -> f32 {
        self.0 = self.0.wrapping_mul(6364136223846793005).wrapping_add(1442695040888963407);
        (self.0 >> 40) as f32 / (1u64 << 24) as f32
    }
}

#[test]
fn refinement_agrees_with_the_float_rules() {
    let mut dice = Dice(77);
    let mut open = 0;
    for round in 0..60u32 {
        let frame = Frame::new(90 + 11 * (round % 6), 80 + 9 * (round % 5));
        let (w, h, block) = (frame.w as usize, frame.h as usize, frame.block as usize);
        let (px, py) = (dice.next() * w as f32, dice.next() * h as f32);
        let mut plain = Vec::new();
        let mut blocks = Vec::new();
        for b in frame.blocks() {
            let eye = if dice.next() < 0.2 { dice.next() * 0.4 } else { 0.0 };
            let skin = dice.next() * 0.5;
            let cx = b.x as f32 + b.w as f32 / 2.0;
            let cy = b.y as f32 + b.h as f32 / 2.0;
            plain.push((cx, cy, b.w as f32, b.h as f32, eye, skin));
            blocks.push(BlockMeta {
                rect: b,
                eye_band: r(eye),
                skin_density: r(skin),
                face_boost: 0,
                radial: 0,
                bg_suppressed: false,
            });
        }
        let dist = |i: usize| ((plain[i].0 - px).powi(2) + (plain[i].1 - py).powi(2)).sqrt();
        let field = RefineField {
            frame,
            blocks,
            distance: (0..plain.len()).map(|i| r(dist(i))).collect(),
            reach: r(block as f32 * 7.0),
        };
        let pool: Vec<usize> = (0..plain.len())
            .filter(|&i| plain[i].4 >= 0.12 && plain[i].5 >= 0.12 && dist(i) <= block as f32 * 7.0)
            .collect();
        assert_eq!(field.near_eyes(), pool);
        let avg = pool.iter().map(|&i| plain[i].5).sum::<f32>() / pool.len().max(1) as f32;
        let peak = pool.iter().map(|&i| plain[i].4).fold(0.0f32, f32::max);
        let region = field.eye_region(&pool, r(avg));
        if pool.len() < 3 || peak < 0.16 || avg < 0.22 {
            assert!(region.is_none());
            continue;
        }
        open += 1;
        let region = region.unwrap();
        let left = pool.iter().map(|&i| (plain[i].0 - plain[i].2 / 2.0) as usize).min().unwrap();
        let top = pool.iter().map(|&i| (plain[i].1 - plain[i].3 / 2.0) as usize).min().unwrap();
        let right = pool.iter().map(|&i| (plain[i].0 + plain[i].2 / 2.0) as usize).max().unwrap();
        let bottom = pool.iter().map(|&i| (plain[i].1 + plain[i].3 / 2.0) as usize).max().unwrap();
        assert_eq!(region.x0 as usize, left.saturating_sub(block).min(w));
        assert_eq!(region.y0 as usize, top.saturating_sub(block / 2).min(h));
        assert_eq!(region.x1 as usize, (right + block).min(w));
        assert_eq!(region.y1 as usize, (bottom + block).min(h));
    }
    assert!(open > 10);
}

#[test]
fn the_best_spot_is_the_first_of_the_best() {
    let region = EyeRegion { x0: 10, y0: 20, x1: 13, y1: 22 };
    let scores: Vec<i32> = [0.1f32, 0.3, 0.2, 0.3, 0.0, 0.1].iter().map(|&s| r(s)).collect();
    assert_eq!(region.best_spot(&scores), Some((11, 20)));
    let scores: Vec<i32> = [0.1f32, 0.21, 0.2, 0.0, 0.0, 0.22].iter().map(|&s| r(s)).collect();
    assert_eq!(region.best_spot(&scores), Some((12, 21)));
    let scores: Vec<i32> = [0.1f32, 0.21, 0.2, 0.0, 0.0, 0.219].iter().map(|&s| r(s)).collect();
    assert_eq!(region.best_spot(&scores), None);
    assert!(may_fall_far(r(0.30)));
    assert!(!may_fall_far(r(0.29)));
}

#[test]
fn tallies_and_their_limits() {
    let skin: Vec<i32> = [0.05f32, 0.06, 0.0, 0.9].iter().map(|&v| r(v)).collect();
    let lum: Vec<i32> = [0.41f32, 0.42, 0.79, 0.81].iter().map(|&v| r(v)).collect();
    let places = vec![0, 1, 2, 3];
    let t = eye_tally(&places, &skin, &lum);
    assert_eq!((t.pixels, t.skin, t.dark, t.bright), (4, 2, 1, 2));
    let t = face_tally(&places, &lum);
    assert_eq!((t.pixels, t.skin, t.dark, t.bright), (4, 0, 1, 1));
    assert_eq!(above(&places, &skin, r(0.05)), vec![1, 3]);
    assert_eq!(block_radial_peak(&vec![0, 2], &lum), r(0.79));
    assert_eq!(block_radial_peak(&vec![], &lum), 0);
}

#[test]
fn ratios_agree_with_floats() {
    for pixels in [64usize, 100, 81, 196] {
        for count in 0..=pixels {
            for dark in [0usize, pixels / 10, pixels / 7, pixels * 3 / 20, pixels / 2] {
                let t = autofocus::signals::EyeTally { pixels, skin: count, dark, bright: count };
                let part = count as f32 / pixels as f32;
                let gloom = dark as f32 / pixels as f32;
                assert_eq!(t.has_eye_band(r(0.55), r(0.05), false), part >= 0.08);
                assert!(t.has_eye_band(r(0.55), r(0.05), true));
                assert!(!t.has_eye_band(r(0.549), r(0.05), true));
                assert!(!t.has_eye_band(r(0.55), r(0.049), true));
                assert_eq!(t.eye_glare(), part > 0.30 && gloom < 0.14);
                assert_eq!(t.face_glare(), part > 0.28 && gloom < 0.15);
            }
        }
    }
}

#[test]
fn signals_of_background_do_not_count() {
    let rect = autofocus::grid::Block { x: 0, y: 0, w: 8, h: 8 };
    let all = |bg: bool, geom: bool| {
        let b = block_meta(rect, bg, geom, r(0.4), r(0.3), r(0.5), r(0.7));
        (b.skin_density, b.eye_band, b.face_boost, b.radial, b.bg_suppressed)
    };
    assert_eq!(all(false, false), (r(0.4), r(0.3), r(0.5), r(0.7), false));
    assert_eq!(all(false, true), (r(0.4), 0, 0, r(0.7), false));
    assert_eq!(all(true, false), (0, 0, 0, 0, true));
    assert!(counted(false, false).face && !counted(false, true).face && !counted(true, true).colour);
    assert!(wants_symmetry(true, 0));
    assert!(wants_symmetry(false, r(0.11)));
    assert!(!wants_symmetry(false, r(0.1)));
    assert!(mirrors_well(r(0.66)) && !mirrors_well(r(0.65)));
}

#[test]
fn only_scores_near_the_best_contend() {
    assert_eq!(contenders(&vec![r(-3.0), r(-2.5), r(0.0), r(-2.51)]), vec![1, 2]);
}

fn level_map(w: usize, h: usize, v: &[f32]) -> LevelMap {
    LevelMap { w: w as u32, h: h as u32, level: v.iter().map(|&x| r(x)).collect() }
}

#[test]
fn saliency_peaks_agree_with_a_plain_search() {
    let mut dice = Dice(3);
    for round in 0..20 {
        let coarse = if round % 2 == 0 { 1000.0 } else { 6.0 };
        let v: Vec<f32> = (0..64 * 64).map(|_| ((dice.next() * coarse) as u32) as f32 / coarse).collect();
        let map = level_map(64, 64, &v);
        let mut best = 6 * 64 + 6;
        let mut maxima: Vec<(usize, usize, f32)> = Vec::new();
        for y in 6..58usize {
            for x in 6..58usize {
                let here = v[y * 64 + x];
                if here > v[best] {
                    best = y * 64 + x;
                }
                let top = (0..3).all(|dy| (0..3).all(|dx| v[(y + dy - 1) * 64 + x + dx - 1] <= here));
                if top {
                    maxima.push((x, y, here));
                }
            }
        }
        assert_eq!(saliency_peak(&map), ((best % 64) as u32, (best / 64) as u32));
        maxima.sort_by(|a, b| b.2.partial_cmp(&a.2).unwrap());
        let mut kept: Vec<(usize, usize)> = Vec::new();
        for &(x, y, _) in &maxima {
            if kept.len() >= 3 {
                break;
            }
            let apart = kept.iter().all(|&(a, b)| {
                let (dx, dy) = (a as i32 - x as i32, b as i32 - y as i32);
                dx * dx + dy * dy >= 100
            });
            if apart {
                kept.push((x, y));
            }
        }
        let got: Vec<(usize, usize)> =
            saliency_top_peaks(&map, 3).iter().map(|&i| (i % 64, i / 64)).collect();
        assert_eq!(got, kept);
    }
}

#[test]
fn radial_peaks_agree_with_a_plain_search() {
    let mut dice = Dice(17);
    for (w, h) in [(40usize, 30usize), (5, 5), (4, 9), (64, 20)] {
        let v: Vec<f32> = (0..w * h).map(|_| ((dice.next() * 9.0) as u32) as f32 / 9.0).collect();
        let mut peaks: Vec<(usize, f32)> = Vec::new();
        for y in 2..h - 2 {
            for x in 2..w - 2 {
                let here = v[y * w + x];
                let top = (0..5).all(|dy| (0..5).all(|dx| v[(y + dy - 2) * w + x + dx - 2] <= here));
                if here >= 0.15 && top {
                    peaks.push((y * w + x, here));
                }
            }
        }
        peaks.sort_by(|a, b| b.1.partial_cmp(&a.1).unwrap());
        peaks.truncate(6);
        let expected: Vec<usize> = peaks.iter().map(|p| p.0).collect();
        assert_eq!(radial_peaks(&level_map(w, h, &v), 6), expected);
    }
}

#[test]
fn cells_near_the_border_are_damped() {
    for y in 0..64u32 {
        for x in 0..64u32 {
            let d = x.min(y).min(63 - x).min(63 - y);
            assert_eq!(damping(x, y), if d < 3 { Some(d) } else { None });
            let mut expected = Vec::new();
            for ny in y as i32 - 1..=y as i32 + 1 {
                for nx in x as i32 - 1..=x as i32 + 1 {
                    if nx >= 0 && ny >= 0 && nx < 64 && ny < 64 {
                        expected.push(ny as usize * 64 + nx as usize);
                    }
                }
            }
            assert_eq!(neighbours(x, y), expected);
        }
    }
}

#[test]
fn rows_are_reordered_by_reversed_numbers() {
    let mut expected = Vec::new();
    let mut j = 0usize;
    for i in 1..64usize {
        let mut bit = 32;
        while j & bit != 0 {
            j ^= bit;
            bit >>= 1;
        }
        j ^= bit;
        assert_eq!(reversed(i as u32) as usize, j);
        if i < j {
            expected.push((i as u32, j as u32));
        }
    }
    assert_eq!(swaps(), expected);
    for i in 0..64 {
        assert_eq!(reversed(reversed(i)), i);
    }
}

#[test]
fn butterflies_use_every_entry_once() {
    for len in [2u32, 4, 8, 16, 32, 64] {
        let mut expected = Vec::new();
        let mut i = 0;
        while i < 64 {
            for k in 0..len / 2 {
                expected.push((i + k, i + k + len / 2));
            }
            i += len;
        }
        let got = butterflies(len);
        assert_eq!(got, expected);
        let mut seen = vec![0; 64];
        for (a, b) in got {
            seen[a as usize] += 1;
            seen[b as usize] += 1;
        }
        assert!(seen.iter().all(|&n| n == 1));
    }
}

#[test]
fn channels_and_their_limits() {
    for c in 0..=255u8 {
        assert_eq!(in_linear_part(c), c as f32 / 255.0 <= 0.04045);
    }
    for (a, b, c) in [(0u8, 0u8, 0u8), (10, 9, 8), (200, 180, 180), (255, 0, 3), (5, 5, 5), (20, 19, 18)] {
        let (spread, max) = chroma(a, b, c);
        assert_eq!(max, a.max(b).max(c));
        assert_eq!(spread, max - a.min(b).min(c));
        let sum = a as f32 + b as f32 + c as f32;
        let coloured = max > 0 && spread as f32 / max as f32 >= 0.10;
        assert_eq!(is_scored(a, b, c, r(0.04)), sum >= 15.0 && coloured);
        assert!(!is_scored(a, b, c, r(0.0399)));
        assert_eq!(teaches(a, b, c, r(0.04), r(9.0), r(2.24)), sum >= 30.0);
        assert!(!teaches(a, b, c, r(0.04), r(2.25), r(2.25)));
        assert!(!teaches(a, b, c, r(0.03), r(0.0), r(0.0)));
    }
}

#[test]
fn the_skin_model_learns_carefully() {
    for n in [0usize, 100, 19_999, 20_000, 20_100, 50_000] {
        let need = 200_usize.max(n / 100);
        assert!(can_learn(need, n));
        assert!(!can_learn(need - 1, n));
    }
    assert!(joins_first(r(0.1), r(0.2)) && !joins_first(r(0.2), r(0.2)));
    assert!(keeps_lesson(r(0.1), r(0.2)) && !keeps_lesson(r(0.2), r(0.2)));
    let wild = SkinCenters { c1_rn: r(0.9), c1_gn: r(0.1), c2_rn: r(0.41), c2_gn: r(0.31) };
    let tame = wild.tamed();
    assert_eq!((tame.c1_rn, tame.c1_gn, tame.c2_rn, tame.c2_gn), (r(0.40), r(0.29), r(0.41), r(0.30)));
}

#[test]
fn votes_fall_inside_the_frame() {
    assert!(votes(r(0.06)) && !votes(r(0.059)));
    assert_eq!(ballot(3, 2, 10, 5), Some(23));
    assert_eq!(ballot(-1, 2, 10, 5), None);
    assert_eq!(ballot(3, -1, 10, 5), None);
    assert_eq!(ballot(10, 2, 10, 5), None);
    assert_eq!(ballot(3, 5, 10, 5), None);
}

#[test]
fn top_peaks_are_ten_cells_apart() {
    let mut v = vec![0.0f32; 64 * 64];
    for (x, y, level) in [(20, 20, 0.9), (29, 20, 0.8), (30, 20, 0.7), (40, 40, 0.95), (2, 2, 1.0)] {
        v[y * 64 + x] = level;
    }
    let map = level_map(64, 64, &v);
    let places = |n: usize| -> Vec<(u32, u32)> {
        saliency_top_peaks(&map, n).into_iter().map(|i| map.place(i)).collect()
    };
    assert_eq!(places(2), vec![(40, 40), (20, 20)]);
    let three = places(3);
    assert_eq!(three.len(), 3);
    let (dx, dy) = (three[2].0 as i32 - 20, three[2].1 as i32 - 20);
    assert!(dx * dx + dy * dy >= 100);
    assert!(places(0).is_empty());
}

#[test]
fn the_usual_tones_stand_in_for_a_poor_lesson() {
    let tones = |c: SkinCenters| [c.c1_rn, c.c1_gn, c.c2_rn, c.c2_gn];
    let usual = [r(0.37), r(0.32), r(0.41), r(0.27)];
    assert_eq!(tones(SkinCenters::usual()), usual);
    assert_eq!(tones(SkinCenters::adopted(&None)), usual);
    let centers =
        SkinCenters { c1_rn: r(0.5), c1_gn: r(0.31), c2_rn: r(0.1), c2_gn: r(0.25) };
    let poor = Lesson { centers, scatter: r(0.02), bound: r(0.02) };
    assert_eq!(tones(SkinCenters::adopted(&Some(poor))), usual);
    let good = Lesson { centers, scatter: r(0.01), bound: r(0.02) };
    let tamed = [r(0.40), r(0.31), r(0.38), r(0.25)];
    assert_eq!(tones(SkinCenters::adopted(&Some(good))), tamed);
}
