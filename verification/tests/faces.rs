//! Clusters and face regions against the same rules on floats.

use autofocus::blocks::{block_has_pair_member, pupil_like, BlockMeta};
use autofocus::clusters::Links;
use autofocus::eyes::EyePair;
use autofocus::face_region::{FaceField, FaceRegion};
use autofocus::grid::{Block, Frame};
use autofocus::mass::MassField;
use autofocus::rank::rank;

fn r(v: f32) -> i32 {
    rank(v.to_bits()).unwrap()
}

#[derive(Clone, Copy)]
struct Plain {
    cx: f32,
    cy: f32,
    bw: f32,
    bh: f32,
    eye: f32,
    skin: f32,
    face: f32,
    radial: f32,
}

struct Dice(u64);

impl Dice {
    fn next(&mut self) -> f32 {
        self.0 = self.0.wrapping_mul(6364136223846793005).wrapping_add(1442695040888963407);
        (self.0 >> 40) as f32 / (1u64 << 24) as f32
    }
}

fn make(frame: &Frame, dice: &mut Dice, density: f32) -> (Vec<Plain>, Vec<BlockMeta>) {
    let mut plain = Vec::new();
    let mut meta = Vec::new();
    for b in frame.blocks() {
        let on = dice.next() < density;
        let p = Plain {
            cx: b.x as f32 + b.w as f32 / 2.0,
            cy: b.y as f32 + b.h as f32 / 2.0,
            bw: b.w as f32,
            bh: b.h as f32,
            eye: if on { dice.next() * 0.5 } else { 0.0 },
            skin: if on { dice.next() } else { 0.05 },
            face: if on { dice.next() } else { 0.0 },
            radial: dice.next(),
        };
        plain.push(p);
        meta.push(BlockMeta {
            rect: b,
            eye_band: r(p.eye),
            skin_density: r(p.skin),
            face_boost: r(p.face),
            radial: r(p.radial),
            bg_suppressed: false,
        });
    }
    (plain, meta)
}

fn pupil(p: &Plain) -> bool {
    p.radial >= 0.60 && p.skin >= 0.20 && p.face >= 0.45
}

fn signal(p: &Plain) -> f32 {
    p.eye * 0.60 + p.face * 0.30 + p.skin * 0.10
}

fn gap(a: &Plain, b: &Plain) -> f32 {
    ((a.cx - b.cx).powi(2) + (a.cy - b.cy).powi(2)).sqrt()
}

fn flood(pool: &[usize], blocks: &[Plain], reach: f32) -> Vec<Vec<usize>> {
    let mut clusters = Vec::new();
    let mut visited = vec![false; pool.len()];
    for i in 0..pool.len() {
        if visited[i] {
            continue;
        }
        visited[i] = true;
        let mut waiting = vec![i];
        let mut cluster = Vec::new();
        while let Some(k) = waiting.pop() {
            cluster.push(pool[k]);
            for j in 0..pool.len() {
                if !visited[j] && gap(&blocks[pool[j]], &blocks[pool[k]]) <= reach {
                    visited[j] = true;
                    waiting.push(j);
                }
            }
        }
        clusters.push(cluster);
    }
    clusters
}

fn field(frame: Frame, plain: &[Plain], blocks: Vec<BlockMeta>, pairs: Vec<EyePair>) -> FaceField {
    FaceField {
        frame,
        blocks,
        pairs,
        signal: plain.iter().map(|p| r(signal(p))).collect(),
        anchor_score: plain.iter().map(|p| r(p.eye * 0.72 + p.skin * 0.10)).collect(),
        cutoff: plain.iter().map(|p| r(signal(p).max(0.08) * 0.55)).collect(),
        eye_share: plain.iter().map(|p| r(p.eye * 0.45)).collect(),
    }
}

#[test]
fn clusters_come_in_search_order() {
    let near = vec![
        true, false, true, false,
        false, true, false, false,
        true, false, true, true,
        false, false, true, true,
    ];
    let links = Links::Table { n: 4, near };
    assert_eq!(links.grouped(), vec![vec![0, 2, 3], vec![1]]);
}

#[test]
fn face_regions_agree_with_the_float_rules() {
    let mut dice = Dice(12);
    let mut faces = 0;
    for round in 0..40u32 {
        let frame = Frame::new(120 + 13 * (round % 7), 90 + 17 * (round % 5));
        let (plain, blocks) = make(&frame, &mut dice, 0.35);
        let pairs = vec![EyePair { mid_x2: 0, mid_y2: 0, spacing: 5, m1: (40, 40), m2: (64, 41) }];
        let f = field(frame, &plain, blocks.clone(), pairs.clone());

        let pool: Vec<usize> = (0..plain.len())
            .filter(|&i| signal(&plain[i]) >= 0.08 && plain[i].skin >= 0.08)
            .collect();
        assert_eq!(f.face_candidates(), pool);
        let expected = flood(&pool, &plain, frame.block as f32 * 1.75);
        let clusters = f.face_clusters();
        assert_eq!(clusters, expected);

        let mut scores = Vec::new();
        for c in &clusters {
            let xs: Vec<f32> = c.iter().map(|&i| plain[i].cx).collect();
            let ys: Vec<f32> = c.iter().map(|&i| plain[i].cy).collect();
            let low = |v: &[f32]| v.iter().cloned().fold(f32::MAX, f32::min);
            let high = |v: &[f32]| v.iter().cloned().fold(f32::MIN, f32::max);
            let block = frame.block as f32;
            let span_x = (high(&xs) - low(&xs)).max(block);
            let span_y = (high(&ys) - low(&ys)).max(block);
            let p = f.cluster_profile(c);
            assert_eq!(p.span_x2 as f32, span_x * 2.0);
            assert_eq!(p.span_y2 as f32, span_y * 2.0);
            assert_eq!(p.strong_eyes, c.iter().filter(|&&i| plain[i].eye >= 0.14).count());
            let pupils = c.iter().filter(|&&i| pupil(&plain[i])).count();
            let member = |i: usize| {
                let b = &plain[i];
                [(40.0f32, 40.0f32), (64.0, 41.0)].iter().any(|&(x, y)| {
                    (x - b.cx).abs() <= b.bw * 0.5 && (y - b.cy).abs() <= b.bh * 0.5
                })
            };
            let paired = c.iter().filter(|&&i| pupil(&plain[i]) && member(i)).count();
            assert_eq!((p.paired_pupils, p.lone_pupils), (paired, pupils - paired));
            for &i in c {
                assert_eq!(block_has_pair_member(&blocks[i], &pairs), member(i));
                assert_eq!(pupil_like(&blocks[i]), pupil(&plain[i]));
            }
            let bar = span_x / span_y >= 3.5;
            assert_eq!(p.is_bar(r(0.62), r(0.9)), bar);
            assert_eq!(p.is_bar(r(0.1), r(0.40)), bar);
            assert!(!p.is_bar(r(0.1), r(0.41)));
            scores.push(c.iter().map(|&i| signal(&plain[i])).sum::<f32>());
        }
        let ranks: Vec<i32> = scores.iter().map(|&s| r(s)).collect();
        let face = f.infer_face(&clusters, &ranks);
        let best = scores
            .iter()
            .enumerate()
            .max_by(|a, b| a.1.partial_cmp(b.1).unwrap())
            .map(|(i, _)| i);
        let Some(best) = best else {
            assert!(face.anchor.is_none() && face.blocks.is_empty());
            continue;
        };
        faces += 1;
        let anchor = *clusters[best]
            .iter()
            .max_by(|&&a, &&b| {
                let of = |i: usize| plain[i].eye * 0.72 + plain[i].skin * 0.10;
                of(a).partial_cmp(&of(b)).unwrap()
            })
            .unwrap();
        assert_eq!(face.anchor, Some(anchor));
        let members: Vec<usize> = clusters[best]
            .iter()
            .cloned()
            .filter(|&i| {
                signal(&plain[i]) >= signal(&plain[anchor]).max(0.08) * 0.55
                    && gap(&plain[i], &plain[anchor]) <= frame.block as f32 * 6.0
            })
            .collect();
        assert_eq!(face.blocks, members);
        assert!(members.contains(&anchor));

        let eyed: Vec<usize> =
            members.iter().cloned().filter(|&i| plain[i].eye >= 0.10 || pupil(&plain[i])).collect();
        let anchors = if eyed.len() >= 3 { eyed } else { members.clone() };
        assert_eq!(f.anchor_blocks(&face), anchors);

        let top = members.iter().map(|&i| plain[i].cy - plain[i].bh / 2.0).fold(f32::MAX, f32::min);
        let bottom = members.iter().map(|&i| plain[i].cy + plain[i].bh / 2.0).fold(f32::MIN, f32::max);
        let left = members.iter().map(|&i| plain[i].cx - plain[i].bw / 2.0).fold(f32::MAX, f32::min);
        let right = members.iter().map(|&i| plain[i].cx + plain[i].bw / 2.0).fold(f32::MIN, f32::max);
        let ceiling = top + (bottom - top).max(frame.block as f32) * 0.52;
        let aimed: Vec<usize> = anchors
            .iter()
            .cloned()
            .filter(|&i| {
                (plain[i].cy <= ceiling || pupil(&plain[i]))
                    && (plain[i].eye >= (plain[anchor].eye * 0.45).max(0.12) || pupil(&plain[i]))
            })
            .collect();
        let eyes = if aimed.len() >= 2 { aimed } else { anchors };
        assert_eq!(f.eye_blocks(&face, (ceiling * 2.0).floor() as u64), eyes);

        let bounds = f.face_bounds(&face).unwrap();
        assert_eq!(
            (bounds.left as f32, bounds.top as f32, bounds.right as f32, bounds.bottom as f32),
            (left, top, right, bottom)
        );
        let pad = frame.block as f32 * 0.5;
        let x = (left - pad).max(0.0);
        let y = (top - pad).max(0.0);
        let w = (right - left + pad * 2.0).min(frame.w as f32 - x);
        let h = (bottom - top + pad * 2.0).min(frame.h as f32 - y);
        let rect = f.face_rect(&bounds);
        assert_eq!(
            (rect.x2 as f32, rect.y2 as f32, rect.w2 as f32, rect.h2 as f32),
            (x * 2.0, y * 2.0, w * 2.0, h * 2.0)
        );

        let region = f.region_of(&face);
        assert_eq!(region.pupil_count(), members.iter().filter(|&&i| pupil(&plain[i])).count());
        assert!(region.paired_pupil_count <= region.pupil_count());
        assert_eq!(region.anchor_eye(), r(plain[anchor].eye));
        assert_eq!(region.has_eye(), members.iter().any(|&i| plain[i].eye >= 0.10 || pupil(&plain[i])));
        let lowest = members
            .iter()
            .filter(|&&i| pupil(&plain[i]))
            .map(|&i| plain[i].cy + plain[i].bh * 0.5)
            .fold(0.0f32, f32::max);
        assert_eq!(region.pupil_bottom() as f32, lowest);
    }
    assert!(faces > 30);
}

#[test]
fn lone_pupils_count_for_more_in_company() {
    let frame = Frame { w: 40, h: 8, block: 8 };
    let pupil_block = |x: u32| BlockMeta {
        rect: Block { x, y: 0, w: 8, h: 8 },
        eye_band: r(0.2),
        skin_density: r(0.5),
        face_boost: r(0.5),
        radial: r(0.9),
        bg_suppressed: false,
    };
    let blocks = vec![pupil_block(0), pupil_block(8)];
    let ones = vec![r(0.5); 2];
    let f = FaceField {
        frame,
        blocks,
        pairs: vec![],
        signal: ones.clone(),
        anchor_score: ones.clone(),
        cutoff: ones.clone(),
        eye_share: ones,
    };
    assert_eq!(f.cluster_profile(&vec![0, 1]).lone_bonus(), r(0.45));
    assert_eq!(f.cluster_profile(&vec![0]).lone_bonus(), r(0.15));
}

#[test]
fn a_field_without_faces_has_no_anchor() {
    let frame = Frame::new(64, 64);
    let f = FaceField {
        frame,
        blocks: vec![],
        pairs: vec![],
        signal: vec![],
        anchor_score: vec![],
        cutoff: vec![],
        eye_share: vec![],
    };
    assert!(f.face_clusters().is_empty());
    let face = f.infer_face(&vec![], &vec![]);
    assert_eq!(face.anchor, None);
    assert!(f.face_bounds(&face).is_none());
    assert!(f.eye_blocks(&face, 0).is_empty());
    let region: FaceRegion = f.region_of(&face);
    assert_eq!((region.pupil_count(), region.anchor_eye(), region.pupil_bottom()), (0, 0, 0));
    assert!(!region.has_eye());
}

#[test]
fn masses_agree_with_the_float_rules() {
    let mut dice = Dice(5);
    let mut picked = 0;
    for round in 0..30u32 {
        let frame = Frame::new(110 + 9 * (round % 5), 100 + 11 * (round % 6));
        let (plain, blocks) = make(&frame, &mut dice, 0.4);
        let strength = |p: &Plain| {
            (p.skin - 0.08).max(0.0) * 1.4 + p.eye.max(0.0) * 0.9 + p.face.max(0.0) * 0.45
        };
        let f = MassField { frame, blocks, signal: plain.iter().map(|p| r(strength(p))).collect() };
        let pool: Vec<usize> = (0..plain.len())
            .filter(|&i| {
                let p = &plain[i];
                strength(p) >= 0.18 || (p.skin >= 0.12 && p.eye >= 0.08)
            })
            .collect();
        let clusters = f.mass_clusters();
        assert_eq!(clusters, flood(&pool, &plain, frame.block as f32 * 1.6));
        let scores: Vec<f32> = clusters.iter().map(|c| (c.len() % 7) as f32 - 1.0).collect();
        let mut best: Option<usize> = None;
        let mut top = 0.0f32;
        for (i, c) in clusters.iter().enumerate() {
            let p = f.mass_profile(c);
            let block = frame.block as f32;
            let (sx, sy) = (p.span_x2 as f32 / 2.0, p.span_y2 as f32 / 2.0);
            assert_eq!(p.is_bar, sy <= block * 1.25 && sx >= block * 3.0);
            if c.len() >= 4 && scores[i] > top {
                top = scores[i];
                best = Some(i);
            }
        }
        let ranks: Vec<i32> = scores.iter().map(|&s| r(s)).collect();
        assert_eq!(f.mass_of(&clusters, &ranks), best);
        picked += best.is_some() as usize;
    }
    assert!(picked > 10);
}

#[test]
fn a_bar_loses_to_any_face_that_scores() {
    // Five blocks in a row at the bottom, and two above each other at the top.
    let frame = Frame { w: 80, h: 80, block: 8 };
    let block = |x: u32, y: u32| BlockMeta {
        rect: Block { x, y, w: 8, h: 8 },
        eye_band: r(0.3),
        skin_density: r(0.5),
        face_boost: r(0.5),
        radial: r(0.0),
        bg_suppressed: false,
    };
    let mut blocks = vec![block(8, 8), block(8, 16)];
    for k in 0..5 {
        blocks.push(block(24 + 8 * k, 64));
    }
    let n = blocks.len();
    let f = FaceField {
        frame,
        blocks,
        pairs: vec![],
        signal: vec![r(0.4); n],
        anchor_score: vec![r(0.4); n],
        cutoff: vec![r(0.2); n],
        eye_share: vec![r(0.1); n],
    };
    let clusters = f.face_clusters();
    assert_eq!(clusters.len(), 2);
    assert_eq!((clusters[0].len(), clusters[1].len()), (2, 5));
    let scores = vec![r(0.01), r(9.0)];
    let skins = vec![r(0.5), r(0.5)];
    let low = f.veto_bars(&clusters, &scores, &vec![r(0.2), r(0.85)], &skins);
    assert_eq!(low, vec![r(0.01), 0]);
    assert_eq!(f.infer_face(&clusters, &low).blocks, vec![0, 1]);
    let high = f.veto_bars(&clusters, &scores, &vec![r(0.2), r(0.61)], &skins);
    assert_eq!(high, scores);
    let bare = f.veto_bars(&clusters, &scores, &vec![r(0.2), r(0.1)], &vec![r(0.1), r(0.40)]);
    assert_eq!(bare, vec![r(0.01), 0]);
}
