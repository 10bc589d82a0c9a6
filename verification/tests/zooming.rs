//! Crops, skin regions and what replaces a point.

use autofocus::blocks::BlockMeta;
use autofocus::clusters::Links;
use autofocus::eyes::EyePair;
use autofocus::grid::{Block, Frame};
use autofocus::rank::rank;
use autofocus::weights::Category;
use autofocus::zoom::{
    crop_size, crop_verified, face_like, has_mouth, is_sliver, large_enough, mouth_filter, proposes_peaks,
    proposes_region, scales_down, skin_links, zoom_accepted,
    Evidence,
    MouthBox, PairReport, SkinGuard,
};

fn r(v: f32) -> i32 {
    rank(v.to_bits()).unwrap()
}

fn block(x: u32, y: u32, eye: f32, skin: f32, face: f32, radial: f32) -> BlockMeta {
    BlockMeta {
        rect: Block { x, y, w: 8, h: 8 },
        eye_band: r(eye),
        skin_density: r(skin),
        face_boost: r(face),
        radial: r(radial),
        bg_suppressed: false,
    }
}

#[test]
fn the_strongest_eye_on_skin_is_the_first_of_the_best() {
    let e = Evidence {
        blocks: vec![
            block(0, 0, 0.9, 0.14, 0.0, 0.0),
            block(8, 0, 0.3, 0.15, 0.5, 0.9),
            block(16, 0, 0.4, 0.20, 0.5, 0.9),
            block(24, 0, 0.4, 0.50, 0.5, 0.9),
        ],
    };
    let c = e.crop_face_evidence();
    assert_eq!(c.peak, Some(2));
    assert_eq!(c.pupils, 2);
    assert_eq!(c.skin, vec![2, 3]);
    let many = Evidence { blocks: (0..9).map(|i| block(8 * i, 0, 0.0, 0.5, 0.5, 0.7)).collect() };
    let c = many.crop_face_evidence();
    assert_eq!((c.peak, c.pupils), (None, 4));
}

#[test]
fn evidence_at_a_point_counts_near_blocks() {
    let e = Evidence {
        blocks: vec![
            block(0, 0, 0.2, 0.3, 0.5, 0.9),
            block(8, 0, 0.5, 0.3, 0.5, 0.9),
            block(16, 0, 0.4, 0.1, 0.5, 0.9),
        ],
    };
    let near = vec![r(1.0), r(30.0), r(2.0)];
    let p = e.point_evidence(&near, r(20.0));
    assert_eq!((p.peak_eye, p.pupils), (r(0.2), 1));
    let p = e.point_evidence(&near, r(30.0));
    assert_eq!((p.peak_eye, p.pupils), (r(0.5), 2));
    let p = e.point_evidence(&near, r(0.5));
    assert_eq!((p.peak_eye, p.pupils), (0, 0));
}

fn near_table(list: &[(f32, f32)]) -> Links {
    let (mut across, mut down) = (Vec::new(), Vec::new());
    for a in list {
        for b in list {
            across.push(r((b.0 - a.0).abs()));
            down.push(r((b.1 - a.1).abs()));
        }
    }
    skin_links(list.len(), &across, &down)
}

/// The bounding box of the topmost skin region, grown by repeated passes.
fn plain(list: &[(f32, f32, f32, f32)], strict: bool) -> Option<(f32, f32, f32, f32)> {
    let seed = (0..list.len()).min_by(|&a, &b| list[a].1.partial_cmp(&list[b].1).unwrap())?;
    let mut used = vec![false; list.len()];
    used[seed] = true;
    loop {
        let mut grew = false;
        for i in 0..list.len() {
            let joins = (0..list.len()).any(|m| {
                used[m] && (list[i].0 - list[m].0).abs() <= 0.12 && (list[i].1 - list[m].1).abs() <= 0.10
            });
            if !used[i] && joins {
                used[i] = true;
                grew = true;
            }
        }
        if !grew {
            break;
        }
    }
    let members: Vec<&(f32, f32, f32, f32)> =
        (0..list.len()).filter(|&i| used[i]).map(|i| &list[i]).collect();
    let shown = members.iter().any(|m| if strict { m.2 >= 0.08 } else { m.2 >= 0.05 || m.3 >= 0.55 });
    if members.len() < 2 || !shown {
        return None;
    }
    Some((
        members.iter().map(|m| m.0).fold(f32::MAX, f32::min),
        members.iter().map(|m| m.1).fold(f32::MAX, f32::min),
        members.iter().map(|m| m.0).fold(f32::MIN, f32::max),
        members.iter().map(|m| m.1).fold(f32::MIN, f32::max),
    ))
}

#[test]
fn topmost_skin_agrees_with_repeated_growth() {
    let mut state: u64 = 21;
    let mut next = || {
        state = state.wrapping_mul(6364136223846793005).wrapping_add(1442695040888963407);
        (state >> 40) as f32 / (1u64 << 24) as f32
    };
    let (mut some, mut none) = (0, 0);
    for round in 0..200u32 {
        let frame = Frame::new(100 + 7 * (round % 9), 90 + 5 * (round % 11));
        let (w, h) = (frame.w as f32, frame.h as f32);
        let mut blocks = Vec::new();
        let mut plain_blocks = Vec::new();
        for b in frame.blocks() {
            let skin = if next() < 0.12 { 0.3 + 0.7 * next() } else { 0.29 * next() };
            let eye = next() * 0.12;
            let eye = if round % 3 == 0 { eye * 0.5 } else { eye };
            let cx = (b.x as f32 + b.w as f32 / 2.0) / w;
            let cy = (b.y as f32 + b.h as f32 / 2.0) / h;
            plain_blocks.push((cx, cy, eye, skin));
            blocks.push(BlockMeta {
                rect: b,
                eye_band: r(eye),
                skin_density: r(skin),
                face_boost: 0,
                radial: 0,
                bg_suppressed: false,
            });
        }
        let e = Evidence { blocks };
        let pool = e.skin_blocks();
        let list: Vec<(f32, f32, f32, f32)> =
            plain_blocks.iter().cloned().filter(|b| b.3 >= 0.30).collect();
        assert_eq!(pool.len(), list.len());
        let places: Vec<(f32, f32)> = list.iter().map(|b| (b.0, b.1)).collect();
        for (guard, strict) in [(SkinGuard::Eyes, true), (SkinGuard::EyesOrSkin, false)] {
            let got = e.topmost_skin(&pool, &near_table(&places), guard).map(|b| {
                (
                    b.x0 as f32 / 2.0 / w,
                    b.y0 as f32 / 2.0 / h,
                    b.x1 as f32 / 2.0 / w,
                    b.y1 as f32 / 2.0 / h,
                )
            });
            assert_eq!(got, plain(&list, strict));
            if got.is_some() {
                some += 1;
            } else {
                none += 1;
            }
        }
    }
    assert!(some > 50 && none > 50);
}

#[test]
fn a_single_block_is_no_region() {
    let e = Evidence { blocks: vec![block(0, 0, 0.9, 0.9, 0.0, 0.0)] };
    let pool = e.skin_blocks();
    assert_eq!(pool, vec![0]);
    let links = Links::Table { n: 1, near: vec![true] };
    assert!(e.topmost_skin(&pool, &links, SkinGuard::Eyes).is_none());
    assert!(e.topmost_skin(&pool, &links, SkinGuard::EyesOrSkin).is_none());
    let bare = Evidence { blocks: vec![block(0, 0, 0.9, 0.29, 0.0, 0.0)] };
    let links = Links::Table { n: 0, near: vec![] };
    assert!(bare.skin_blocks().is_empty());
    assert!(bare.topmost_skin(&vec![], &links, SkinGuard::Eyes).is_none());
}

#[test]
fn crops_are_verified_by_pairs_and_evidence() {
    let pairs = vec![
        PairReport { y: r(0.5), gap: r(0.0) },
        PairReport { y: r(0.3), gap: r(0.17) },
        PairReport { y: r(0.3), gap: r(0.16) },
    ];
    assert!(face_like(&pairs, r(0.31), r(0.16)));
    assert!(!face_like(&pairs, r(0.3), r(0.16)));
    assert!(!face_like(&pairs, r(0.31), r(0.15)));
    assert!(!face_like(&vec![], r(1.0), r(1.0)));
    assert!(crop_verified(true, r(0.25), r(0.25)));
    assert!(!crop_verified(false, r(0.9), r(0.0)));
    assert!(!crop_verified(true, r(0.24), r(0.0)));
    assert!(!crop_verified(true, r(0.5), r(0.51)));
}

#[test]
fn a_zoomed_point_replaces_the_first_on_evidence() {
    let accept = |like: bool, pairs: usize, ev: f32, base: f32| {
        zoom_accepted(like, pairs, r(ev), r(base), r(base + 0.10), r(0.35))
    };
    assert!(accept(true, 1, 0.41, 0.30));
    assert!(!accept(true, 1, 0.39, 0.30));
    assert!(accept(true, 2, 0.30, 0.30));
    assert!(!accept(true, 2, 0.29, 0.30));
    assert!(!accept(true, 2, 0.24, 0.05));
    assert!(!accept(false, 3, 0.9, 0.05));
    assert!(accept(false, 0, 0.35, 0.049));
    assert!(!accept(false, 0, 0.34, 0.0));
}

#[test]
fn sizes_and_shapes() {
    assert_eq!(crop_size(10, 20, 58, 68), Some((48, 48)));
    assert_eq!(crop_size(10, 20, 57, 68), None);
    assert_eq!(crop_size(10, 20, 58, 67), None);
    assert_eq!(crop_size(60, 20, 10, 90), None);
    assert!(large_enough(3, 3) && !large_enough(2, 9) && !large_enough(9, 2));
    assert!(is_sliver(r(3.51)) && !is_sliver(r(3.5)));
    let mouth = |x: (usize, usize), y: (usize, usize), edges: f32, floor: Option<f32>| {
        has_mouth(&MouthBox {
            x0: x.0,
            x1: x.1,
            y0: y.0,
            y1: y.1,
            edges: Some(r(edges)),
            floor: floor.map(r),
        })
    };
    assert!(mouth((4, 6), (7, 9), 0.2, Some(0.2)));
    assert!(!mouth((4, 5), (7, 9), 0.2, Some(0.2)));
    assert!(!mouth((4, 6), (7, 8), 0.2, Some(0.2)));
    assert!(!mouth((6, 4), (7, 9), 0.2, Some(0.2)));
    assert!(!mouth((4, 6), (7, 9), 0.1, Some(0.2)));
    assert!(!mouth((4, 6), (7, 9), 0.1, None));
    assert!(scales_down(300, 200, 256) && scales_down(10, 257, 256) && !scales_down(256, 256, 256));
    for long in [1u32, 255, 256, 257, 300, 9999, 65_535] {
        assert_eq!(scales_down(long, 1, 256), (256.0f32 / long as f32).min(1.0) < 1.0);
    }
    assert!(proposes_region(Category::Scene, true) && !proposes_region(Category::Scene, false));
    assert!(!proposes_region(Category::Mono, true));
    assert!(proposes_peaks(r(0.05)) && !proposes_peaks(r(0.0499)));
}

#[test]
fn skin_blocks_are_near_within_a_tenth_or_so() {
    let zero = r(0.0);
    let across = vec![zero, r(0.12), r(0.12), zero];
    let beyond = vec![zero, r(0.1201), r(0.1201), zero];
    let down = vec![zero, r(0.10), r(0.10), zero];
    let below = vec![zero, r(0.1001), r(0.1001), zero];
    assert!(skin_links(2, &across, &down).near_to(0, 1));
    assert!(!skin_links(2, &beyond, &down).near_to(0, 1));
    assert!(!skin_links(2, &across, &below).near_to(0, 1));
    assert_eq!(skin_links(2, &across, &down).count(), 2);
}

#[test]
fn a_skin_region_starts_at_the_topmost_skin() {
    // The region of the block at the top has the one beside it, not the one far
    // below; the block without skin above them does not count.
    let e = Evidence {
        blocks: vec![
            block(0, 0, 0.9, 0.2, 0.0, 0.0),
            block(40, 8, 0.1, 0.5, 0.0, 0.0),
            block(48, 16, 0.0, 0.4, 0.0, 0.0),
            block(48, 90, 0.9, 0.9, 0.0, 0.0),
        ],
    };
    let pool = e.skin_blocks();
    assert_eq!(pool, vec![1, 2, 3]);
    let places = [(0.44, 0.12), (0.52, 0.20), (0.52, 0.94)];
    let found = e.topmost_skin(&pool, &near_table(&places), SkinGuard::Eyes).unwrap();
    assert_eq!((found.x0, found.y0, found.x1, found.y1), (88, 24, 104, 40));
}

#[test]
fn pairs_without_a_mouth_are_left_out() {
    let pair = |x: u32| EyePair { mid_x2: 0, mid_y2: 0, spacing: x, m1: (0, 0), m2: (x, 0) };
    let mouth = |x1: usize, edges: Option<f32>| MouthBox {
        x0: 4,
        x1,
        y0: 7,
        y1: 9,
        edges: edges.map(r),
        floor: Some(r(0.2)),
    };
    let boxes = vec![mouth(6, Some(0.2)), mouth(5, Some(0.9)), mouth(9, Some(0.19)), mouth(9, None), mouth(8, Some(0.3))];
    let pairs: Vec<EyePair> = (3..8).map(pair).collect();
    let kept: Vec<u32> = mouth_filter(&pairs, &boxes).iter().map(|p| p.spacing).collect();
    assert_eq!(kept, vec![3, 7]);
    assert!(mouth_filter(&vec![], &vec![]).is_empty());
}

#[test]
fn a_point_shows_no_more_than_its_frame() {
    let e = Evidence {
        blocks: (0..7).map(|i| block(8 * i, 0, 0.1 * i as f32, 0.5, 0.5, 0.7)).collect(),
    };
    let whole = e.crop_face_evidence();
    let band = e.blocks[whole.peak.unwrap()].eye_band;
    for reach in 0..8 {
        let distance: Vec<i32> = (0..7).map(|i| r(i as f32 + 0.5)).collect();
        let near = e.point_evidence(&distance, r(reach as f32));
        assert!(near.peak_eye <= band && near.pupils <= whole.pupils);
    }
    let far = e.point_evidence(&vec![r(9.0); 7], r(8.0));
    assert_eq!((far.peak_eye, far.pupils), (0, 0));
}
