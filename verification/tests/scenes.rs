//! Classification, weights and the strip search against the float rules.

use autofocus::blocks::BlockMeta;
use autofocus::classify::{color_snap_gate, is_mono, ColorSnap, Scene, Spacing, Survey};
use autofocus::grid::Frame;
use autofocus::rank::{bits_of, rank};
use autofocus::strips::{Candidate, StripField};
use autofocus::weights::{Category, Weights};

fn r(v: f32) -> i32 {
    rank(v.to_bits()).unwrap()
}

fn f(k: i32) -> f32 {
    f32::from_bits(bits_of(k))
}

struct Dice(u64);

impl Dice {
    fn next(&mut self) -> f32 {
        self.0 = self.0.wrapping_mul(6364136223846793005).wrapping_add(1442695040888963407);
        (self.0 >> 40) as f32 / (1u64 << 24) as f32
    }
}

#[derive(Clone, Copy)]
struct Plain {
    cx: f32,
    cy: f32,
    bw: f32,
    bh: f32,
    eye: f32,
    skin: f32,
    face: f32,
    bg: bool,
}

fn gap(a: &Plain, b: &Plain) -> f32 {
    ((a.cx - b.cx).powi(2) + (a.cy - b.cy).powi(2)).sqrt()
}

fn plain_category(blocks: &[Plain], skin_density: f32) -> &'static str {
    let active: Vec<&Plain> = blocks.iter().filter(|b| !b.bg).collect();
    if active.is_empty() {
        return "scene";
    }
    let peak = active.iter().max_by(|a, b| a.eye.partial_cmp(&b.eye).unwrap()).unwrap();
    let skin_eye = active.iter().filter(|b| b.skin >= 0.10).map(|b| b.eye).fold(0.0f32, f32::max);
    if skin_eye < 0.12 {
        return if skin_density > 0.14 { "people" } else { "scene" };
    }
    let radius = (peak.bw + peak.bh) / 2.0 * 4.5;
    let like = |b: &&&Plain| b.eye >= 0.10 && b.skin >= 0.10 && b.face >= 0.1;
    let primary: Vec<&&Plain> = active.iter().filter(like).filter(|b| gap(b, peak) <= radius).collect();
    let separate: Vec<&&Plain> = active
        .iter()
        .filter(like)
        .filter(|b| {
            let closest = if primary.is_empty() {
                gap(b, peak)
            } else {
                primary.iter().map(|p| gap(b, p)).fold(f32::MAX, f32::min)
            };
            closest > radius * 1.8
        })
        .collect();
    let mean = |v: &[&&Plain]| v.iter().map(|b| b.cx).sum::<f32>() / v.len() as f32;
    let px = if primary.is_empty() { peak.cx } else { mean(&primary) };
    let sx = if separate.is_empty() { 0.0 } else { mean(&separate) };
    let ratio =
        if separate.is_empty() { f32::INFINITY } else { primary.len() as f32 / separate.len() as f32 };
    let group = separate.len() >= 3 && (sx - px).abs() >= radius && ratio >= 0.40;
    let spread = if separate.len() > 1 {
        separate.iter().map(|b| (b.cx - sx).abs()).fold(0.0f32, f32::max)
    } else {
        0.0
    };
    let coherent = separate.len() <= 1 || spread < radius * 1.8;
    let avg = if primary.is_empty() {
        0.0
    } else {
        primary.iter().map(|b| b.eye).sum::<f32>() / primary.len() as f32
    };
    let strong = primary.iter().filter(|b| b.eye >= 0.16).count();
    let isolated = !primary.is_empty()
        && skin_eye >= 0.30
        && peak.skin >= 0.22
        && peak.face >= 0.55
        && (separate.len() <= 1 || !coherent);
    let compact = !group
        && primary.len() >= 2
        && strong >= 2
        && avg >= 0.24
        && skin_eye >= 0.30
        && peak.skin >= 0.18
        && peak.face >= 0.55;
    let portrait = primary.len() >= 4
        || (primary.len() >= 3 && strong >= 2 && avg >= 0.20)
        || (skin_eye >= 0.24 && skin_density >= 0.18 && strong >= 1 && separate.len() <= 1)
        || isolated
        || compact;
    if group {
        "group"
    } else if portrait {
        "portrait"
    } else if skin_density > 0.06 {
        "people"
    } else {
        "scene"
    }
}

fn category(blocks: &[Plain], meta: Vec<BlockMeta>, skin_density: f32) -> Category {
    let scene = Scene { blocks: meta, skin_density: r(skin_density) };
    match scene.survey() {
        Survey::Settled(c) => c,
        Survey::Open(s) => {
            let peak = &blocks[s.peak];
            let radius = (peak.bw + peak.bh) / 2.0 * 4.5;
            let mean = |v: &[usize]| v.iter().map(|&i| blocks[i].cx).sum::<f32>() / v.len() as f32;
            let px = if s.primary.is_empty() { peak.cx } else { mean(&s.primary) };
            let sx = if s.separate.is_empty() { 0.0 } else { mean(&s.separate) };
            let spread = if s.separate.len() > 1 {
                s.separate.iter().map(|&i| (blocks[i].cx - sx).abs()).fold(0.0f32, f32::max)
            } else {
                0.0
            };
            let avg = if s.primary.is_empty() {
                0.0
            } else {
                s.primary.iter().map(|&i| blocks[i].eye).sum::<f32>() / s.primary.len() as f32
            };
            let m = Spacing {
                x_separation: r((sx - px).abs()),
                x_spread: r(spread),
                radius: r(radius),
                far: r(radius * 1.8),
                avg_eye: r(avg),
            };
            scene.conclude(&s, &m)
        }
    }
}

#[test]
fn categories_agree_with_the_float_rules() {
    let mut dice = Dice(31);
    let mut counts = [0usize; 5];
    for round in 0..400u32 {
        let frame = Frame::new(150 + 29 * (round % 6), 120 + 13 * (round % 5));
        let density = [0.01, 0.03, 0.08, 0.3][round as usize % 4];
        let mut plain = Vec::new();
        let mut meta = Vec::new();
        for b in frame.blocks() {
            let on = dice.next() < density;
            let p = Plain {
                cx: b.x as f32 + b.w as f32 / 2.0,
                cy: b.y as f32 + b.h as f32 / 2.0,
                bw: b.w as f32,
                bh: b.h as f32,
                eye: if on { dice.next() * 0.45 } else { 0.0 },
                skin: if on { dice.next() * 0.8 } else { dice.next() * 0.1 },
                face: if on { dice.next() } else { 0.0 },
                bg: dice.next() < 0.1,
            };
            plain.push(p);
            meta.push(BlockMeta {
                rect: b,
                eye_band: r(p.eye),
                skin_density: r(p.skin),
                face_boost: r(p.face),
                radial: 0,
                bg_suppressed: p.bg,
            });
        }
        let skin_density = dice.next() * 0.25;
        let expected = plain_category(&plain, skin_density);
        let got = category(&plain, meta, skin_density);
        counts[got.code() as usize] += 1;
        assert_eq!(got.name(), expected);
    }
    assert!(counts[1] > 5 && counts[2] > 5 && counts[3] > 5 && counts[4] > 5);
}

#[test]
fn a_frame_of_background_is_a_scene() {
    let scene = Scene { blocks: vec![], skin_density: r(0.9) };
    assert!(matches!(scene.survey(), Survey::Settled(Category::Scene)));
}

#[test]
fn low_saturation_is_mono() {
    assert!(is_mono(r(0.0499)));
    assert!(!is_mono(r(0.05)));
}

#[test]
fn the_colour_snap_depends_on_category_and_choice() {
    let all =
        [Category::Mono, Category::Portrait, Category::Group, Category::People, Category::Scene];
    for c in all {
        assert_eq!(color_snap_gate(None, c), c.name() != "mono" && c.name() != "people");
        assert!(!color_snap_gate(Some(ColorSnap::Off), c));
        assert_eq!(color_snap_gate(Some(ColorSnap::NoPupil), c), c.name() != "mono");
        assert_eq!(color_snap_gate(Some(ColorSnap::Scene), c), c.name() == "scene");
    }
    assert_eq!(ColorSnap::named("off"), Some(ColorSnap::Off));
    assert_eq!(ColorSnap::named("nopupil"), Some(ColorSnap::NoPupil));
    assert_eq!(ColorSnap::named("scene"), Some(ColorSnap::Scene));
    for other in ["", "on", "of", "offs", "Off", "scent"] {
        assert_eq!(ColorSnap::named(other), None);
    }
    let codes: Vec<u8> = all.iter().map(|c| c.code()).collect();
    assert_eq!(codes, vec![0, 1, 2, 3, 4]);
}

#[test]
fn weights_follow_the_category() {
    let list = |w: Weights| {
        [w.detail, w.skin, w.sat, w.sharp, w.centre, w.hog_face, w.symmetry, w.thirds].map(f)
    };
    let usual = [0.11, 0.59, 2.4, 0.99, 1.67, 7.56, 2.35, 0.60];
    assert_eq!(list(Weights::default()), usual);
    assert_eq!(list(Weights::of_category(Category::Portrait)), usual);
    let group = list(Weights::of_category(Category::Group));
    assert_eq!(group, [0.11, 0.59, 2.4, 0.99, 1.9, 7.56, 2.35, 0.85]);
    let people = list(Weights::of_category(Category::People));
    assert_eq!(people, [0.18, 0.45, 2.4, 0.99, 1.67, 2.8, 1.1, 0.60]);
    let scene = list(Weights::of_category(Category::Scene));
    assert_eq!(scene, [0.28, 0.12, 2.4, 1.35, 1.67, 0.4, 0.6, 1.05]);
    let mono = list(Weights::of_category(Category::Mono));
    assert_eq!(mono, [0.42, 0.0, 0.0, 1.75, 1.45, 2.4, 1.25, 0.95]);
}

#[test]
fn strips_agree_with_the_float_rules() {
    let mut dice = Dice(8);
    let (mut found, mut figures) = (0, 0);
    for round in 0..300u32 {
        let tall = round % 2 == 0;
        let frame = if tall {
            Frame::new(90 + round % 40, 200 + round % 31)
        } else {
            Frame::new(200 + round % 33, 130 + round % 21)
        };
        let (w, h) = (frame.w as f32, frame.h as f32);
        let top_only = round % 3 == 0;
        let faint = round % 7 == 0;
        let mut plain: Vec<(f32, f32, f32, f32)> = Vec::new();
        let mut candidates = Vec::new();
        for b in frame.blocks() {
            let cy = b.y as f32 + b.h as f32 / 2.0;
            let bias = if w / h > 1.6 { 1.0 } else { (1.0 - (cy / h) * 0.85).max(0.15) };
            let on = dice.next() < 0.1 && (!top_only || cy / h < 0.2);
            let eye = if on { dice.next() * if faint { 0.06 } else { 0.4 } } else { 0.0 };
            let skin = if on { dice.next() } else { 0.02 };
            let eff = eye * bias;
            plain.push((cy, eye, skin, eff));
            candidates.push(Candidate {
                rect: b,
                eye_band: r(eye),
                skin_density: r(skin),
                effective: r(eff),
                doubled: r(eff * 2.0),
                lifted: r(eff * 1.4),
            });
        }
        let mut peak = [0.0f32; 8];
        let mut skin_pk = [0.0f32; 8];
        for &(cy, _, skin, eff) in &plain {
            let s = ((cy / h * 8.0) as usize).min(7);
            peak[s] = peak[s].max(eff);
            skin_pk[s] = skin_pk[s].max(skin);
        }
        let face: Vec<f32> =
            plain.iter().filter(|c| c.1 >= 0.10 && c.2 >= 0.10).map(|c| c.0).collect();
        let (top, bottom) = if face.is_empty() {
            (0.0, h)
        } else {
            (
                face.iter().cloned().fold(f32::MAX, f32::min),
                face.iter().cloned().fold(f32::MIN, f32::max),
            )
        };
        let figure = w / h < 0.8 && (bottom - top) / h < 0.20 && top / h < 0.15 && skin_pk[0] >= 0.15;
        if figure {
            peak[0] *= 1.4;
            figures += 1;
        }
        let strip = peak.iter().enumerate().max_by(|a, b| a.1.partial_cmp(b.1).unwrap()).unwrap().0;
        let got = StripField { frame, candidates }.search();
        if peak[strip] < 0.05 {
            assert!(got.is_none());
            continue;
        }
        found += 1;
        let got = got.unwrap();
        assert_eq!(got.strip, strip);
        let (y0, y1) = (strip as f32 / 8.0 * h, (strip + 1) as f32 / 8.0 * h);
        let members: Vec<usize> = (0..plain.len())
            .filter(|&i| {
                let c = plain[i];
                c.0 >= y0 && c.0 < y1 && c.3 >= peak[strip] * 0.5
            })
            .collect();
        assert_eq!(got.members, members);
        assert!(!members.is_empty());
        assert_eq!(f(got.alpha), if strip == 0 && figure { 0.15 } else { 0.40 });
    }
    assert!(found > 100 && figures > 10);
}
