//! The rules and their run.

use autofocus::blocks::BlockMeta;
use autofocus::face_region::FaceRegion;
use autofocus::grid::{Block, Frame};
use autofocus::rank::{rank, INFINITE};
use autofocus::rules::{
    biases_upward, leash_of, lock_decision, lock_target, settle, settle_raw, take, AnchorReport,
    Hundredths,
    FaceClamp, FaceFrame, Lock, LockMode, MassReport, PeakReport, Point, PointState, Rule, Step,
};
use autofocus::tail::{Stage, Tail};

fn r(v: f32) -> i32 {
    rank(v.to_bits()).unwrap()
}

fn p(x: f32, y: f32) -> Point {
    Point { x: r(x), y: r(y) }
}

fn block(eye: f32, skin: f32, face: f32, radial: f32) -> BlockMeta {
    BlockMeta {
        rect: Block { x: 0, y: 0, w: 8, h: 8 },
        eye_band: r(eye),
        skin_density: r(skin),
        face_boost: r(face),
        radial: r(radial),
        bg_suppressed: false,
    }
}

fn pupil() -> BlockMeta {
    block(0.2, 0.5, 0.5, 0.9)
}

fn dull() -> BlockMeta {
    block(0.12, 0.5, 0.3, 0.1)
}

fn region(pupils: usize, others: usize, paired: usize) -> FaceRegion {
    let mut face_blocks = Vec::new();
    for _ in 0..pupils {
        face_blocks.push(pupil());
    }
    for _ in 0..others {
        face_blocks.push(dull());
    }
    FaceRegion { face_blocks, anchor: Some(dull()), paired_pupil_count: paired }
}

fn mass(score: f32, distance: f32, drop: f32, eye: f32, skin: f32, length: f32) -> MassReport {
    MassReport {
        score: r(score),
        distance: r(distance),
        drop: r(drop),
        avg_eye: r(eye),
        avg_skin: r(skin),
        step: Step { to: p(0.6, 0.6), length: r(length), held: p(0.55, 0.55) },
    }
}

fn frame() -> FaceFrame {
    FaceFrame { x0: r(0.2), x1: r(0.4), y0: r(0.1), y_half: r(0.3), y_low: r(0.5), y_pupil: r(0.4) }
}

fn peak(distance: f32, px: f32) -> PeakReport {
    PeakReport {
        peak: p(0.9, 0.9),
        distance: r(distance),
        px: r(px),
        py: r(50.0),
        left: r(10.0),
        right: r(90.0),
        top: r(10.0),
        bottom: r(90.0),
    }
}

#[test]
fn rules_run_in_their_order() {
    let names: Vec<&str> =
        Rule::opening().iter().chain(Rule::tail().iter()).map(|rule| rule.name()).collect();
    assert_eq!(
        names,
        vec![
            "StripFaceBlend",
            "PortraitUpwardBias",
            "EyeRefine",
            "SubjectMassBlend",
            "FaceLock",
            "DriftBudget",
            "SaliencySnap",
        ]
    );
}

#[test]
fn the_opening_rules_move_the_point_only_when_they_apply() {
    let mut st = PointState::start(p(0.5, 0.5));
    st.blend_strip(None);
    assert_eq!(st.at, p(0.5, 0.5));
    st.blend_strip(Some(p(0.4, 0.3)));
    assert_eq!(st.at, p(0.4, 0.3));
    let tall = Frame::new(100, 150);
    let wide = Frame::new(200, 100);
    assert!(biases_upward(&tall, r(0.19)));
    assert!(!biases_upward(&tall, r(0.18)));
    assert!(!biases_upward(&wide, r(0.9)));
    st.bias_upward(&wide, r(0.9), r(0.1));
    assert_eq!(st.at, p(0.4, 0.3));
    st.bias_upward(&tall, r(0.5), r(0.2));
    assert_eq!(st.at, p(0.4, 0.2));
    assert_eq!(st.refined, p(0.5, 0.5));
}

#[test]
fn a_mass_draws_the_point_through_every_gate() {
    let after = |m: MassReport| {
        let mut st = PointState::start(p(0.5, 0.5));
        st.blend_mass(&Some(m));
        st.at
    };
    assert_eq!(after(mass(1.5, 0.08, 0.0, 0.005, 0.9, 0.16)), p(0.6, 0.6));
    assert_eq!(after(mass(1.5, 0.08, 0.0, 0.005, 0.9, 0.17)), p(0.55, 0.55));
    assert_eq!(after(mass(1.49, 0.08, 0.0, 0.005, 0.9, 0.1)), p(0.5, 0.5));
    assert_eq!(after(mass(1.5, 0.079, 0.0, 0.005, 0.9, 0.1)), p(0.5, 0.5));
    assert_eq!(after(mass(1.5, 0.08, 0.0, 0.0049, 0.9, 0.1)), p(0.5, 0.5));
    assert_eq!(after(mass(1.5, 0.3, 0.26, 0.1, 0.61, 0.1)), p(0.5, 0.5));
    assert_eq!(after(mass(1.5, 0.3, 0.26, 0.1, 0.60, 0.1)), p(0.6, 0.6));
    assert_eq!(after(mass(1.5, 0.3, 0.25, 0.1, 0.9, 0.1)), p(0.6, 0.6));
    let mut st = PointState::start(p(0.5, 0.5));
    st.blend_mass(&None);
    assert_eq!(st.at, p(0.5, 0.5));
}

#[test]
fn the_lock_depends_on_mode_anchor_and_face() {
    let good = AnchorReport { height: r(0.3), signal: r(0.18) };
    let low = AnchorReport { height: r(0.41), signal: r(0.18) };
    let weak = AnchorReport { height: r(0.3), signal: r(0.17) };
    let face = region(1, 3, 0);
    assert_eq!(lock_decision(LockMode::Skip, &face, &good), Lock::Skipped);
    assert_eq!(lock_decision(LockMode::Normal, &face, &low), Lock::Skipped);
    assert_eq!(lock_decision(LockMode::Uncapped, &face, &low), Lock::Engaged);
    assert_eq!(lock_decision(LockMode::Normal, &face, &good), Lock::Engaged);
    assert_eq!(lock_decision(LockMode::Normal, &face, &weak), Lock::Idle);
    assert_eq!(lock_decision(LockMode::Normal, &region(1, 2, 0), &good), Lock::Idle);
    let mut blind = region(0, 4, 0);
    for b in &mut blind.face_blocks {
        b.eye_band = r(0.05);
    }
    assert_eq!(lock_decision(LockMode::Normal, &blind, &good), Lock::Idle);
    let mut sighted = region(0, 4, 0);
    sighted.anchor = Some(block(0.15, 0.5, 0.3, 0.1));
    assert_eq!(lock_decision(LockMode::Normal, &sighted, &low), Lock::Engaged);
}

#[test]
fn leashes_grow_with_pupils_and_authority() {
    assert_eq!(leash_of(LockMode::Normal, &region(1, 3, 0)), r(0.16));
    assert_eq!(leash_of(LockMode::Normal, &region(2, 2, 0)), r(0.30));
    assert_eq!(leash_of(LockMode::Uncapped, &region(0, 4, 0)), INFINITE);
    let step = Step { to: p(0.9, 0.9), length: r(0.4), held: p(0.6, 0.6) };
    assert_eq!(take(&step, r(0.4)), p(0.9, 0.9));
    assert_eq!(take(&step, r(0.39)), p(0.6, 0.6));
    assert_eq!(take(&step, INFINITE), p(0.9, 0.9));
}

#[test]
fn the_target_of_the_lock_lies_in_the_face() {
    let step = Step { to: p(0.9, 0.9), length: r(0.1), held: p(0.6, 0.6) };
    assert_eq!(lock_target(&step, r(0.16), &frame()), p(0.4, 0.4));
    let step = Step { to: p(0.1, 0.05), length: r(0.1), held: p(0.6, 0.6) };
    assert_eq!(lock_target(&step, r(0.16), &frame()), p(0.2, 0.1));
    let no_pupils = FaceFrame { y_pupil: 0, ..frame() };
    assert_eq!(no_pupils.clamp().y1, r(0.3));
    let deep = FaceFrame { y_pupil: r(0.9), ..frame() };
    assert_eq!(deep.clamp().y1, r(0.5));
}

#[test]
fn a_clamp_without_room_takes_the_upper_bound() {
    let c = FaceClamp { x0: r(0.5), x1: r(0.4), y0: r(0.1), y1: r(0.9) };
    assert_eq!(c.apply(p(0.45, 0.5)), p(0.4, 0.5));
}

#[test]
fn the_drift_budget_depends_on_pupils_and_eyes() {
    let budget = |face: Option<FaceRegion>| {
        let mut st = PointState::start(p(0.5, 0.5));
        st.face = face;
        st.budget()
    };
    assert_eq!(budget(None), r(0.18));
    assert_eq!(budget(Some(region(2, 2, 0))), r(0.34));
    assert_eq!(budget(Some(region(1, 3, 0))), r(0.18));
    let mut eyed = region(1, 3, 0);
    eyed.anchor = Some(block(0.20, 0.5, 0.5, 0.9));
    assert_eq!(budget(Some(eyed)), r(0.34));
    assert_eq!(budget(Some(region(0, 4, 0))), r(0.18));
}

#[test]
fn snapping_needs_the_right_frame_and_a_near_peak() {
    let snapped = |mono: bool, colour: bool, face: Option<FaceRegion>, distance: f32, px: f32| {
        let mut st = PointState::start(p(0.5, 0.5));
        st.face = face;
        let reach = st.snap_reach(mono);
        st.snap(mono, colour, &peak(distance, px), reach);
        st.at == p(0.9, 0.9)
    };
    assert!(snapped(true, false, None, 0.17, 50.0));
    assert!(!snapped(true, false, None, 0.171, 50.0));
    assert!(snapped(true, false, Some(region(2, 2, 1)), 0.17, 5.0));
    assert!(snapped(false, true, None, 0.145, 50.0));
    assert!(!snapped(false, true, None, 0.146, 50.0));
    assert!(snapped(false, true, Some(region(0, 1, 0)), 0.135, 50.0));
    assert!(!snapped(false, true, Some(region(0, 1, 0)), 0.136, 50.0));
    assert!(!snapped(false, true, Some(region(0, 1, 0)), 0.1, 95.0));
    assert!(snapped(false, true, Some(region(0, 0, 0)), 0.145, 95.0));
    assert!(!snapped(false, true, Some(region(1, 0, 0)), 0.0, 50.0));
    assert!(!snapped(false, false, None, 0.0, 50.0));
}

#[test]
fn answers_stay_off_the_edges() {
    let h = |x: u32, y: u32| Hundredths { x, y };
    assert_eq!(settle(Some(0), Some(100)), h(5, 92));
    assert_eq!(settle(Some(99), Some(1)), h(95, 8));
    assert_eq!(settle(Some(42), Some(31)), h(42, 31));
    assert_eq!(settle(Some(5), Some(92)), h(5, 92));
    assert_eq!(settle(Some(i64::MIN), Some(i64::MAX)), h(5, 92));
    assert_eq!(settle(None, None), h(5, 8));
    for k in 0..=100i64 {
        let plain = ((k as f32).round() / 100.0).max(0.05).min(0.95);
        assert_eq!(settle(Some(k), None).x as f32 / 100.0, plain);
    }
    assert_eq!(settle_raw(Some(r(-0.2)), Some(r(1.5))), p(0.0, 1.0));
    assert_eq!(settle_raw(None, Some(r(0.5))), p(0.0, 0.5));
}

#[test]
fn a_confirmed_face_keeps_the_point_to_the_end() {
    let mut run = Tail::start(LockMode::Normal, false, true, p(0.5, 0.5));
    assert_eq!(run.rule(), Some(Rule::EyeRefine));
    run.refined(p(0.52, 0.5));
    assert_eq!(run.rule(), Some(Rule::SubjectMassBlend));
    run.weighed(&None);
    assert_eq!(run.rule(), Some(Rule::FaceLock));
    run.faced(region(2, 2, 1), &AnchorReport { height: r(0.3), signal: r(0.5) });
    assert_eq!(run.stage, Stage::Blend);
    assert_eq!(run.leash(), r(0.30));
    let blend = Step { to: p(0.3, 0.35), length: r(0.25), held: p(0.4, 0.4) };
    let target = run.blended(&blend, frame());
    assert_eq!(target, p(0.3, 0.35));
    assert_eq!(run.stage, Stage::Leash);
    run.leashed(r(0.25), p(0.4, 0.4));
    assert_eq!(run.stage, Stage::Drift);
    assert_eq!(run.state.at, p(0.3, 0.35));
    run.drifted(r(0.5), p(0.45, 0.45));
    assert_eq!(run.stage, Stage::Done);
    assert_eq!(run.state.at, p(0.4, 0.4));
    assert_eq!(run.rule(), None);
}

#[test]
fn a_rejected_anchor_leaves_the_point() {
    let mut run = Tail::start(LockMode::Skip, false, true, p(0.5, 0.5));
    run.refined(p(0.5, 0.4));
    run.weighed(&Some(mass(2.0, 0.2, 0.0, 0.1, 0.3, 0.1)));
    assert_eq!(run.state.at, p(0.6, 0.6));
    run.faced(region(2, 2, 1), &AnchorReport { height: r(0.1), signal: r(0.9) });
    assert_eq!(run.stage, Stage::Done);
    assert_eq!(run.state.at, p(0.6, 0.6));
    assert!(run.state.lock_skipped);
}

#[test]
fn a_verified_anchor_is_reached_without_a_budget() {
    let mut run = Tail::start(LockMode::Uncapped, false, true, p(0.5, 0.5));
    run.refined(p(0.5, 0.5));
    run.weighed(&None);
    run.faced(region(0, 4, 0), &AnchorReport { height: r(0.9), signal: r(0.5) });
    assert_eq!(run.stage, Stage::Blend);
    let blend = Step { to: p(0.3, 0.2), length: r(0.9), held: p(0.45, 0.45) };
    assert_eq!(run.blended(&blend, frame()), p(0.3, 0.2));
    run.leashed(r(0.9), p(0.45, 0.45));
    assert_eq!(run.state.at, p(0.3, 0.2));
    assert!(run.state.face_clamp.is_none());
    assert_eq!(run.stage, Stage::Peak);
    run.peaked(&peak(0.14, 50.0), None);
    assert_eq!(run.state.at, p(0.3, 0.2));
    assert_eq!(run.stage, Stage::Done);
}

#[test]
fn the_reach_of_the_peak_can_be_set() {
    let mut run = Tail::start(LockMode::Normal, true, false, p(0.5, 0.5));
    run.refined(p(0.5, 0.5));
    run.weighed(&None);
    run.faced(region(0, 1, 0), &AnchorReport { height: r(0.2), signal: r(0.1) });
    assert_eq!(run.stage, Stage::Drift);
    run.drifted(r(0.0), p(0.5, 0.5));
    assert_eq!(run.stage, Stage::Peak);
    run.peaked(&peak(0.3, 50.0), Some(r(0.3)));
    assert_eq!(run.state.at, p(0.9, 0.9));
}
