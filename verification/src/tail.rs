//! The run of the rules that refine a scored point, step by step.
//!
//! At each stage something has to be measured on the image. The run says what,
//! takes the measurement, moves the point and goes on to the next stage that
//! applies.

use crate::face_region::FaceRegion;
use crate::rules::{
    leash_of, lock_decision, lock_target, take, AnchorReport, FaceClamp, FaceFrame, Lock,
    LockMode, MassReport, PeakReport, Point, PointState, Rule, Step,
};
use crate::rank::Rank;
use vstd::prelude::*;

verus! {

/// What is to be measured next.
#[derive(Clone, Copy, Debug, PartialEq, Eq, Structural)]
pub enum Stage {
    /// Where the eyes near the point are.
    Refine,
    /// The mass of the subject.
    Mass,
    /// The face around the point and its anchor.
    Face,
    /// The blend towards the eyes of the face, and the bounds of the face.
    Blend,
    /// How far the lock's target is from the point.
    Leash,
    /// How far the point is from the refined one.
    Drift,
    /// The saliency peak.
    Peak,
    /// Nothing more.
    Done,
}

/// The run of the rules on one point.
pub struct Tail {
    pub mode: LockMode,
    /// Whether the frame has no colour.
    pub mono: bool,
    /// Whether a frame with colour may snap to the saliency peak.
    pub colour: bool,
    pub stage: Stage,
    pub state: PointState,
    /// What the lock aims at, while it is measured.
    pub target: Point,
    /// The bounds of the face, while the lock is at work.
    pub bounds: Option<FaceFrame>,
}

impl Tail {
    /// The rule that a stage belongs to; `None` once all have run.
    pub open spec fn rule_at(stage: Stage) -> Option<Rule> {
        match stage {
            Stage::Refine => Some(Rule::EyeRefine),
            Stage::Mass => Some(Rule::SubjectMassBlend),
            Stage::Face => Some(Rule::FaceLock),
            Stage::Blend => Some(Rule::FaceLock),
            Stage::Leash => Some(Rule::FaceLock),
            Stage::Drift => Some(Rule::DriftBudget),
            Stage::Peak => Some(Rule::SaliencySnap),
            Stage::Done => None,
        }
    }

    /// The rule that is at work; `None` once all have run.
    pub fn rule(&self) -> (r: Option<Rule>)
        ensures
            r == Tail::rule_at(self.stage),
            self.stage == Stage::Refine ==> r == Some(Rule::EyeRefine),
            self.stage == Stage::Mass ==> r == Some(Rule::SubjectMassBlend),
            self.stage == Stage::Face || self.stage == Stage::Blend || self.stage == Stage::Leash
                ==> r == Some(Rule::FaceLock),
            self.stage == Stage::Drift ==> r == Some(Rule::DriftBudget),
            self.stage == Stage::Peak ==> r == Some(Rule::SaliencySnap),
            self.stage == Stage::Done ==> r is None,
    {
        match self.stage {
            Stage::Refine => Some(Rule::EyeRefine),
            Stage::Mass => Some(Rule::SubjectMassBlend),
            Stage::Face => Some(Rule::FaceLock),
            Stage::Blend => Some(Rule::FaceLock),
            Stage::Leash => Some(Rule::FaceLock),
            Stage::Drift => Some(Rule::DriftBudget),
            Stage::Peak => Some(Rule::SaliencySnap),
            Stage::Done => None,
        }
    }

    /// How many stages can still be ahead: every measurement leaves fewer, so a
    /// run ends.
    pub open spec fn ahead(stage: Stage) -> nat {
        match stage {
            Stage::Refine => 7,
            Stage::Mass => 6,
            Stage::Face => 5,
            Stage::Blend => 4,
            Stage::Leash => 3,
            Stage::Drift => 2,
            Stage::Peak => 1,
            Stage::Done => 0,
        }
    }

    /// The stage after the lock: the drift budget if it runs, else what follows
    /// it.
    pub open spec fn after_lock(&self, st: PointState) -> Stage {
        if st.budgeted(self.mode) {
            Stage::Drift
        } else {
            self.after_drift(st)
        }
    }

    /// The stage after the drift budget: the saliency peak if it matters.
    pub open spec fn after_drift(&self, st: PointState) -> Stage {
        if crate::rules::snap_applies(self.mono, self.colour, st.face) {
            Stage::Peak
        } else {
            Stage::Done
        }
    }

    /// What holds between the stages: before the lock there is no face, the
    /// lock has its face and its bounds at hand while it works, and bounds are
    /// only set for a face that pupils confirm. From the drift budget on, such
    /// a face keeps the point inside, unless the frame has no colour or the
    /// lock was given another authority than usual.
    pub open spec fn well_formed(&self) -> bool {
        let st = self.state;
        &&& st.well_formed()
        &&& (self.stage == Stage::Refine || self.stage == Stage::Mass || self.stage == Stage::Face)
            ==> st.face is None && st.face_clamp is None && !st.lock_skipped
        &&& (self.stage == Stage::Blend || self.stage == Stage::Leash) ==> st.face is Some
            && st.face_clamp is None && !st.lock_skipped && self.mode != LockMode::Skip
        &&& self.stage == Stage::Leash ==> self.bounds is Some
        &&& st.face_clamp is Some ==> (st.face matches Some(f) && crate::rules::confirmed(f))
        &&& st.lock_skipped ==> st.face_clamp is None
        &&& self.stage == Stage::Drift ==> st.budgeted(self.mode)
        &&& (self.stage == Stage::Peak || self.stage == Stage::Done) && !self.mono && self.mode
            == LockMode::Normal ==> (st.face_clamp matches Some(c) ==> (c.open() ==> c.holds(st.at)))
    }

    /// Starts a run at a scored point.
    pub fn start(mode: LockMode, mono: bool, colour: bool, at: Point) -> (r: Tail)
        ensures
            r.well_formed(),
            r.stage == Stage::Refine,
            r.mode == mode,
            r.mono == mono,
            r.colour == colour,
            r.state == (PointState {
                at,
                refined: at,
                face: None,
                face_clamp: None,
                lock_skipped: false,
            }),
    {
        Tail {
            mode,
            mono,
            colour,
            stage: Stage::Refine,
            state: PointState::start(at),
            target: at,
            bounds: None,
        }
    }

    /// Takes the refined point.
    pub fn refined(&mut self, to: Point)
        requires
            old(self).well_formed(),
            old(self).stage == Stage::Refine,
        ensures
            final(self).well_formed(),
            Tail::ahead(final(self).stage) < Tail::ahead(old(self).stage),
            final(self).stage == Stage::Mass,
            final(self).state == (PointState { at: to, refined: to, ..old(self).state }),
            final(self).mode == old(self).mode,
            final(self).mono == old(self).mono,
            final(self).colour == old(self).colour,
    {
        self.state.refine(to);
        self.stage = Stage::Mass;
    }

    /// Takes what was measured on the subject's mass, if there is one.
    pub fn weighed(&mut self, mass: &Option<MassReport>)
        requires
            old(self).well_formed(),
            old(self).stage == Stage::Mass,
        ensures
            final(self).well_formed(),
            Tail::ahead(final(self).stage) < Tail::ahead(old(self).stage),
            final(self).stage == Stage::Face,
            final(self).state == (PointState {
                at: match *mass {
                    Some(m) => if crate::rules::mass_draws(m) {
                        crate::rules::leashed(m.step, crate::marks::AT_016 as int)
                    } else {
                        old(self).state.at
                    },
                    None => old(self).state.at,
                },
                ..old(self).state
            }),
            *mass matches Some(m) ==> (m.score < crate::marks::AT_150 || m.distance
                < crate::marks::AT_008 || m.avg_eye < crate::marks::AT_0005 || (m.drop
                > crate::marks::AT_025 && m.avg_skin > crate::marks::AT_060) ==> final(self).state.at
                == old(self).state.at),
            final(self).mode == old(self).mode,
            final(self).mono == old(self).mono,
            final(self).colour == old(self).colour,
    {
        self.state.blend_mass(mass);
        self.stage = Stage::Face;
    }

    fn leave_lock(&mut self)
        ensures
            final(self).stage == old(self).after_lock(old(self).state),
            final(self).stage == Stage::Drift <==> old(self).mode == LockMode::Normal && !old(self).state.lock_skipped,
            final(self).state == old(self).state,
            final(self).mode == old(self).mode,
            final(self).mono == old(self).mono,
            final(self).colour == old(self).colour,
            final(self).target == old(self).target,
            final(self).bounds == old(self).bounds,
    {
        self.stage = if self.state.has_budget(self.mode) {
            Stage::Drift
        } else if self.state.may_snap(self.mono, self.colour) {
            Stage::Peak
        } else {
            Stage::Done
        };
    }

    /// Takes the face around the point: either the lock goes to work on it, or
    /// it is handed on and the point stays.
    pub fn faced(&mut self, region: FaceRegion, anchor: &AnchorReport)
        requires
            old(self).well_formed(),
            old(self).stage == Stage::Face,
            region.well_formed(),
        ensures
            final(self).well_formed(),
            Tail::ahead(final(self).stage) < Tail::ahead(old(self).stage),
            final(self).state == (PointState {
                face: Some(region),
                lock_skipped: crate::rules::lock_for(old(self).mode, region, *anchor)
                    == Lock::Skipped,
                ..old(self).state
            }),
            final(self).stage == (if crate::rules::lock_for(old(self).mode, region, *anchor)
                == Lock::Engaged {
                Stage::Blend
            } else {
                old(self).after_lock(final(self).state)
            }),
            old(self).mode == LockMode::Skip ==> final(self).state.lock_skipped,
            old(self).mode == LockMode::Normal && anchor.height > crate::marks::AT_040
                && region.anchored_eye() < crate::marks::AT_015 ==> final(self).state.lock_skipped,
            final(self).state.at == old(self).state.at,
            final(self).stage == Stage::Blend ==> region.face_blocks@.len() >= 4 && anchor.signal
                >= crate::marks::AT_018,
            final(self).stage == Stage::Drift ==> old(self).mode == LockMode::Normal && !final(self).state.lock_skipped,
            final(self).mode == old(self).mode,
            final(self).mono == old(self).mono,
            final(self).colour == old(self).colour,
    {
        let lock = lock_decision(self.mode, &region, anchor);
        self.state.pass_lock(region, lock == Lock::Skipped);
        if lock == Lock::Engaged {
            self.stage = Stage::Blend;
        } else {
            self.leave_lock();
        }
    }

    /// How far the lock may move the point.
    pub fn leash(&self) -> (r: Rank)
        requires
            self.well_formed(),
            self.stage == Stage::Blend || self.stage == Stage::Leash,
        ensures
            r == crate::rules::lock_leash(
                self.mode,
                crate::face_region::pupils(self.state.face->0.face_blocks@),
            ),
            self.mode == LockMode::Normal ==> r == if crate::face_region::pupils(
                self.state.face->0.face_blocks@,
            ) >= 2 {
                crate::marks::AT_030
            } else {
                crate::marks::AT_016
            },
    {
        match &self.state.face {
            Some(f) => leash_of(self.mode, f),
            None => crate::rank::INFINITE,
        }
    }

    /// Takes the blend towards the eyes and the bounds of the face, and gives
    /// the target to be measured.
    pub fn blended(&mut self, blend: &Step, bounds: FaceFrame) -> (target: Point)
        requires
            old(self).well_formed(),
            old(self).stage == Stage::Blend,
        ensures
            final(self).well_formed(),
            Tail::ahead(final(self).stage) < Tail::ahead(old(self).stage),
            final(self).stage == Stage::Leash,
            final(self).state == old(self).state,
            final(self).bounds == Some(bounds),
            final(self).target == target,
            target == bounds.bounds().moved_in(
                crate::rules::leashed(
                    *blend,
                    crate::rules::lock_leash(
                        old(self).mode,
                        crate::face_region::pupils(old(self).state.face->0.face_blocks@),
                    ),
                ),
            ),
            blend.length <= crate::marks::AT_016 ==> target == bounds.bounds().moved_in(blend.to),
            final(self).mode == old(self).mode,
            final(self).mono == old(self).mono,
            final(self).colour == old(self).colour,
    {
        let leash: Rank = self.leash();
        let target = lock_target(blend, leash, &bounds);
        self.target = target;
        self.bounds = Some(bounds);
        self.stage = Stage::Leash;
        target
    }

    /// Takes how far the target is and where the point ends on the leash; the
    /// lock moves the point, and a face that pupils confirm sets its bounds.
    pub fn leashed(&mut self, length: Rank, held: Point)
        requires
            old(self).well_formed(),
            old(self).stage == Stage::Leash,
        ensures
            final(self).well_formed(),
            Tail::ahead(final(self).stage) < Tail::ahead(old(self).stage),
            final(self).stage == old(self).after_lock(final(self).state),
            final(self).state == (PointState {
                at: crate::rules::leashed(
                    Step { to: old(self).target, length, held },
                    crate::rules::lock_leash(
                        old(self).mode,
                        crate::face_region::pupils(old(self).state.face->0.face_blocks@),
                    ),
                ),
                face_clamp: if crate::rules::confirmed(old(self).state.face->0) {
                    Some(old(self).bounds->0.bounds())
                } else {
                    None
                },
                ..old(self).state
            }),
            length <= crate::marks::AT_016 ==> final(self).state.at == old(self).target,
            old(self).mode == LockMode::Normal && length > crate::marks::AT_030 ==> final(self).state.at == held,
            final(self).state.face_clamp is Some <==> crate::face_region::pupils(
                old(self).state.face->0.face_blocks@,
            ) >= 2 || old(self).state.face->0.paired_pupil_count >= 1,
            final(self).mode == old(self).mode,
            final(self).mono == old(self).mono,
            final(self).colour == old(self).colour,
    {
        let step = Step { to: self.target, length, held };
        let leash: Rank = self.leash();
        let to = take(&step, leash);
        let confirmed: bool = match &self.state.face {
            Some(f) => f.pupil_count() >= 2 || f.paired_pupil_count >= 1,
            None => false,
        };
        let clamp: Option<FaceClamp> = match &self.bounds {
            Some(b) => if confirmed {
                Some(b.clamp())
            } else {
                None
            },
            None => None,
        };
        self.state.at = to;
        self.state.face_clamp = clamp;
        self.leave_lock();
    }

    /// Takes how far the point is from the refined one and where it ends within
    /// the budget; a confirmed face takes it back inside.
    pub fn drifted(&mut self, length: Rank, held: Point)
        requires
            old(self).well_formed(),
            old(self).stage == Stage::Drift,
        ensures
            final(self).well_formed(),
            Tail::ahead(final(self).stage) < Tail::ahead(old(self).stage),
            final(self).stage == old(self).after_drift(old(self).state),
            final(self).state == (PointState {
                at: old(self).state.within_budget(Step { to: old(self).state.at, length, held }),
                ..old(self).state
            }),
            old(self).state.face_clamp is None && length <= crate::marks::AT_018 ==> final(self).state.at == old(self).state.at,
            old(self).state.face_clamp is None && length > crate::marks::AT_034 ==> final(self).state.at == held,
            final(self).mode == old(self).mode,
            final(self).mono == old(self).mono,
            final(self).colour == old(self).colour,
    {
        let drift = Step { to: self.state.at, length, held };
        self.state.spend(self.mode, &drift);
        self.stage = if self.state.may_snap(self.mono, self.colour) {
            Stage::Peak
        } else {
            Stage::Done
        };
    }

    /// Takes the saliency peak; the reach is the usual one unless it is set.
    pub fn peaked(&mut self, peak: &PeakReport, reach: Option<Rank>)
        requires
            old(self).well_formed(),
            old(self).stage == Stage::Peak,
        ensures
            final(self).well_formed(),
            Tail::ahead(final(self).stage) < Tail::ahead(old(self).stage),
            final(self).stage == Stage::Done,
            final(self).state == (PointState {
                at: if crate::rules::snaps(
                    old(self).mono,
                    old(self).colour,
                    old(self).state.face,
                    *peak,
                    match reach {
                        Some(r) => r,
                        None => crate::rules::snap_leash(old(self).mono, old(self).state.face),
                    },
                ) {
                    peak.peak
                } else {
                    old(self).state.at
                },
                ..old(self).state
            }),
            final(self).state.at == old(self).state.at || final(self).state.at == peak.peak,
            !old(self).mono ==> (old(self).state.face matches Some(f) ==> (f.face_blocks@.len() > 0
                && !(peak.left <= peak.px <= peak.right && peak.top <= peak.py <= peak.bottom)
                ==> final(self).state.at == old(self).state.at)),
            reach matches Some(r) ==> (peak.distance > r ==> final(self).state.at == old(self).state.at),
            reach is None && peak.distance > crate::marks::AT_017 ==> final(self).state.at == old(self).state.at,
            (old(self).mono || (old(self).colour && (old(self).state.face matches Some(f)
                ==> crate::face_region::pupils(f.face_blocks@) == 0))) && reach is None
                && peak.distance <= crate::marks::AT_0135 && peak.left <= peak.px
                <= peak.right && peak.top <= peak.py <= peak.bottom ==> final(self).state.at
                == peak.peak,
            final(self).mode == old(self).mode,
            final(self).mono == old(self).mono,
            final(self).colour == old(self).colour,
    {
        let leash: Rank = match reach {
            Some(r) => r,
            None => self.state.snap_reach(self.mono),
        };
        self.state.snap(self.mono, self.colour, peak, leash);
        self.stage = Stage::Done;
    }
}

/// A run in a frame with colour and under the usual authority ends inside the
/// bounds of the face that pupils confirmed in it.
pub proof fn runs_end_inside_a_confirmed_face(run: Tail, bounds: FaceClamp)
    requires
        run.well_formed(),
        run.stage == Stage::Done,
        run.mode == LockMode::Normal,
        !run.mono,
        run.state.face_clamp == Some(bounds),
        bounds.open(),
    ensures
        bounds.holds(run.state.at),
{
}

/// A run with a rejected anchor never waits for the lock or the drift budget.
pub proof fn a_rejected_anchor_is_never_asked_about(run: Tail)
    requires
        run.well_formed(),
        run.mode == LockMode::Skip,
    ensures
        run.stage != Stage::Blend && run.stage != Stage::Leash && run.stage != Stage::Drift,
{
}

/// A run with a verified anchor has no drift budget.
pub proof fn a_verified_anchor_has_no_budget(run: Tail)
    requires
        run.well_formed(),
        run.mode == LockMode::Uncapped,
    ensures
        run.stage != Stage::Drift,
{
}

/// The order of the rules after the lock: the drift budget runs under the usual
/// authority unless the lock was skipped; the saliency peak is asked for in frames
/// without colour, and in those with colour that may snap and show no pupil; a run
/// that needs neither is done.
pub proof fn runs_ask_only_for_what_applies(run: Tail, st: PointState)
    ensures
        run.after_lock(st) == Stage::Drift <==> run.mode == LockMode::Normal && !st.lock_skipped,
        run.mono ==> run.after_drift(st) == Stage::Peak,
        !run.mono && !run.colour ==> run.after_drift(st) == Stage::Done,
        !run.mono && run.colour && st.face is None ==> run.after_drift(st) == Stage::Peak,
        !run.mono && run.colour ==> (st.face matches Some(f) ==> (run.after_drift(st) == Stage::Peak
            <==> crate::face_region::pupils(f.face_blocks@) == 0)),
        run.after_drift(st) == Stage::Peak || run.after_drift(st) == Stage::Done,
        run.after_lock(st) != Stage::Drift ==> run.after_lock(st) == run.after_drift(st),
{
}

/// Each stage has its rule, and the rules come in the order refinement, mass,
/// lock, budget, peak.
pub proof fn stages_follow_the_rules()
    ensures
        Tail::rule_at(Stage::Refine) == Some(Rule::EyeRefine),
        Tail::rule_at(Stage::Mass) == Some(Rule::SubjectMassBlend),
        Tail::rule_at(Stage::Face) == Some(Rule::FaceLock),
        Tail::rule_at(Stage::Blend) == Some(Rule::FaceLock),
        Tail::rule_at(Stage::Leash) == Some(Rule::FaceLock),
        Tail::rule_at(Stage::Drift) == Some(Rule::DriftBudget),
        Tail::rule_at(Stage::Peak) == Some(Rule::SaliencySnap),
        Tail::rule_at(Stage::Done) is None,
        Tail::ahead(Stage::Refine) > Tail::ahead(Stage::Mass) > Tail::ahead(Stage::Face)
            > Tail::ahead(Stage::Blend) > Tail::ahead(Stage::Leash) > Tail::ahead(Stage::Drift)
            > Tail::ahead(Stage::Peak) > Tail::ahead(Stage::Done),
{
}

} // verus!
