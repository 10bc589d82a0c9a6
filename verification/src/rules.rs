//! The rules that move the focus point, one after another.
//!
//! Each rule has its own gate, and one that does not apply leaves the point
//! where it is. Where a rule would move the point too far it is held on a
//! leash, and a face confirmed by pupils keeps the point inside itself.

use crate::face_region::FaceRegion;
use crate::grid::Frame;
use crate::marks::{
    AT_0005, AT_008, AT_010, AT_0135, AT_0145, AT_015, AT_016, AT_017, AT_018, AT_020, AT_025, AT_030,
    AT_034, AT_040, AT_060, AT_100, AT_150,
};
use crate::rank::{clamp, larger, smaller, Rank, INFINITE};
use vstd::prelude::*;

verus! {

/// The number of blocks that a face needs for the lock.
pub const MIN_FACE: usize = 4;

/// The rules, in the order in which they run.
#[derive(Clone, Copy, Debug, PartialEq, Eq, Structural)]
pub enum Rule {
    StripFaceBlend,
    PortraitUpwardBias,
    EyeRefine,
    SubjectMassBlend,
    FaceLock,
    DriftBudget,
    SaliencySnap,
}

/// How much authority the face lock has.
#[derive(Clone, Copy, Debug, PartialEq, Eq, Structural)]
pub enum LockMode {
    /// The lock applies on its leash.
    Normal,
    /// The anchor was rejected: neither the lock nor the drift budget runs.
    Skip,
    /// The anchor was verified: the lock goes all the way, and there is no
    /// drift budget.
    Uncapped,
}

/// The bounds that a confirmed face sets for the point.
#[derive(Clone, Copy, Debug, PartialEq, Eq, Structural)]
pub struct FaceClamp {
    pub x0: Rank,
    pub x1: Rank,
    pub y0: Rank,
    pub y1: Rank,
}

/// A point, in shares of the frame's width and height.
#[derive(Clone, Copy, Debug, PartialEq, Eq, Structural)]
pub struct Point {
    pub x: Rank,
    pub y: Rank,
}

/// The point and what the rules hand on with it.
pub struct PointState {
    pub at: Point,
    /// The point as the eye refinement left it.
    pub refined: Point,
    /// The face around the point.
    pub face: Option<FaceRegion>,
    /// Set when the lock confirms a face.
    pub face_clamp: Option<FaceClamp>,
    /// The anchor was not plausible, and the lock did not move the point.
    pub lock_skipped: bool,
}

/// A move that a rule proposes: where to, how far that is, and where the point
/// ends if it is held on the leash.
#[derive(Clone, Copy)]
pub struct Step {
    pub to: Point,
    pub length: Rank,
    pub held: Point,
}

/// What is measured on the subject's mass.
pub struct MassReport {
    pub score: Rank,
    /// How far the mass is from the point.
    pub distance: Rank,
    /// How far below the point it is.
    pub drop: Rank,
    pub avg_eye: Rank,
    pub avg_skin: Rank,
    /// The blend towards it.
    pub step: Step,
}

/// What is measured on the anchor of a face.
pub struct AnchorReport {
    /// The height of the anchor point, as a share of the frame's.
    pub height: Rank,
    /// The face signal of the anchor, zero without one.
    pub signal: Rank,
}

/// The bounds of a face's rectangle that hold the point.
pub struct FaceFrame {
    /// 12% and 88% of its width.
    pub x0: Rank,
    pub x1: Rank,
    /// 6%, 52% and 80% of its height.
    pub y0: Rank,
    pub y_half: Rank,
    pub y_low: Rank,
    /// The lower edge of the lowest block that shows a pupil.
    pub y_pupil: Rank,
}

/// What is measured on the saliency peak.
pub struct PeakReport {
    pub peak: Point,
    /// How far it is from the point.
    pub distance: Rank,
    /// The peak in pixels.
    pub px: Rank,
    pub py: Rank,
    /// The face's rectangle with a margin, in pixels.
    pub left: Rank,
    pub right: Rank,
    pub top: Rank,
    pub bottom: Rank,
}

/// What the face lock does.
#[derive(Clone, Copy, Debug, PartialEq, Eq, Structural)]
pub enum Lock {
    /// The anchor is not plausible.
    Skipped,
    /// The face is too weak to move the point.
    Idle,
    /// The point goes to the face.
    Engaged,
}

impl Rule {
    /// The name of a rule.
    pub open spec fn called(self) -> Seq<char> {
        match self {
            Rule::StripFaceBlend => "StripFaceBlend"@,
            Rule::PortraitUpwardBias => "PortraitUpwardBias"@,
            Rule::EyeRefine => "EyeRefine"@,
            Rule::SubjectMassBlend => "SubjectMassBlend"@,
            Rule::FaceLock => "FaceLock"@,
            Rule::DriftBudget => "DriftBudget"@,
            Rule::SaliencySnap => "SaliencySnap"@,
        }
    }

    /// The name of a rule.
    pub fn name(&self) -> (r: &'static str)
        ensures
            r@ == self.called(),
            *self == Rule::StripFaceBlend ==> r@ == "StripFaceBlend"@,
            *self == Rule::PortraitUpwardBias ==> r@ == "PortraitUpwardBias"@,
            *self == Rule::EyeRefine ==> r@ == "EyeRefine"@,
            *self == Rule::SubjectMassBlend ==> r@ == "SubjectMassBlend"@,
            *self == Rule::FaceLock ==> r@ == "FaceLock"@,
            *self == Rule::DriftBudget ==> r@ == "DriftBudget"@,
            *self == Rule::SaliencySnap ==> r@ == "SaliencySnap"@,
    {
        match self {
            Rule::StripFaceBlend => "StripFaceBlend",
            Rule::PortraitUpwardBias => "PortraitUpwardBias",
            Rule::EyeRefine => "EyeRefine",
            Rule::SubjectMassBlend => "SubjectMassBlend",
            Rule::FaceLock => "FaceLock",
            Rule::DriftBudget => "DriftBudget",
            Rule::SaliencySnap => "SaliencySnap",
        }
    }

    /// The rules that run once a frame is scored, in order.
    pub fn opening() -> (r: Vec<Rule>)
        ensures
            r@ == seq![Rule::StripFaceBlend, Rule::PortraitUpwardBias],
    {
        let r: Vec<Rule> = vec![Rule::StripFaceBlend, Rule::PortraitUpwardBias];
        assert(r@ == seq![Rule::StripFaceBlend, Rule::PortraitUpwardBias]);
        r
    }

    /// The rules that run for each lock mode after these, in order.
    pub fn tail() -> (r: Vec<Rule>)
        ensures
            r@ == seq![
                Rule::EyeRefine,
                Rule::SubjectMassBlend,
                Rule::FaceLock,
                Rule::DriftBudget,
                Rule::SaliencySnap,
            ],
    {
        let r: Vec<Rule> = vec![
            Rule::EyeRefine,
            Rule::SubjectMassBlend,
            Rule::FaceLock,
            Rule::DriftBudget,
            Rule::SaliencySnap,
        ];
        assert(r@ == seq![
            Rule::EyeRefine,
            Rule::SubjectMassBlend,
            Rule::FaceLock,
            Rule::DriftBudget,
            Rule::SaliencySnap,
        ]);
        r
    }
}

/// Where a step ends on a leash.
pub open spec fn leashed(step: Step, leash: int) -> Point {
    if step.length > leash {
        step.held
    } else {
        step.to
    }
}

/// Where a step ends on a leash.
pub fn take(step: &Step, leash: Rank) -> (r: Point)
    ensures
        r == leashed(*step, leash as int),
        step.length <= leash ==> r == step.to,
        step.length > leash ==> r == step.held,
{
    if step.length > leash {
        step.held
    } else {
        step.to
    }
}

/// Whether the point is nudged up: the frame is not wide, and much of it is
/// skin.
pub fn biases_upward(frame: &Frame, skin_mean: Rank) -> (r: bool)
    ensures
        r == (!frame.wide() && skin_mean > AT_018),
        r == (5 * frame.w <= 8 * frame.h && skin_mean > AT_018),
{
    !frame.is_wide() && skin_mean > AT_018
}

/// Whether the point is drawn to the subject's mass: the mass scores well, is
/// some way off, shows a trace of eyes, and is not bare skin far below.
pub open spec fn mass_draws(m: MassReport) -> bool {
    &&& m.score >= AT_150
    &&& m.distance >= AT_008
    &&& m.avg_eye >= AT_0005
    &&& !(m.drop > AT_025 && m.avg_skin > AT_060)
}

/// How far the lock may move the point: any distance to a verified anchor,
/// farther where two pupils confirm the face.
pub open spec fn lock_leash(mode: LockMode, pupils: nat) -> int {
    if mode == LockMode::Uncapped {
        INFINITE as int
    } else if pupils >= 2 {
        AT_030 as int
    } else {
        AT_016 as int
    }
}

/// How far the lock may move the point.
pub fn leash_of(mode: LockMode, region: &FaceRegion) -> (r: Rank)
    ensures
        r == lock_leash(mode, crate::face_region::pupils(region.face_blocks@)),
        mode == LockMode::Uncapped ==> r == INFINITE,
        mode != LockMode::Uncapped && crate::face_region::pupils(region.face_blocks@) >= 2 ==> r
            == AT_030,
        mode != LockMode::Uncapped && crate::face_region::pupils(region.face_blocks@) <= 1 ==> r
            == AT_016,
{
    if mode == LockMode::Uncapped {
        INFINITE
    } else if region.pupil_count() >= 2 {
        AT_030
    } else {
        AT_016
    }
}

/// Whether the anchor is not plausible: low in the frame and without eyes, for
/// a lock of normal authority; any anchor once it was rejected.
pub open spec fn implausible(mode: LockMode, region: FaceRegion, a: AnchorReport) -> bool {
    mode == LockMode::Skip || (mode == LockMode::Normal && a.height > AT_040
        && region.anchored_eye() < AT_015)
}

/// Whether a face is strong enough for the lock: eyes are seen, it has enough
/// blocks, and its anchor has the signal.
pub open spec fn lockable(region: FaceRegion, a: AnchorReport) -> bool {
    region.eyes_seen() && region.face_blocks@.len() >= MIN_FACE && a.signal >= AT_018
}

/// What the lock does.
pub open spec fn lock_for(mode: LockMode, region: FaceRegion, a: AnchorReport) -> Lock {
    if implausible(mode, region, a) {
        Lock::Skipped
    } else if lockable(region, a) {
        Lock::Engaged
    } else {
        Lock::Idle
    }
}

/// What the lock does.
pub fn lock_decision(mode: LockMode, region: &FaceRegion, a: &AnchorReport) -> (r: Lock)
    ensures
        r == lock_for(mode, *region, *a),
        mode == LockMode::Skip ==> r == Lock::Skipped,
        mode == LockMode::Normal && a.height > AT_040 && region.anchored_eye() < AT_015 ==> r
            == Lock::Skipped,
        r == Lock::Engaged ==> region.face_blocks@.len() >= 4 && a.signal >= AT_018,
{
    if mode == LockMode::Skip || (mode == LockMode::Normal && a.height > AT_040
        && region.anchor_eye() < AT_015) {
        Lock::Skipped
    } else if region.has_eye() && region.face_blocks.len() >= MIN_FACE && a.signal >= AT_018 {
        Lock::Engaged
    } else {
        Lock::Idle
    }
}

impl FaceFrame {
    /// The lower bound of the point: half way down the rectangle, or as far
    /// down as pupils are seen, but not below 80%.
    pub open spec fn y_cap(&self) -> int {
        crate::rank::max_rank(
            self.y_half as int,
            crate::rank::min_rank(self.y_pupil as int, self.y_low as int),
        )
    }

    /// The bounds for the point.
    pub open spec fn bounds(&self) -> FaceClamp {
        FaceClamp { x0: self.x0, x1: self.x1, y0: self.y0, y1: self.y_cap() as Rank }
    }

    /// The bounds for the point.
    pub fn clamp(&self) -> (r: FaceClamp)
        ensures
            r == self.bounds(),
            r.y1 == self.y_cap(),
            r.x0 == self.x0 && r.x1 == self.x1 && r.y0 == self.y0,
            r.y1 >= self.y_half,
            self.y_pupil <= self.y_half ==> r.y1 == self.y_half,
            self.y_half <= self.y_pupil <= self.y_low ==> r.y1 == self.y_pupil,
            self.y_half <= self.y_low <= self.y_pupil ==> r.y1 == self.y_low,
    {
        FaceClamp {
            x0: self.x0,
            x1: self.x1,
            y0: self.y0,
            y1: larger(self.y_half, smaller(self.y_pupil, self.y_low)),
        }
    }
}

impl FaceClamp {
    /// Whether a point is inside.
    pub open spec fn holds(&self, p: Point) -> bool {
        self.x0 <= p.x <= self.x1 && self.y0 <= p.y <= self.y1
    }

    /// Whether there is room inside.
    pub open spec fn open(&self) -> bool {
        self.x0 <= self.x1 && self.y0 <= self.y1
    }

    /// A point moved inside; the upper bounds win where there is no room.
    pub open spec fn moved_in(&self, p: Point) -> Point {
        Point {
            x: crate::rank::min_rank(
                crate::rank::max_rank(p.x as int, self.x0 as int),
                self.x1 as int,
            ) as Rank,
            y: crate::rank::min_rank(
                crate::rank::max_rank(p.y as int, self.y0 as int),
                self.y1 as int,
            ) as Rank,
        }
    }

    /// A point moved inside.
    pub fn apply(&self, p: Point) -> (r: Point)
        ensures
            r == self.moved_in(p),
            self.open() ==> self.holds(r),
            self.open() && self.holds(p) ==> r == p,
            p.x >= self.x1 ==> r.x == self.x1,
            p.y >= self.y1 ==> r.y == self.y1,
            p.x <= self.x0 <= self.x1 ==> r.x == self.x0,
            p.y <= self.y0 <= self.y1 ==> r.y == self.y0,
            self.x0 <= p.x <= self.x1 ==> r.x == p.x,
            self.y0 <= p.y <= self.y1 ==> r.y == p.y,
    {
        Point { x: clamp(p.x, self.x0, self.x1), y: clamp(p.y, self.y0, self.y1) }
    }
}

/// How far the rules after the refinement may move the point together: farther
/// with two pupils, or with one and a clear eye band at the anchor.
pub open spec fn drift_budget(face: Option<FaceRegion>) -> int {
    match face {
        Some(f) => {
            let n = crate::face_region::pupils(f.face_blocks@);
            if n >= 2 || (n >= 1 && f.anchored_eye() >= AT_020) {
                AT_034 as int
            } else {
                AT_018 as int
            }
        },
        None => AT_018 as int,
    }
}

/// Whether the point may be drawn to the saliency peak: in a frame without
/// colour, or in one with colour where no pupil is seen.
pub open spec fn snap_applies(mono: bool, colour: bool, face: Option<FaceRegion>) -> bool {
    mono || (colour && match face {
        Some(f) => crate::face_region::pupils(f.face_blocks@) == 0,
        None => true,
    })
}

/// Whether there is a face with blocks.
pub open spec fn face_seen(face: Option<FaceRegion>) -> bool {
    face matches Some(f) && f.face_blocks@.len() > 0
}

/// Whether the peak is far outside the face.
pub open spec fn peak_outside(p: PeakReport) -> bool {
    p.px < p.left || p.px > p.right || p.py < p.top || p.py > p.bottom
}

/// How far the peak may be from the point: farthest without colour, and
/// farther where no face is seen.
pub open spec fn snap_leash(mono: bool, face: Option<FaceRegion>) -> Rank {
    if mono {
        AT_017
    } else if !face_seen(face) {
        AT_0145
    } else {
        AT_0135
    }
}

/// Whether the point goes to the peak.
pub open spec fn snaps(
    mono: bool,
    colour: bool,
    face: Option<FaceRegion>,
    p: PeakReport,
    leash: Rank,
) -> bool {
    &&& snap_applies(mono, colour, face)
    &&& mono || !face_seen(face) || !peak_outside(p)
    &&& p.distance <= leash
}

impl PointState {
    /// The point before any rule of the tail has run.
    pub fn start(at: Point) -> (r: PointState)
        ensures
            r == (PointState {
                at,
                refined: at,
                face: None,
                face_clamp: None,
                lock_skipped: false,
            }),
    {
        PointState { at, refined: at, face: None, face_clamp: None, lock_skipped: false }
    }

    /// The faces that are handed on count their paired pupils right.
    pub open spec fn well_formed(&self) -> bool {
        self.face matches Some(f) ==> f.well_formed()
    }

    /// The strip search moves the point, if it leads anywhere.
    pub fn blend_strip(&mut self, target: Option<Point>)
        ensures
            *final(self) == (PointState {
                at: match target {
                    Some(p) => p,
                    None => old(self).at,
                },
                ..*old(self)
            }),
            target is None ==> *final(self) == *old(self),
            target matches Some(p) ==> final(self).at == p,
            final(self).refined == old(self).refined && final(self).face == old(self).face,
            final(self).face_clamp == old(self).face_clamp,
            final(self).lock_skipped == old(self).lock_skipped,
    {
        if let Some(p) = target {
            self.at = p;
        }
    }

    /// A portrait's point is nudged up, if much of the frame is skin.
    pub fn bias_upward(&mut self, frame: &Frame, skin_mean: Rank, raised_y: Rank)
        ensures
            5 * frame.w <= 8 * frame.h && skin_mean > AT_018 ==> final(self).at.y == raised_y,
            5 * frame.w > 8 * frame.h || skin_mean <= AT_018 ==> final(self).at == old(self).at,
            *final(self) == (PointState {
                at: if !frame.wide() && skin_mean > AT_018 {
                    Point { x: old(self).at.x, y: raised_y }
                } else {
                    old(self).at
                },
                ..*old(self)
            }),
    {
        if biases_upward(frame, skin_mean) {
            self.at = Point { x: self.at.x, y: raised_y };
        }
    }

    /// The refinement moves the point, and later rules measure from there.
    pub fn refine(&mut self, to: Point)
        ensures
            *final(self) == (PointState { at: to, refined: to, ..*old(self) }),
            final(self).at == to && final(self).refined == to,
            final(self).face == old(self).face && final(self).face_clamp == old(self).face_clamp,
            final(self).lock_skipped == old(self).lock_skipped,
    {
        self.at = to;
        self.refined = to;
    }

    /// The subject's mass draws the point, if there is one that can.
    pub fn blend_mass(&mut self, mass: &Option<MassReport>)
        ensures
            *mass is None ==> final(self).at == old(self).at,
            *mass matches Some(m) ==> (m.score < AT_150 || m.distance < AT_008 || m.avg_eye < AT_0005
                || (m.drop > AT_025 && m.avg_skin > AT_060) ==> final(self).at == old(self).at),
            *mass matches Some(m) ==> (m.score >= AT_150 && m.distance >= AT_008 && m.avg_eye
                >= AT_0005 && (m.drop <= AT_025 || m.avg_skin <= AT_060) ==> final(self).at == if m.step.length
                <= AT_016 {
                m.step.to
            } else {
                m.step.held
            }),
            *final(self) == (PointState {
                at: match *mass {
                    Some(m) => if mass_draws(m) {
                        leashed(m.step, AT_016 as int)
                    } else {
                        old(self).at
                    },
                    None => old(self).at,
                },
                ..*old(self)
            }),
    {
        if let Some(m) = mass {
            let body: bool = m.drop > AT_025 && m.avg_skin > AT_060;
            if m.score >= AT_150 && m.distance >= AT_008 && m.avg_eye >= AT_0005 && !body {
                self.at = take(&m.step, AT_016);
            }
        }
    }

    /// The lock does not act: the face is handed on, and nothing else changes.
    /// Where the anchor was not plausible the drift budget will not run either.
    pub fn pass_lock(&mut self, region: FaceRegion, skipped: bool)
        ensures
            *final(self) == (PointState {
                face: Some(region),
                face_clamp: None,
                lock_skipped: old(self).lock_skipped || skipped,
                ..*old(self)
            }),
            final(self).at == old(self).at && final(self).refined == old(self).refined,
            final(self).face == Some(region) && final(self).face_clamp is None,
            skipped ==> final(self).lock_skipped,
            !skipped ==> final(self).lock_skipped == old(self).lock_skipped,
    {
        self.face = Some(region);
        self.face_clamp = None;
        if skipped {
            self.lock_skipped = true;
        }
    }

    /// Whether the drift budget runs.
    pub open spec fn budgeted(&self, mode: LockMode) -> bool {
        mode == LockMode::Normal && !self.lock_skipped
    }

    /// Where the drift budget leaves the point: `drift` is the whole way from
    /// the refined point.
    pub open spec fn within_budget(&self, drift: Step) -> Point {
        let p = leashed(drift, drift_budget(self.face));
        match self.face_clamp {
            Some(c) => c.moved_in(p),
            None => p,
        }
    }

    /// Whether the drift budget runs.
    pub fn has_budget(&self, mode: LockMode) -> (r: bool)
        ensures
            r == self.budgeted(mode),
            r == (mode == LockMode::Normal && !self.lock_skipped),
    {
        mode == LockMode::Normal && !self.lock_skipped
    }

    /// How far the rules after the refinement may move the point together.
    pub fn budget(&self) -> (r: Rank)
        ensures
            r == drift_budget(self.face),
            self.face is None ==> r == AT_018,
            self.face matches Some(f) ==> (crate::face_region::pupils(f.face_blocks@) == 0 ==> r
                == AT_018),
            self.face matches Some(f) ==> (crate::face_region::pupils(f.face_blocks@) == 1 ==> r
                == if f.anchored_eye() >= AT_020 {
                AT_034
            } else {
                AT_018
            }),
            self.face matches Some(f) ==> (crate::face_region::pupils(f.face_blocks@) >= 2 ==> r
                == AT_034),
    {
        match &self.face {
            Some(f) => {
                let n: usize = f.pupil_count();
                if n >= 2 || (n >= 1 && f.anchor_eye() >= AT_020) {
                    AT_034
                } else {
                    AT_018
                }
            },
            None => AT_018,
        }
    }

    /// The drift budget holds the point, and the bounds of a confirmed face
    /// take it back inside. `drift` is the whole way from the refined point.
    pub fn spend(&mut self, mode: LockMode, drift: &Step)
        ensures
            *final(self) == (if old(self).budgeted(mode) {
                PointState { at: old(self).within_budget(*drift), ..*old(self) }
            } else {
                *old(self)
            }),
    {
        if self.has_budget(mode) {
            let p = take(drift, self.budget());
            self.at = match &self.face_clamp {
                Some(c) => c.apply(p),
                None => p,
            };
        }
    }

    /// Whether the point may be drawn to the saliency peak.
    pub fn may_snap(&self, mono: bool, colour: bool) -> (r: bool)
        ensures
            r == snap_applies(mono, colour, self.face),
            mono ==> r,
            !mono && !colour ==> !r,
            !mono && colour && self.face is None ==> r,
            !mono && colour ==> (self.face matches Some(f) ==> r == (crate::face_region::pupils(
                f.face_blocks@,
            ) == 0)),
    {
        let no_pupils: bool = match &self.face {
            Some(f) => f.pupil_count() == 0,
            None => true,
        };
        mono || (colour && no_pupils)
    }

    /// How far the peak may be from the point, unless it is set otherwise.
    pub fn snap_reach(&self, mono: bool) -> (r: Rank)
        ensures
            r == snap_leash(mono, self.face),
            mono ==> r == AT_017,
            !mono && self.face is None ==> r == AT_0145,
            !mono ==> (self.face matches Some(f) ==> r == if f.face_blocks@.len() == 0 {
                AT_0145
            } else {
                AT_0135
            }),
    {
        let seen: bool = match &self.face {
            Some(f) => f.face_blocks.len() > 0,
            None => false,
        };
        if mono {
            AT_017
        } else if !seen {
            AT_0145
        } else {
            AT_0135
        }
    }

    /// The point goes to the saliency peak, if that is near enough.
    pub fn snap(&mut self, mono: bool, colour: bool, p: &PeakReport, leash: Rank)
        ensures
            *final(self) == (PointState {
                at: if snaps(mono, colour, old(self).face, *p, leash) {
                    p.peak
                } else {
                    old(self).at
                },
                ..*old(self)
            }),
            final(self).at == old(self).at || final(self).at == p.peak,
            p.distance > leash ==> final(self).at == old(self).at,
            !mono && !colour ==> final(self).at == old(self).at,
            mono && p.distance <= leash ==> final(self).at == p.peak,
            !mono ==> (old(self).face matches Some(f) ==> (crate::face_region::pupils(
                f.face_blocks@,
            ) >= 1 ==> final(self).at == old(self).at)),
            !mono ==> (old(self).face matches Some(f) ==> (f.face_blocks@.len() > 0 && !(p.left
                <= p.px <= p.right && p.top <= p.py <= p.bottom) ==> final(self).at == old(self).at)),
            colour && p.distance <= leash && p.left <= p.px <= p.right && p.top <= p.py <= p.bottom
                ==> (old(self).face matches Some(f) ==> (crate::face_region::pupils(f.face_blocks@)
                == 0 ==> final(self).at == p.peak)),
            colour && p.distance <= leash && old(self).face is None ==> final(self).at == p.peak,
            colour && p.distance <= leash ==> (old(self).face matches Some(f) ==> (
            f.face_blocks@.len() == 0 ==> final(self).at == p.peak)),
    {
        if !self.may_snap(mono, colour) {
            return;
        }
        let seen: bool = match &self.face {
            Some(f) => f.face_blocks.len() > 0,
            None => false,
        };
        let outside: bool = p.px < p.left || p.px > p.right || p.py < p.top || p.py > p.bottom;
        if !mono && seen && outside {
            return;
        }
        if p.distance <= leash {
            self.at = p.peak;
        }
    }
}

/// Where the lock takes the point before its leash is applied again: the blend
/// towards the eyes on the leash, moved into the face's rectangle.
pub fn lock_target(blend: &Step, leash: Rank, frame: &FaceFrame) -> (r: Point)
    ensures
        r == frame.bounds().moved_in(leashed(*blend, leash as int)),
        blend.length <= leash ==> r == frame.bounds().moved_in(blend.to),
        blend.length > leash ==> r == frame.bounds().moved_in(blend.held),
{
    let p = take(blend, leash);
    frame.clamp().apply(p)
}

/// A coordinate kept in bounds; what is not a number ends at the lower one.
pub open spec fn settled(v: Option<Rank>, lo: Rank, hi: Rank) -> int {
    match v {
        Some(k) => crate::rank::min_rank(
            crate::rank::max_rank(k as int, lo as int),
            hi as int,
        ),
        None => lo as int,
    }
}

fn settle_one(v: Option<Rank>, lo: Rank, hi: Rank) -> (r: Rank)
    requires
        lo <= hi,
    ensures
        r == settled(v, lo, hi),
        lo <= r <= hi,
{
    match v {
        Some(k) => clamp(k, lo, hi),
        None => lo,
    }
}

/// A point in hundredths of the frame's width and height.
#[derive(Clone, Copy, Debug, PartialEq, Eq, Structural)]
pub struct Hundredths {
    pub x: u32,
    pub y: u32,
}

/// A coordinate in hundredths, kept in bounds; what is not a number ends at the
/// lower one.
pub open spec fn kept_between(v: Option<i64>, lo: int, hi: int) -> int {
    match v {
        Some(k) => if k < lo {
            lo
        } else if k > hi {
            hi
        } else {
            k as int
        },
        None => lo,
    }
}

fn keep_between(v: Option<i64>, lo: u32, hi: u32) -> (r: u32)
    requires
        lo <= hi,
    ensures
        r == kept_between(v, lo as int, hi as int),
{
    match v {
        Some(k) => if k < lo as i64 {
            lo
        } else if k > hi as i64 {
            hi
        } else {
            k as u32
        },
        None => lo,
    }
}

/// The answer: the point after all rules, rounded to whole hundredths and kept
/// off the edges of the frame.
pub fn settle(x: Option<i64>, y: Option<i64>) -> (r: Hundredths)
    ensures
        r.x == kept_between(x, 5, 95),
        r.y == kept_between(y, 8, 92),
        5 <= r.x <= 95,
        8 <= r.y <= 92,
        x is None ==> r.x == 5,
        x matches Some(k) ==> (k <= 5 ==> r.x == 5) && (5 <= k <= 95 ==> r.x == k) && (k >= 95
            ==> r.x == 95),
        y is None ==> r.y == 8,
        y matches Some(k) ==> (k <= 8 ==> r.y == 8) && (8 <= k <= 92 ==> r.y == k) && (k >= 92
            ==> r.y == 92),
{
    Hundredths { x: keep_between(x, 5, 95), y: keep_between(y, 8, 92) }
}

/// The answer without the rules of the tail: the point, kept in the frame.
pub fn settle_raw(x: Option<Rank>, y: Option<Rank>) -> (r: Point)
    ensures
        r.x == settled(x, 0, AT_100),
        r.y == settled(y, 0, AT_100),
        0 <= r.x <= AT_100,
        0 <= r.y <= AT_100,
        x is None ==> r.x == 0,
        x matches Some(k) ==> (k <= 0 ==> r.x == 0) && (0 <= k <= AT_100 ==> r.x == k) && (k
            >= AT_100 ==> r.x == AT_100),
        y is None ==> r.y == 0,
        y matches Some(k) ==> (k <= 0 ==> r.y == 0) && (0 <= k <= AT_100 ==> r.y == k) && (k
            >= AT_100 ==> r.y == AT_100),
{
    Point { x: settle_one(x, 0, AT_100), y: settle_one(y, 0, AT_100) }
}

/// Whether pupils confirm a face: two of them, or one of an eye pair.
pub open spec fn confirmed(f: FaceRegion) -> bool {
    crate::face_region::pupils(f.face_blocks@) >= 2 || f.paired_pupil_count >= 1
}

/// Once pupils confirm a face in a frame with colour, neither the drift budget
/// nor the saliency peak takes the point out of its bounds.
pub proof fn a_confirmed_face_keeps_the_point(
    st: PointState,
    bounds: FaceClamp,
    drift: Step,
    colour: bool,
    p: PeakReport,
    leash: Rank,
)
    requires
        st.well_formed(),
        st.face matches Some(f) && confirmed(f),
        st.face_clamp == Some(bounds),
        bounds.open(),
        st.budgeted(LockMode::Normal),
    ensures
        bounds.holds(st.within_budget(drift)),
        !snaps(false, colour, st.face, p, leash),
{
}

/// A rejected anchor never moves the point: the lock is skipped, and the drift
/// budget does not run.
pub proof fn a_rejected_anchor_never_moves_the_point(
    st: PointState,
    region: FaceRegion,
    a: AnchorReport,
)
    ensures
        lock_for(LockMode::Skip, region, a) == Lock::Skipped,
        !st.budgeted(LockMode::Skip),
{
}

/// A lock that was skipped leaves the drift budget nothing to do.
pub proof fn a_skipped_lock_has_no_budget(st: PointState, mode: LockMode)
    requires
        st.lock_skipped,
    ensures
        !st.budgeted(mode),
{
}

/// A verified anchor is not gated by its height, its leash holds no step back,
/// and there is no drift budget.
pub proof fn a_verified_anchor_is_reached(
    st: PointState,
    region: FaceRegion,
    a: AnchorReport,
    step: Step,
    pupils: nat,
)
    requires
        crate::rank::in_range(step.length as int),
    ensures
        lock_for(LockMode::Uncapped, region, a) != Lock::Skipped,
        leashed(step, lock_leash(LockMode::Uncapped, pupils)) == step.to,
        !st.budgeted(LockMode::Uncapped),
{
}

/// The saliency peak only refines a point near it: by no more than 0.17
/// without colour, 0.145 with colour and no face, and 0.135 with a face, which
/// it also has to be at.
pub proof fn snapping_cannot_teleport(
    mono: bool,
    colour: bool,
    face: Option<FaceRegion>,
    p: PeakReport,
)
    requires
        snaps(mono, colour, face, p, snap_leash(mono, face)),
    ensures
        p.distance <= AT_017,
        !mono ==> p.distance <= AT_0145,
        !mono && face_seen(face) ==> p.distance <= AT_0135 && !peak_outside(p),
        !mono && face_seen(face) ==> p.left <= p.px <= p.right && p.top <= p.py <= p.bottom,
{
}

/// Pupils keep a frame with colour from snapping to the saliency peak.
pub proof fn pupils_prevent_the_colour_snap(
    colour: bool,
    f: FaceRegion,
    p: PeakReport,
    leash: Rank,
)
    requires
        crate::face_region::pupils(f.face_blocks@) >= 1,
    ensures
        !snaps(false, colour, Some(f), p, leash),
{
}

/// More pupils never shorten the leash of the lock.
pub proof fn pupils_lengthen_the_leash(mode: LockMode, few: nat, many: nat)
    requires
        few <= many,
    ensures
        lock_leash(mode, few) <= lock_leash(mode, many),
{
}

/// In a frame with colour a face keeps the point from a peak that is to the left
/// or the right of it, above or below it; a peak at the face, near enough and
/// where no pupil is seen, draws the point.
pub proof fn a_face_vetoes_peaks_beside_it(f: FaceRegion, p: PeakReport, colour: bool, leash: Rank)
    requires
        f.face_blocks@.len() > 0,
    ensures
        p.px < p.left ==> !snaps(false, colour, Some(f), p, leash),
        p.px > p.right ==> !snaps(false, colour, Some(f), p, leash),
        p.py < p.top ==> !snaps(false, colour, Some(f), p, leash),
        p.py > p.bottom ==> !snaps(false, colour, Some(f), p, leash),
        p.distance > leash ==> !snaps(false, colour, Some(f), p, leash),
        colour && p.left <= p.px <= p.right && p.top <= p.py <= p.bottom && p.distance <= leash
            && crate::face_region::pupils(f.face_blocks@) == 0 ==> snaps(
            false,
            colour,
            Some(f),
            p,
            leash,
        ),
{
}

/// Where no face is seen, or the frame has no colour, only the distance decides
/// whether a peak that may draw the point does: wherever it is, the nearer of two
/// peaks draws if the farther one does.
pub proof fn without_a_face_nearness_decides(
    mono: bool,
    near: PeakReport,
    far: PeakReport,
    leash: Rank,
)
    requires
        near.distance <= far.distance,
    ensures
        snaps(mono, true, None, far, leash) ==> snaps(mono, true, None, near, leash),
        snaps(mono, true, None, near, leash) <==> near.distance <= leash,
        forall|f: FaceRegion, colour: bool|
            #[trigger] snaps(true, colour, Some(f), near, leash) == (near.distance <= leash),
        snap_leash(true, None) == AT_017,
        snap_leash(false, None) == AT_0145,
        forall|f: FaceRegion|
            #[trigger] snap_leash(false, Some(f)) == if f.face_blocks@.len() > 0 {
                AT_0135
            } else {
                AT_0145
            },
{
}

/// The lock of a face with two pupils walks 0.30 and that of any other 0.16; a
/// step of 0.16 or less is never held, whatever is seen, and ends at its target
/// moved into the face.
pub proof fn short_steps_reach_the_face(mode: LockMode, pupils: nat, step: Step, frame: FaceFrame)
    ensures
        mode == LockMode::Normal && pupils >= 2 ==> lock_leash(mode, pupils) == AT_030,
        mode == LockMode::Normal && pupils == 1 ==> lock_leash(mode, pupils) == AT_016,
        mode == LockMode::Normal && pupils == 0 ==> lock_leash(mode, pupils) == AT_016,
        mode == LockMode::Uncapped ==> lock_leash(mode, pupils) == INFINITE,
        step.length <= AT_016 ==> leashed(step, lock_leash(mode, pupils)) == step.to,
        step.length <= AT_016 ==> frame.bounds().moved_in(
            leashed(step, lock_leash(mode, pupils)),
        ) == frame.bounds().moved_in(step.to),
        mode == LockMode::Normal && step.length > AT_030 ==> leashed(step, lock_leash(mode, pupils))
            == step.held,
        mode == LockMode::Normal && AT_016 < step.length <= AT_030 ==> leashed(
            step,
            lock_leash(mode, pupils),
        ) == if pupils >= 2 {
            step.to
        } else {
            step.held
        },
{
}

/// What the lock does: a rejected anchor is skipped, one of usual authority only
/// where it is below 40% of the height with less than 0.15 of an eye band, a
/// verified one never; else it engages on four blocks with eyes and a signal of
/// 0.18, and on nothing less.
pub proof fn the_lock_needs_a_plausible_face(mode: LockMode, region: FaceRegion, a: AnchorReport)
    ensures
        mode == LockMode::Skip ==> lock_for(mode, region, a) == Lock::Skipped,
        mode == LockMode::Uncapped ==> lock_for(mode, region, a) != Lock::Skipped,
        mode == LockMode::Normal ==> (lock_for(mode, region, a) == Lock::Skipped <==> a.height
            > AT_040 && match region.anchor {
            Some(b) => b.eye_band < AT_015,
            None => true,
        }),
        lock_for(mode, region, a) == Lock::Engaged ==> region.face_blocks@.len() >= 4 && a.signal
            >= AT_018,
        lock_for(mode, region, a) == Lock::Engaged ==> exists|k: int|
            0 <= k < region.face_blocks@.len() && ((#[trigger] region.face_blocks@[k]).eye_band
                >= AT_010 || region.face_blocks@[k].radial >= AT_060),
        mode != LockMode::Skip && a.height <= AT_040 && a.signal >= AT_018
            && region.face_blocks@.len() >= 4 && (exists|k: int|
            0 <= k < region.face_blocks@.len() && (#[trigger] region.face_blocks@[k]).eye_band
                >= AT_010) ==> lock_for(mode, region, a) == Lock::Engaged,
        mode == LockMode::Uncapped && a.signal >= AT_018 && region.face_blocks@.len() >= 4 && (
        exists|k: int|
            0 <= k < region.face_blocks@.len() && crate::blocks::shows_pupil(
                #[trigger] region.face_blocks@[k],
            )) ==> lock_for(mode, region, a) == Lock::Engaged,
{
    if exists|k: int|
        0 <= k < region.face_blocks@.len() && (#[trigger] region.face_blocks@[k]).eye_band >= AT_010 {
        assert(region.eyes_seen());
    }
    if exists|k: int|
        0 <= k < region.face_blocks@.len() && crate::blocks::shows_pupil(
            #[trigger] region.face_blocks@[k],
        ) {
        assert(region.eyes_seen());
    }
    if region.eyes_seen() {
        let k = choose|k: int|
            0 <= k < region.face_blocks@.len() && ((#[trigger] region.face_blocks@[k]).eye_band
                >= AT_010 || crate::blocks::shows_pupil(region.face_blocks@[k]));
        assert(region.face_blocks@[k].eye_band >= AT_010 || region.face_blocks@[k].radial >= AT_060);
    }
}

/// A stronger signal never unlocks a face, nor does a higher anchor.
pub proof fn better_anchors_lock_no_less(
    mode: LockMode,
    region: FaceRegion,
    a: AnchorReport,
    b: AnchorReport,
)
    requires
        a.signal <= b.signal,
        b.height <= a.height,
        lock_for(mode, region, a) == Lock::Engaged,
    ensures
        lock_for(mode, region, b) == Lock::Engaged,
{
}

/// The bounds of a face: its sides as they are, its upper bound as it is, and
/// below at least half way down and at most 80%, reaching down to the pupils in
/// between.
pub proof fn bounds_reach_down_to_the_pupils(frame: FaceFrame)
    requires
        frame.y_half <= frame.y_low,
    ensures
        frame.bounds().x0 == frame.x0,
        frame.bounds().x1 == frame.x1,
        frame.bounds().y0 == frame.y0,
        frame.y_half <= frame.bounds().y1 <= frame.y_low,
        frame.y_pupil <= frame.y_half ==> frame.bounds().y1 == frame.y_half,
        frame.y_half <= frame.y_pupil <= frame.y_low ==> frame.bounds().y1 == frame.y_pupil,
        frame.y_low <= frame.y_pupil ==> frame.bounds().y1 == frame.y_low,
{
}

/// A point that is moved into bounds goes no farther than to the closest place
/// inside: a coordinate between its bounds stays, and one outside ends on the
/// bound that it was beyond.
pub proof fn points_move_to_the_closest_bound(c: FaceClamp, p: Point)
    requires
        c.x0 <= c.x1,
        c.y0 <= c.y1,
    ensures
        p.x < c.x0 ==> c.moved_in(p).x == c.x0,
        c.x0 <= p.x <= c.x1 ==> c.moved_in(p).x == p.x,
        c.x1 < p.x ==> c.moved_in(p).x == c.x1,
        p.y < c.y0 ==> c.moved_in(p).y == c.y0,
        c.y0 <= p.y <= c.y1 ==> c.moved_in(p).y == p.y,
        c.y1 < p.y ==> c.moved_in(p).y == c.y1,
        c.holds(p) <==> c.moved_in(p) == p,
        c.holds(p) <==> c.x0 <= p.x && p.x <= c.x1 && c.y0 <= p.y && p.y <= c.y1,
        c.open(),
{
}

/// The drift budget: 0.18, and 0.34 for a face with two pupils or with one whose
/// anchor has an eye band of 0.20.
pub proof fn pupils_earn_a_longer_walk(f: FaceRegion)
    ensures
        drift_budget(None) == AT_018,
        crate::face_region::pupils(f.face_blocks@) >= 2 ==> drift_budget(Some(f)) == AT_034,
        crate::face_region::pupils(f.face_blocks@) == 0 ==> drift_budget(Some(f)) == AT_018,
        crate::face_region::pupils(f.face_blocks@) == 1 ==> (f.anchor matches Some(a) ==> drift_budget(
            Some(f),
        ) == if a.eye_band >= AT_020 {
            AT_034
        } else {
            AT_018
        }),
        crate::face_region::pupils(f.face_blocks@) == 1 && f.anchor is None ==> drift_budget(Some(f))
            == AT_018,
{
}

/// A drift within the budget leaves the point where it is, unless a confirmed
/// face takes it inside; one beyond it ends where the budget holds it.
pub proof fn short_drifts_stand(st: PointState, drift: Step)
    ensures
        st.face_clamp is None && drift.length <= AT_018 ==> st.within_budget(drift) == drift.to,
        st.face_clamp is None && drift.length > AT_034 ==> st.within_budget(drift) == drift.held,
        st.face_clamp is None && st.face is None && drift.length > AT_018 ==> st.within_budget(drift)
            == drift.held,
        st.face_clamp matches Some(c) ==> (drift.length <= AT_018 ==> st.within_budget(drift)
            == c.moved_in(drift.to)),
        st.face_clamp matches Some(c) ==> (drift.length > AT_034 ==> st.within_budget(drift)
            == c.moved_in(drift.held)),
        st.budgeted(LockMode::Normal) <==> !st.lock_skipped,
        !st.budgeted(LockMode::Skip),
        !st.budgeted(LockMode::Uncapped),
{
}

/// A mass draws the point if it scores 1.5, is 0.08 away and has 0.005 of an eye
/// band, unless it is more than 0.25 below the point and more than 0.60 skin; it
/// never draws otherwise, and never by more than 0.16.
pub proof fn masses_draw_on_a_leash(m: MassReport)
    ensures
        m.score < AT_150 ==> !mass_draws(m),
        m.distance < AT_008 ==> !mass_draws(m),
        m.avg_eye < AT_0005 ==> !mass_draws(m),
        m.drop > AT_025 && m.avg_skin > AT_060 ==> !mass_draws(m),
        m.score >= AT_150 && m.distance >= AT_008 && m.avg_eye >= AT_0005 && m.drop <= AT_025
            ==> mass_draws(m),
        m.score >= AT_150 && m.distance >= AT_008 && m.avg_eye >= AT_0005 && m.avg_skin <= AT_060
            ==> mass_draws(m),
        m.step.length <= AT_016 ==> leashed(m.step, AT_016 as int) == m.step.to,
        m.step.length > AT_016 ==> leashed(m.step, AT_016 as int) == m.step.held,
{
}

/// A face is confirmed by two pupils or by one of an eye pair, and by nothing
/// less.
pub proof fn lone_pupils_confirm_nothing(f: FaceRegion)
    ensures
        crate::face_region::pupils(f.face_blocks@) >= 2 ==> confirmed(f),
        f.paired_pupil_count >= 1 ==> confirmed(f),
        crate::face_region::pupils(f.face_blocks@) <= 1 && f.paired_pupil_count == 0
            ==> !confirmed(f),
{
}

/// Answers are whole hundredths kept 5 off the sides and 8 off the top and the
/// bottom: those in between stay, and what is not a number ends at the upper left.
pub proof fn answers_are_kept_off_the_edges(v: i64, lo: int, hi: int)
    requires
        lo <= hi,
    ensures
        v < lo ==> kept_between(Some(v), lo, hi) == lo,
        lo <= v <= hi ==> kept_between(Some(v), lo, hi) == v,
        hi < v ==> kept_between(Some(v), lo, hi) == hi,
        kept_between(None, lo, hi) == lo,
{
}

/// A raw answer is kept between its bounds in the same way.
pub proof fn raw_answers_are_kept_in_the_frame(v: Rank, lo: Rank, hi: Rank)
    requires
        lo <= hi,
    ensures
        v < lo ==> settled(Some(v), lo, hi) == lo,
        lo <= v <= hi ==> settled(Some(v), lo, hi) == v,
        hi < v ==> settled(Some(v), lo, hi) == hi,
        settled(None, lo, hi) == lo,
{
}

/// The leash of the lock as it is computed: under the usual authority 0.30 with two
/// pupils and 0.16 with one or none, and no end for a verified anchor.
pub proof fn computed_leashes_go_by_pupils(region: FaceRegion, normal: Rank, uncapped: Rank)
    requires
        call_ensures(leash_of, (LockMode::Normal, &region), normal),
        call_ensures(leash_of, (LockMode::Uncapped, &region), uncapped),
    ensures
        crate::face_region::pupils(region.face_blocks@) >= 2 ==> normal == AT_030,
        crate::face_region::pupils(region.face_blocks@) <= 1 ==> normal == AT_016,
        normal >= AT_016,
        uncapped == INFINITE,
        normal < uncapped,
{
}

/// A step goes all the way if it is no longer than the leash, and is held if it is
/// longer: a longer leash never holds what a shorter one let go.
pub proof fn longer_leashes_hold_no_more(step: Step, short: Rank, long: Rank, a: Point, b: Point)
    requires
        short <= long,
        call_ensures(take, (&step, short), a),
        call_ensures(take, (&step, long), b),
    ensures
        step.length <= short ==> a == step.to && b == step.to,
        short < step.length <= long ==> a == step.held && b == step.to,
        long < step.length ==> a == step.held && b == step.held,
{
}

/// Frames up to 8:5 with more than 0.18 of skin are biased upwards, and no others.
pub proof fn skin_in_narrow_frames_biases_upward(frame: Frame, skin_mean: Rank, r: bool)
    requires
        call_ensures(biases_upward, (&frame, skin_mean), r),
    ensures
        5 * frame.w > 8 * frame.h ==> !r,
        skin_mean <= AT_018 ==> !r,
        5 * frame.w <= 8 * frame.h && skin_mean > AT_018 ==> r,
{
}

/// Answers stay between 5 and 95 hundredths across and 8 and 92 down, where they
/// are what was computed.
pub proof fn answers_stay_off_the_edges(x: i64, y: i64, r: Hundredths, lost: Hundredths)
    requires
        call_ensures(settle, (Some(x), Some(y)), r),
        call_ensures(settle, (None::<i64>, None::<i64>), lost),
    ensures
        x <= 5 ==> r.x == 5,
        5 <= x <= 95 ==> r.x == x,
        x >= 95 ==> r.x == 95,
        y <= 8 ==> r.y == 8,
        8 <= y <= 92 ==> r.y == y,
        y >= 92 ==> r.y == 92,
        lost.x == 5 && lost.y == 8,
{
}

/// Each of the seven rules is listed once: first the strip search and the bias
/// upwards; then the refinement, the mass, the lock, the budget, and the snap.
pub proof fn rules_run_in_their_order(first: Vec<Rule>, then: Vec<Rule>)
    requires
        call_ensures(Rule::opening, (), first),
        call_ensures(Rule::tail, (), then),
    ensures
        first@.len() == 2 && then@.len() == 5,
        first@[0] == Rule::StripFaceBlend,
        first@[1] == Rule::PortraitUpwardBias,
        then@[0] == Rule::EyeRefine,
        then@[1] == Rule::SubjectMassBlend,
        then@[2] == Rule::FaceLock,
        then@[3] == Rule::DriftBudget,
        then@[4] == Rule::SaliencySnap,
        forall|i: int, j: int|
            0 <= i < j < 7 ==> #[trigger] (first@ + then@)[i] != #[trigger] (first@ + then@)[j],
{
}

/// Before any rule has run a point is its own refinement, no face is known, and no
/// lock was passed over.
pub proof fn points_start_without_a_face(at: Point, r: PointState)
    requires
        call_ensures(PointState::start, (at,), r),
    ensures
        r.at == at && r.refined == at,
        r.face is None && r.face_clamp is None,
        !r.lock_skipped,
{
}

} // verus!
