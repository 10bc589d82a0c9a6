//! What a frame shows, and what follows for saliency.

use crate::blocks::BlockMeta;
use crate::distance::is_within;
use crate::grid::Block;
use crate::marks::{
    AT_005, AT_006, AT_010, AT_012, AT_014, AT_016, AT_018, AT_020, AT_022, AT_024, AT_030, AT_055,
};
use crate::rank::Rank;
use crate::text::same_text;
use crate::ranking::{last_max, strongest};
use crate::selection::{all_of, sift};
use crate::weights::Category;
use vstd::prelude::*;

verus! {

/// The blocks of a frame and the average of its skin map.
pub struct Scene {
    pub blocks: Vec<BlockMeta>,
    pub skin_density: Rank,
}

/// The face-like blocks around the strongest eye band, and those far from all
/// of them.
pub struct Split {
    /// The block with the strongest eye band.
    pub peak: usize,
    /// The strongest eye band on skin.
    pub peak_skin_eye: Rank,
    /// The face-like blocks near the peak.
    pub primary: Vec<usize>,
    /// The face-like blocks far from all of these.
    pub separate: Vec<usize>,
}

/// What is measured on such a split.
pub struct Spacing {
    /// How far apart the average columns of the two are.
    pub x_separation: Rank,
    /// How far a separate block's column is from their average at most.
    pub x_spread: Rank,
    /// The radius of a cluster around the peak: 2.25 times the peak's width
    /// and height together.
    pub radius: Rank,
    /// 1.8 times that radius.
    pub far: Rank,
    /// The average eye band of the primary blocks.
    pub avg_eye: Rank,
}

/// Either what the frame shows, or the split that decides.
pub enum Survey {
    Settled(Category),
    Open(Split),
}

/// Whether a block is face-like: eye band, skin and face gradients.
pub open spec fn face_like(b: BlockMeta) -> bool {
    b.eye_band >= AT_010 && b.skin_density >= AT_010 && b.face_boost >= AT_010
}

/// What blocks are picked by.
#[derive(Clone, Copy)]
enum Flag<'a> {
    Foreground,
    OnSkin,
    ClearEyed,
    NearPeak { p: usize },
    Away { p: usize, around: &'a Vec<usize> },
}

impl Scene {
    /// The number of blocks.
    pub open spec fn n(&self) -> nat {
        self.blocks@.len()
    }

    /// The blocks that are not background.
    pub open spec fn foreground(&self) -> Seq<bool> {
        Seq::new(self.n(), |i: int| !self.blocks@[i].bg_suppressed)
    }

    /// The blocks that are not background.
    pub open spec fn active(&self) -> Seq<usize> {
        crate::selection::sifted(crate::selection::every(self.n()), self.foreground())
    }

    /// The eye bands of some blocks.
    pub open spec fn eye_bands(&self, pool: Seq<usize>) -> Seq<Rank> {
        Seq::new(pool.len(), |k: int| self.blocks@[pool[k] as int].eye_band)
    }

    /// The blocks with skin.
    pub open spec fn on_skin(&self) -> Seq<bool> {
        Seq::new(self.n(), |i: int| self.blocks@[i].skin_density >= AT_010)
    }

    /// The strongest eye band on skin, zero where there is none.
    pub open spec fn skin_eye(&self) -> int {
        crate::ranking::peak_of(
            self.eye_bands(crate::selection::sifted(self.active(), self.on_skin())),
        )
    }

    /// What the frame shows where nothing looks like eyes.
    pub open spec fn settled(&self) -> Option<Category> {
        if self.active().len() == 0 {
            Some(Category::Scene)
        } else if self.skin_eye() < AT_012 {
            if self.skin_density > AT_014 {
                Some(Category::People)
            } else {
                Some(Category::Scene)
            }
        } else {
            None
        }
    }

    /// Whether a block is the last of those with the strongest eye band.
    pub open spec fn is_peak(&self, p: int) -> bool {
        exists|k: int| #[trigger]
            crate::ranking::is_last_max(self.eye_bands(self.active()), k) && p == self.active()[k]
    }

    /// The peak's width and height together.
    pub open spec fn size(&self, p: int) -> int {
        self.blocks@[p].rect.w + self.blocks@[p].rect.h
    }

    /// The face-like blocks within the radius of the peak.
    pub open spec fn near_peak(&self, p: int) -> Seq<bool> {
        Seq::new(
            self.n(),
            |i: int|
                !self.blocks@[i].bg_suppressed && face_like(self.blocks@[i])
                    && crate::distance::within(
                    self.blocks@[i].rect,
                    self.blocks@[p].rect,
                    9,
                    4,
                    self.size(p),
                ),
        )
    }

    /// The face-like blocks near the peak.
    pub open spec fn primary_of(&self, p: int) -> Seq<usize> {
        crate::selection::sifted(crate::selection::every(self.n()), self.near_peak(p))
    }

    /// Whether a block is more than 1.8 radii from all given ones.
    pub open spec fn far_from(&self, pool: Seq<usize>, p: int, i: int) -> bool {
        forall|k: int|
            0 <= k < pool.len() ==> !crate::distance::within(
                self.blocks@[i].rect,
                self.blocks@[#[trigger] pool[k] as int].rect,
                81,
                20,
                self.size(p),
            )
    }

    /// The face-like blocks far from the primary ones, or from the peak where
    /// there are none.
    pub open spec fn away(&self, p: int) -> Seq<bool> {
        Seq::new(
            self.n(),
            |i: int|
                !self.blocks@[i].bg_suppressed && face_like(self.blocks@[i]) && self.far_from(
                    if self.primary_of(p).len() == 0 {
                        seq![p as usize]
                    } else {
                        self.primary_of(p)
                    },
                    p,
                    i,
                ),
        )
    }

    /// The face-like blocks far from the primary ones.
    pub open spec fn separate_of(&self, p: int) -> Seq<usize> {
        crate::selection::sifted(crate::selection::every(self.n()), self.away(p))
    }

    /// Whether a split is that of this frame.
    pub open spec fn splits(&self, s: Split) -> bool {
        &&& s.peak < self.n()
        &&& self.is_peak(s.peak as int)
        &&& s.peak_skin_eye == self.skin_eye()
        &&& s.primary@ == self.primary_of(s.peak as int)
        &&& s.separate@ == self.separate_of(s.peak as int)
    }

    /// Blocks with a clear eye band.
    pub open spec fn clear_eyed(&self) -> Seq<bool> {
        Seq::new(self.n(), |i: int| self.blocks@[i].eye_band >= AT_016)
    }

    /// The number of primary blocks with a clear eye band.
    pub open spec fn strong(&self, s: Split) -> nat {
        crate::selection::sifted(s.primary@, self.clear_eyed()).len()
    }

    /// Whether there is a second group of faces: at least three separate
    /// blocks, set apart by the radius or more, and no more than two and a half
    /// of them for each primary one.
    pub open spec fn is_group(&self, s: Split, m: Spacing) -> bool {
        &&& s.separate@.len() >= 3
        &&& m.x_separation >= m.radius
        &&& 5 * s.primary@.len() >= 2 * s.separate@.len()
    }

    /// Whether the separate blocks hang together.
    pub open spec fn coherent(&self, s: Split, m: Spacing) -> bool {
        s.separate@.len() <= 1 || m.x_spread < m.far
    }

    /// Whether one clear face stands alone.
    pub open spec fn isolated_face(&self, s: Split, m: Spacing) -> bool {
        let peak = self.blocks@[s.peak as int];
        &&& s.primary@.len() >= 1
        &&& s.peak_skin_eye >= AT_030
        &&& peak.skin_density >= AT_022
        &&& peak.face_boost >= AT_055
        &&& s.separate@.len() <= 1 || !self.coherent(s, m)
    }

    /// Whether one compact face is all there is.
    pub open spec fn compact_face(&self, s: Split, m: Spacing) -> bool {
        let peak = self.blocks@[s.peak as int];
        &&& !self.is_group(s, m)
        &&& s.primary@.len() >= 2
        &&& self.strong(s) >= 2
        &&& m.avg_eye >= AT_024
        &&& s.peak_skin_eye >= AT_030
        &&& peak.skin_density >= AT_018
        &&& peak.face_boost >= AT_055
    }

    /// Whether the frame is a portrait.
    pub open spec fn is_portrait(&self, s: Split, m: Spacing) -> bool {
        ||| s.primary@.len() >= 4
        ||| s.primary@.len() >= 3 && self.strong(s) >= 2 && m.avg_eye >= AT_020
        ||| s.peak_skin_eye >= AT_024 && self.skin_density >= AT_018 && self.strong(s) >= 1
            && s.separate@.len() <= 1
        ||| self.isolated_face(s, m)
        ||| self.compact_face(s, m)
    }

    /// What the frame shows, where something looks like eyes.
    pub open spec fn concluded(&self, s: Split, m: Spacing) -> Category {
        if self.is_group(s, m) {
            Category::Group
        } else if self.is_portrait(s, m) {
            Category::Portrait
        } else if self.skin_density > AT_006 {
            Category::People
        } else {
            Category::Scene
        }
    }

    fn bands_of(&self, pool: &Vec<usize>) -> (r: Vec<Rank>)
        requires
            crate::selection::all_below(pool@, self.n() as int),
        ensures
            r@ == self.eye_bands(pool@),
    {
        let mut r: Vec<Rank> = Vec::new();
        let mut k: usize = 0;
        while k < pool.len()
            invariant
                crate::selection::all_below(pool@, self.n() as int),
                0 <= k <= pool@.len(),
                r@ == self.eye_bands(pool@.take(k as int)),
            decreases pool@.len() - k,
        {
            r.push(self.blocks[pool[k]].eye_band);
            k = k + 1;
        }
        assert(pool@.take(k as int) == pool@);
        r
    }

    spec fn flagged(&self, flag: Flag, i: int) -> bool {
        match flag {
            Flag::Foreground => self.foreground()[i],
            Flag::OnSkin => self.on_skin()[i],
            Flag::ClearEyed => self.clear_eyed()[i],
            Flag::NearPeak { p } => self.near_peak(p as int)[i],
            Flag::Away { p, .. } => self.away(p as int)[i],
        }
    }

    spec fn admits(&self, flag: Flag) -> bool {
        match flag {
            Flag::NearPeak { p } => p < self.n(),
            Flag::Away { p, around } => {
                &&& p < self.n()
                &&& crate::selection::all_below(around@, self.n() as int)
                &&& around@ == if self.primary_of(p as int).len() == 0 {
                    seq![p]
                } else {
                    self.primary_of(p as int)
                }
            },
            _ => true,
        }
    }

    fn is_flagged(&self, flag: Flag, i: usize) -> (r: bool)
        requires
            self.admits(flag),
            i < self.n(),
        ensures
            r == self.flagged(flag, i as int),
    {
        let b: &BlockMeta = &self.blocks[i];
        let candidate: bool = !b.bg_suppressed && b.eye_band >= AT_010 && b.skin_density >= AT_010
            && b.face_boost >= AT_010;
        match flag {
            Flag::Foreground => !b.bg_suppressed,
            Flag::OnSkin => b.skin_density >= AT_010,
            Flag::ClearEyed => b.eye_band >= AT_016,
            Flag::NearPeak { p } => {
                let peak: &Block = &self.blocks[p].rect;
                candidate && is_within(&b.rect, peak, 9, 4, peak.w as u64 + peak.h as u64)
            },
            Flag::Away { p, around } => candidate && self.is_far(around, p, i),
        }
    }

    fn flags(&self, flag: Flag) -> (r: Vec<bool>)
        requires
            self.admits(flag),
        ensures
            r@.len() == self.n(),
            forall|i: int| 0 <= i < self.n() ==> #[trigger] r@[i] == self.flagged(flag, i),
    {
        let mut r: Vec<bool> = Vec::new();
        let mut i: usize = 0;
        while i < self.blocks.len()
            invariant
                self.admits(flag),
                0 <= i <= self.n(),
                r@.len() == i,
                forall|k: int| 0 <= k < i ==> #[trigger] r@[k] == self.flagged(flag, k),
            decreases self.n() - i,
        {
            r.push(self.is_flagged(flag, i));
            i = i + 1;
        }
        r
    }

    fn is_far(&self, pool: &Vec<usize>, p: usize, i: usize) -> (r: bool)
        requires
            crate::selection::all_below(pool@, self.n() as int),
            p < self.n(),
            i < self.n(),
        ensures
            r == self.far_from(pool@, p as int, i as int),
    {
        let size: u64 = self.blocks[p].rect.w as u64 + self.blocks[p].rect.h as u64;
        let mut k: usize = 0;
        while k < pool.len()
            invariant
                crate::selection::all_below(pool@, self.n() as int),
                p < self.n(),
                i < self.n(),
                size == self.size(p as int),
                0 <= k <= pool@.len(),
                forall|j: int|
                    0 <= j < k ==> !crate::distance::within(
                        self.blocks@[i as int].rect,
                        self.blocks@[#[trigger] pool@[j] as int].rect,
                        81,
                        20,
                        self.size(p as int),
                    ),
            decreases pool@.len() - k,
        {
            if is_within(&self.blocks[i].rect, &self.blocks[pool[k]].rect, 81, 20, size) {
                assert(!self.far_from(pool@, p as int, i as int));
                return false;
            }
            k = k + 1;
        }
        true
    }

    /// Looks for eyes in the frame.
    pub fn survey(&self) -> (r: Survey)
        ensures
            match r {
                Survey::Settled(c) => self.settled() == Some(c),
                Survey::Open(s) => {
                    &&& self.settled() is None
                    &&& self.splits(s)
                    &&& crate::selection::all_below(s.primary@, self.n() as int)
                    &&& crate::selection::all_below(s.separate@, self.n() as int)
                },
            },
            (forall|i: int| 0 <= i < self.blocks@.len() ==> (#[trigger] self.blocks@[i]).bg_suppressed)
                ==> r == Survey::Settled(Category::Scene),
            (exists|i: int|
                0 <= i < self.blocks@.len() && !(#[trigger] self.blocks@[i]).bg_suppressed) && (
            forall|i: int|
                0 <= i < self.blocks@.len() && !(#[trigger] self.blocks@[i]).bg_suppressed
                    && self.blocks@[i].skin_density >= AT_010 ==> self.blocks@[i].eye_band < AT_012)
                ==> r == Survey::Settled(
                if self.skin_density > AT_014 {
                    Category::People
                } else {
                    Category::Scene
                },
            ),
            (exists|i: int|
                0 <= i < self.blocks@.len() && !(#[trigger] self.blocks@[i]).bg_suppressed
                    && self.blocks@[i].skin_density >= AT_010 && self.blocks@[i].eye_band >= AT_012)
                ==> r is Open,
    {
        proof {
            assert(self.blocks.len() <= usize::MAX);
            surveys_find_eyes_on_skin(*self);
        }
        let all = all_of(self.blocks.len());
        let keep = self.flags(Flag::Foreground);
        assert(keep@ == self.foreground());
        let active = sift(&all, &keep);
        let peak: usize = match last_max(self.bands_of(&active).as_slice()) {
            None => {
                return Survey::Settled(Category::Scene);
            },
            Some(k) => {
                assert(crate::ranking::is_last_max(self.eye_bands(self.active()), k as int));
                active[k]
            },
        };
        let keep = self.flags(Flag::OnSkin);
        assert(keep@ == self.on_skin());
        let on_skin = sift(&active, &keep);
        let peak_skin_eye: Rank = strongest(self.bands_of(&on_skin).as_slice());
        if peak_skin_eye < AT_012 {
            return Survey::Settled(
                if self.skin_density > AT_014 {
                    Category::People
                } else {
                    Category::Scene
                },
            );
        }
        let keep = self.flags(Flag::NearPeak { p: peak });
        assert(keep@ == self.near_peak(peak as int));
        let primary = sift(&all, &keep);
        let mut single: Vec<usize> = Vec::new();
        single.push(peak);
        assert(single@ == seq![peak]);
        let around: &Vec<usize> = if primary.len() == 0 {
            &single
        } else {
            &primary
        };
        let keep = self.flags(Flag::Away { p: peak, around });
        assert(keep@ == self.away(peak as int));
        let separate = sift(&all, &keep);
        Survey::Open(Split { peak, peak_skin_eye, primary, separate })
    }

    /// Decides what the frame shows from its split.
    pub fn conclude(&self, s: &Split, m: &Spacing) -> (r: Category)
        requires
            s.peak < self.n(),
            crate::selection::all_below(s.primary@, self.n() as int),
        ensures
            r == self.concluded(*s, *m),
            r == Category::Group <==> s.separate@.len() >= 3 && m.x_separation >= m.radius && 5
                * s.primary@.len() >= 2 * s.separate@.len(),
            r != Category::Group && s.primary@.len() >= 4 ==> r == Category::Portrait,
            r == Category::People ==> self.skin_density > AT_006,
            r == Category::Scene ==> self.skin_density <= AT_006,
            r != Category::Mono,
    {
        let peak = &self.blocks[s.peak];
        let n_primary: usize = s.primary.len();
        let n_separate: usize = s.separate.len();
        let keep = self.flags(Flag::ClearEyed);
        assert(keep@ == self.clear_eyed());
        let strong: usize = sift(&s.primary, &keep).len();
        let is_group: bool = n_separate >= 3 && m.x_separation >= m.radius && 5 * (
        n_primary as u128) >= 2 * (n_separate as u128);
        let coherent: bool = n_separate <= 1 || m.x_spread < m.far;
        let isolated: bool = n_primary >= 1 && s.peak_skin_eye >= AT_030 && peak.skin_density
            >= AT_022 && peak.face_boost >= AT_055 && (n_separate <= 1 || !coherent);
        let compact: bool = !is_group && n_primary >= 2 && strong >= 2 && m.avg_eye >= AT_024
            && s.peak_skin_eye >= AT_030 && peak.skin_density >= AT_018 && peak.face_boost
            >= AT_055;
        let portrait: bool = n_primary >= 4 || (n_primary >= 3 && strong >= 2 && m.avg_eye
            >= AT_020) || (s.peak_skin_eye >= AT_024 && self.skin_density >= AT_018 && strong >= 1
            && n_separate <= 1) || isolated || compact;
        if is_group {
            Category::Group
        } else if portrait {
            Category::Portrait
        } else if self.skin_density > AT_006 {
            Category::People
        } else {
            Category::Scene
        }
    }
}

/// Whether a frame has no colour, by its average saturation.
pub fn is_mono(avg_sat: Rank) -> (r: bool)
    ensures
        r == (avg_sat < AT_005),
{
    avg_sat < AT_005
}

/// When a frame in colour may have its point drawn to a salient spot.
#[derive(Clone, Copy, Debug, PartialEq, Eq, Structural)]
pub enum ColorSnap {
    /// Never.
    Off,
    /// In any frame in colour.
    NoPupil,
    /// In a scene.
    Scene,
}

/// The choice that a text names: `off`, `nopupil` or `scene`.
pub open spec fn choice_named(s: Seq<char>) -> Option<ColorSnap> {
    if s == "off"@ {
        Some(ColorSnap::Off)
    } else if s == "nopupil"@ {
        Some(ColorSnap::NoPupil)
    } else if s == "scene"@ {
        Some(ColorSnap::Scene)
    } else {
        None
    }
}

impl ColorSnap {
    /// The choice that a text names, if it names one.
    pub fn named(s: &str) -> (r: Option<ColorSnap>)
        ensures
            r == choice_named(s@),
            s@ == "off"@ ==> r == Some(ColorSnap::Off),
            s@ == "nopupil"@ ==> r == Some(ColorSnap::NoPupil),
            s@ == "scene"@ ==> r == Some(ColorSnap::Scene),
            s@ != "off"@ && s@ != "nopupil"@ && s@ != "scene"@ ==> r is None,
    {
        proof {
            reveal_strlit("off");
            reveal_strlit("nopupil");
            reveal_strlit("scene");
            assert("off"@.len() == 3 && "nopupil"@.len() == 7 && "scene"@.len() == 5);
        }
        if same_text(s, "off") {
            Some(ColorSnap::Off)
        } else if same_text(s, "nopupil") {
            Some(ColorSnap::NoPupil)
        } else if same_text(s, "scene") {
            Some(ColorSnap::Scene)
        } else {
            None
        }
    }
}

/// Whether a frame may have its point drawn to a salient spot though it has
/// colour: not a frame without colour, nor one of people without a clear face,
/// unless the choice is made otherwise.
pub open spec fn may_snap(choice: Option<ColorSnap>, c: Category) -> bool {
    match choice {
        Some(ColorSnap::Off) => false,
        Some(ColorSnap::NoPupil) => c != Category::Mono,
        Some(ColorSnap::Scene) => c == Category::Scene,
        None => c != Category::Mono && c != Category::People,
    }
}

/// Whether a frame may have its point drawn to a salient spot though it has
/// colour.
pub fn color_snap_gate(choice: Option<ColorSnap>, c: Category) -> (r: bool)
    ensures
        r == may_snap(choice, c),
        choice == Some(ColorSnap::Off) ==> !r,
        choice == Some(ColorSnap::NoPupil) ==> r == (c != Category::Mono),
        choice == Some(ColorSnap::Scene) ==> r == (c == Category::Scene),
        choice is None ==> r == (c != Category::Mono && c != Category::People),
{
    match choice {
        Some(ColorSnap::Off) => false,
        Some(ColorSnap::NoPupil) => c != Category::Mono,
        Some(ColorSnap::Scene) => c == Category::Scene,
        None => c != Category::Mono && c != Category::People,
    }
}

/// A frame without colour never snaps as one with colour does.
pub proof fn mono_never_snaps_as_colour(choice: Option<ColorSnap>)
    ensures
        !may_snap(choice, Category::Mono),
{
}

/// A split's separate blocks are none of its primary ones: each of them is
/// farther from every primary block than that block is from itself.
pub proof fn primary_and_separate_are_apart(scene: Scene, p: int, x: usize)
    requires
        scene.primary_of(p).contains(x),
    ensures
        !scene.separate_of(p).contains(x),
{
    let all = crate::selection::every(scene.n());
    crate::selection::sifting_keeps_the_flagged(all, scene.away(p), x);
    crate::selection::sifting_keeps_the_flagged(all, scene.near_peak(p), x);
    if scene.separate_of(p).contains(x) {
        let i = choose|i: int| 0 <= i < all.len() && all[i] == x;
        let k = choose|k: int| 0 <= k < scene.primary_of(p).len() && scene.primary_of(p)[k] == x;
        let rect = scene.blocks@[x as int].rect;
        let size = scene.size(p);
        assert(crate::distance::centre_gap2(rect, rect) == 0);
        assert(20 * 20 * 0 <= 4 * (81 * 81) * (size * size)) by (nonlinear_arith);
        assert(crate::distance::within(rect, rect, 81, 20, size));
        assert(scene.away(p)[x as int]);
        assert(scene.far_from(scene.primary_of(p), p, x as int));
        assert(false);
    }
}

/// What a frame shows before any split: a scene where all is background; where no
/// eye band on skin of 0.10 reaches 0.12 in front, people if the skin averages
/// more than 0.14, however much more, and a scene if it does not; and nothing is
/// settled where one does reach it.
pub proof fn surveys_find_eyes_on_skin(scene: Scene)
    requires
        scene.n() <= usize::MAX,
    ensures
        (forall|i: int|
            0 <= i < scene.blocks@.len() ==> (#[trigger] scene.blocks@[i]).bg_suppressed)
            ==> scene.settled() == Some(Category::Scene),
        (exists|i: int| 0 <= i < scene.blocks@.len() && !(#[trigger] scene.blocks@[i]).bg_suppressed)
            && (forall|i: int|
            0 <= i < scene.blocks@.len() && !(#[trigger] scene.blocks@[i]).bg_suppressed
                && scene.blocks@[i].skin_density >= AT_010 ==> scene.blocks@[i].eye_band < AT_012)
            ==> scene.settled() == Some(
            if scene.skin_density > AT_014 {
                Category::People
            } else {
                Category::Scene
            },
        ),
        (exists|i: int|
            0 <= i < scene.blocks@.len() && !(#[trigger] scene.blocks@[i]).bg_suppressed
                && scene.blocks@[i].skin_density >= AT_010 && scene.blocks@[i].eye_band >= AT_012)
            ==> scene.settled() is None,
{
    let all = crate::selection::every(scene.n());
    let active = scene.active();
    let skinned = crate::selection::sifted(active, scene.on_skin());
    let bands = scene.eye_bands(skinned);
    crate::ranking::peaks_bound_the_list(bands);
    if active.len() > 0 {
        assert(active.contains(active[0]));
        crate::selection::sifting_keeps_the_flagged(all, scene.foreground(), active[0]);
        let i = choose|i: int| 0 <= i < all.len() && all[i] == active[0];
        assert(!scene.blocks@[i].bg_suppressed);
    }
    if exists|i: int| 0 <= i < scene.blocks@.len() && !(#[trigger] scene.blocks@[i]).bg_suppressed {
        let i = choose|i: int|
            0 <= i < scene.blocks@.len() && !(#[trigger] scene.blocks@[i]).bg_suppressed;
        assert(all[i] == i as usize);
        crate::selection::sifting_keeps_the_flagged(all, scene.foreground(), i as usize);
        assert(active.contains(i as usize));
    }
    if forall|i: int|
        0 <= i < scene.blocks@.len() && !(#[trigger] scene.blocks@[i]).bg_suppressed
            && scene.blocks@[i].skin_density >= AT_010 ==> scene.blocks@[i].eye_band < AT_012 {
        if scene.skin_eye() >= AT_012 {
            let k = choose|k: int|
                0 <= k < bands.len() && #[trigger] bands[k] == crate::ranking::peak_of(bands);
            let x = skinned[k];
            assert(skinned.contains(x));
            crate::selection::sifting_keeps_the_flagged(active, scene.on_skin(), x);
            crate::selection::sifting_keeps_the_flagged(all, scene.foreground(), x);
            let i = choose|i: int| 0 <= i < all.len() && all[i] == x;
            assert(x as int == i);
            assert(scene.blocks@[i].eye_band < AT_012);
        }
    }
    if exists|i: int|
        0 <= i < scene.blocks@.len() && !(#[trigger] scene.blocks@[i]).bg_suppressed
            && scene.blocks@[i].skin_density >= AT_010 && scene.blocks@[i].eye_band >= AT_012 {
        let i = choose|i: int|
            0 <= i < scene.blocks@.len() && !(#[trigger] scene.blocks@[i]).bg_suppressed
                && scene.blocks@[i].skin_density >= AT_010 && scene.blocks@[i].eye_band >= AT_012;
        assert(all[i] == i as usize);
        crate::selection::sifting_keeps_the_flagged(all, scene.foreground(), i as usize);
        crate::selection::sifting_keeps_the_flagged(active, scene.on_skin(), i as usize);
        assert(skinned.contains(i as usize));
        let k = choose|k: int| 0 <= k < skinned.len() && skinned[k] == i as usize;
        assert(bands[k] <= scene.skin_eye());
    }
}

/// More skin never turns people into a scene, whether or not eyes were found.
pub proof fn more_skin_stays_people(
    less: Scene,
    more: Scene,
    s: Split,
    m: Spacing,
)
    requires
        less.blocks == more.blocks,
        less.skin_density <= more.skin_density,
    ensures
        less.settled() == Some(Category::People) ==> more.settled() == Some(Category::People),
        less.settled() is None <==> more.settled() is None,
        less.concluded(s, m) == Category::People ==> more.concluded(s, m) != Category::Scene,
        less.concluded(s, m) == Category::Group <==> more.concluded(s, m) == Category::Group,
        less.concluded(s, m) == Category::Portrait ==> more.concluded(s, m) == Category::Portrait,
{
    assert(less.foreground() == more.foreground());
    assert(less.on_skin() == more.on_skin());
    assert(less.clear_eyed() == more.clear_eyed());
    let pool = crate::selection::sifted(less.active(), less.on_skin());
    assert(less.eye_bands(pool) == more.eye_bands(pool));
}

/// A split is made around a block in front whose eye band no other in front
/// exceeds. A block in front is of the primary ones if its eye band, its skin and
/// its face gradients reach 0.10 and its centre is within 2.25 times the width and
/// height of the peak together; it is a separate one if they do and it is more
/// than 4.05 times that from every primary block.
pub proof fn splits_part_near_from_far(scene: Scene, s: Split, i: usize)
    requires
        scene.n() <= usize::MAX,
        scene.splits(s),
        i < scene.n(),
    ensures
        !scene.blocks@[s.peak as int].bg_suppressed,
        !scene.blocks@[i as int].bg_suppressed ==> scene.blocks@[i as int].eye_band
            <= scene.blocks@[s.peak as int].eye_band,
        !scene.blocks@[i as int].bg_suppressed && scene.blocks@[i as int].skin_density >= AT_010
            ==> scene.blocks@[i as int].eye_band <= s.peak_skin_eye,
        s.primary@.contains(i) <==> ({
            let b = scene.blocks@[i as int];
            let p = scene.blocks@[s.peak as int].rect;
            let dx = (2 * b.rect.x + b.rect.w) - (2 * p.x + p.w);
            let dy = (2 * b.rect.y + b.rect.h) - (2 * p.y + p.h);
            &&& !b.bg_suppressed
            &&& b.eye_band >= AT_010
            &&& b.skin_density >= AT_010
            &&& b.face_boost >= AT_010
            &&& 16 * (dx * dx + dy * dy) <= 324 * ((p.w + p.h) * (p.w + p.h))
        }),
        s.separate@.contains(i) ==> ({
            let b = scene.blocks@[i as int];
            !b.bg_suppressed && b.eye_band >= AT_010 && b.skin_density >= AT_010 && b.face_boost
                >= AT_010
        }),
        s.separate@.contains(i) ==> forall|k: int|
            0 <= k < s.primary@.len() ==> {
                let b = scene.blocks@[i as int];
                let p = scene.blocks@[s.peak as int].rect;
                let q = scene.blocks@[#[trigger] s.primary@[k] as int].rect;
                let dx = (2 * b.rect.x + b.rect.w) - (2 * q.x + q.w);
                let dy = (2 * b.rect.y + b.rect.h) - (2 * q.y + q.h);
                400 * (dx * dx + dy * dy) > 26244 * ((p.w + p.h) * (p.w + p.h))
            },
        s.primary@.len() > 0 && ({
            let b = scene.blocks@[i as int];
            !b.bg_suppressed && b.eye_band >= AT_010 && b.skin_density >= AT_010 && b.face_boost
                >= AT_010
        }) && (forall|k: int|
            0 <= k < s.primary@.len() ==> {
                let b = scene.blocks@[i as int];
                let p = scene.blocks@[s.peak as int].rect;
                let q = scene.blocks@[#[trigger] s.primary@[k] as int].rect;
                let dx = (2 * b.rect.x + b.rect.w) - (2 * q.x + q.w);
                let dy = (2 * b.rect.y + b.rect.h) - (2 * q.y + q.h);
                400 * (dx * dx + dy * dy) > 26244 * ((p.w + p.h) * (p.w + p.h))
            }) ==> s.separate@.contains(i),
{
    let all = crate::selection::every(scene.n());
    let active = scene.active();
    let p = s.peak as int;
    let size = scene.size(p);
    let b = scene.blocks@[i as int];
    assert(all[i as int] == i);
    let k = choose|k: int| #[trigger]
        crate::ranking::is_last_max(scene.eye_bands(active), k) && p == active[k];
    assert(active.contains(active[k]));
    crate::selection::sifting_keeps_the_flagged(all, scene.foreground(), active[k]);
    crate::selection::sifting_keeps_the_flagged(all, scene.foreground(), i);
    if !b.bg_suppressed {
        let j = choose|j: int| 0 <= j < active.len() && active[j] == i;
        assert(scene.eye_bands(active)[j] <= scene.eye_bands(active)[k]);
        let skinned = crate::selection::sifted(active, scene.on_skin());
        crate::selection::sifting_keeps_the_flagged(active, scene.on_skin(), i);
        crate::ranking::peaks_bound_the_list(scene.eye_bands(skinned));
        if b.skin_density >= AT_010 {
            let m = choose|m: int| 0 <= m < skinned.len() && skinned[m] == i;
            assert(scene.eye_bands(skinned)[m] <= scene.skin_eye());
        }
    }
    crate::selection::sifting_keeps_the_flagged(all, scene.near_peak(p), i);
    crate::selection::sifting_keeps_the_flagged(all, scene.away(p), i);
    crate::distance::distances_are_of_centres(b.rect, scene.blocks@[p].rect, 9, 4, size);
    let around = if scene.primary_of(p).len() == 0 {
        seq![p as usize]
    } else {
        scene.primary_of(p)
    };
    assert(s.separate@.contains(i) <==> !b.bg_suppressed && face_like(b) && scene.far_from(
        around,
        p,
        i as int,
    ));
    assert forall|k: int| 0 <= k < s.primary@.len() implies (crate::distance::within(
        b.rect,
        scene.blocks@[#[trigger] s.primary@[k] as int].rect,
        81,
        20,
        size,
    ) <==> ({
        let q = scene.blocks@[s.primary@[k] as int].rect;
        let dx = (2 * b.rect.x + b.rect.w) - (2 * q.x + q.w);
        let dy = (2 * b.rect.y + b.rect.h) - (2 * q.y + q.h);
        400 * (dx * dx + dy * dy) <= 26244 * (size * size)
    })) by {
        crate::distance::distances_are_of_centres(
            b.rect,
            scene.blocks@[s.primary@[k] as int].rect,
            81,
            20,
            size,
        );
    }
    if s.primary@.len() > 0 {
        assert(around == s.primary@);
    }
}

/// A frame shows a group exactly if three separate blocks or more are set apart by
/// the radius and there are no more than two and a half for each primary one.
pub proof fn groups_are_set_apart(scene: Scene, s: Split, m: Spacing)
    ensures
        s.separate@.len() <= 2 ==> scene.concluded(s, m) != Category::Group,
        m.x_separation < m.radius ==> scene.concluded(s, m) != Category::Group,
        5 * s.primary@.len() < 2 * s.separate@.len() ==> scene.concluded(s, m) != Category::Group,
        s.separate@.len() >= 3 && m.x_separation >= m.radius && 5 * s.primary@.len() >= 2
            * s.separate@.len() ==> scene.concluded(s, m) == Category::Group,
{
}

/// What makes a portrait of a frame that is no group: four primary blocks; three,
/// two of them with a clear eye band and 0.20 on average; an eye band of 0.24 in a
/// frame of 0.18 skin with one clear primary block and one separate one at most; a
/// face of 0.30 eye band, 0.22 skin and 0.55 gradients that stands alone; or two
/// clear primary blocks of 0.24 on average around such a face of 0.18 skin.
pub proof fn portraits_have_a_clear_face(scene: Scene, s: Split, m: Spacing)
    requires
        scene.concluded(s, m) != Category::Group,
    ensures
        s.primary@.len() >= 4 ==> scene.concluded(s, m) == Category::Portrait,
        s.primary@.len() >= 3 && scene.strong(s) >= 2 && m.avg_eye >= AT_020 ==> scene.concluded(s, m)
            == Category::Portrait,
        s.peak_skin_eye >= AT_024 && scene.skin_density >= AT_018 && scene.strong(s) >= 1
            && s.separate@.len() <= 1 ==> scene.concluded(s, m) == Category::Portrait,
        s.primary@.len() >= 1 && s.peak_skin_eye >= AT_030
            && scene.blocks@[s.peak as int].skin_density >= AT_022
            && scene.blocks@[s.peak as int].face_boost >= AT_055 && s.separate@.len() <= 1
            ==> scene.concluded(s, m) == Category::Portrait,
        s.primary@.len() >= 1 && s.peak_skin_eye >= AT_030
            && scene.blocks@[s.peak as int].skin_density >= AT_022
            && scene.blocks@[s.peak as int].face_boost >= AT_055 && m.x_spread >= m.far
            ==> scene.concluded(s, m) == Category::Portrait,
        s.primary@.len() >= 2 && scene.strong(s) >= 2 && m.avg_eye >= AT_024 && s.peak_skin_eye
            >= AT_030 && scene.blocks@[s.peak as int].skin_density >= AT_018
            && scene.blocks@[s.peak as int].face_boost >= AT_055 ==> scene.concluded(s, m)
            == Category::Portrait,
{
}

/// What keeps a frame that is no group from being a portrait: fewer than four
/// primary blocks, an eye band under 0.24, and fewer than three primary blocks or
/// an average under 0.20. Such a frame shows people if its skin averages more than
/// 0.06, else a scene.
pub proof fn faint_faces_make_no_portrait(scene: Scene, s: Split, m: Spacing)
    requires
        scene.concluded(s, m) != Category::Group,
    ensures
        s.primary@.len() <= 3 && s.peak_skin_eye < AT_024 && (s.primary@.len() <= 2 || scene.strong(s)
            <= 1 || m.avg_eye < AT_020) ==> scene.concluded(s, m) != Category::Portrait,
        s.primary@.len() == 0 && scene.strong(s) == 0 ==> scene.concluded(s, m) != Category::Portrait,
        s.primary@.len() <= 2 && scene.blocks@[s.peak as int].face_boost < AT_055 && (scene.skin_density
            < AT_018 || s.separate@.len() >= 2) ==> scene.concluded(s, m) != Category::Portrait,
        s.primary@.len() <= 2 && scene.blocks@[s.peak as int].skin_density < AT_018
            && scene.skin_density < AT_018 ==> scene.concluded(s, m) != Category::Portrait,
        s.primary@.len() <= 2 && s.separate@.len() >= 2 && m.x_spread < m.far && (scene.strong(s) <= 1
            || m.avg_eye < AT_024) ==> scene.concluded(s, m) != Category::Portrait,
        scene.concluded(s, m) != Category::Portrait ==> scene.concluded(s, m)
            == if scene.skin_density > AT_006 {
            Category::People
        } else {
            Category::Scene
        },
{
}

/// Clear primary blocks are those with an eye band of 0.16.
pub proof fn clear_eyes_reach_their_mark(scene: Scene, s: Split, x: usize)
    requires
        x < scene.n(),
    ensures
        crate::selection::sifted(s.primary@, scene.clear_eyed()).contains(x) <==> s.primary@.contains(
            x,
        ) && scene.blocks@[x as int].eye_band >= AT_016,
        scene.strong(s) == crate::selection::sifted(s.primary@, scene.clear_eyed()).len(),
        scene.strong(s) <= s.primary@.len(),
{
    crate::selection::sifting_keeps_the_flagged(s.primary@, scene.clear_eyed(), x);
}

/// When a frame with colour may snap: never if it is switched off, in any such
/// frame or only in scenes if that is chosen, and else in all but those of people.
pub proof fn snapping_follows_the_choice(c: Category)
    ensures
        !may_snap(Some(ColorSnap::Off), c),
        may_snap(Some(ColorSnap::NoPupil), c) <==> c != Category::Mono,
        may_snap(Some(ColorSnap::Scene), c) <==> c == Category::Scene,
        may_snap(None, c) <==> c == Category::Portrait || c == Category::Group || c
            == Category::Scene,
{
}

/// A frame has no colour below 0.05 of saturation on average, and has some from
/// there on.
pub proof fn frames_without_saturation_are_mono(avg_sat: Rank, mono: bool)
    requires
        call_ensures(is_mono, (avg_sat,), mono),
    ensures
        avg_sat < AT_005 ==> mono,
        avg_sat >= AT_005 ==> !mono,
{
}

/// What a survey tells of a frame in which something is in front and no eye band on
/// skin of 0.10 reaches 0.12: people exactly if the skin averages more than 0.14.
pub proof fn surveys_without_eyes_go_by_skin(scene: Scene, r: Survey, i: int)
    requires
        call_ensures(Scene::survey, (&scene,), r),
        0 <= i < scene.blocks@.len(),
        !scene.blocks@[i].bg_suppressed,
        forall|j: int|
            0 <= j < scene.blocks@.len() && !(#[trigger] scene.blocks@[j]).bg_suppressed
                && scene.blocks@[j].skin_density >= AT_010 ==> scene.blocks@[j].eye_band < AT_012,
    ensures
        scene.skin_density > AT_014 ==> r == Survey::Settled(Category::People),
        scene.skin_density <= AT_014 ==> r == Survey::Settled(Category::Scene),
{
}

/// A survey stays open where an eye band on skin of 0.10 reaches 0.12 in front, and
/// tells a scene where nothing is in front.
pub proof fn surveys_with_eyes_stay_open(scene: Scene, r: Survey, i: int)
    requires
        call_ensures(Scene::survey, (&scene,), r),
        0 <= i < scene.blocks@.len(),
    ensures
        !scene.blocks@[i].bg_suppressed && scene.blocks@[i].skin_density >= AT_010
            && scene.blocks@[i].eye_band >= AT_012 ==> r is Open,
        (forall|j: int|
            0 <= j < scene.blocks@.len() ==> (#[trigger] scene.blocks@[j]).bg_suppressed) ==> r
            == Survey::Settled(Category::Scene),
{
}

} // verus!
