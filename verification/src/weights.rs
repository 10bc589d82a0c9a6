//! How much each signal counts in a block's score, by what a frame shows.

use crate::marks::{
    AT_011, AT_012, AT_018, AT_028, AT_040, AT_042, AT_045, AT_059, AT_060, AT_085, AT_095, AT_099,
    AT_105, AT_110, AT_125, AT_135, AT_145, AT_167, AT_175, AT_190, AT_235, AT_240, AT_280, AT_756,
};
use crate::rank::Rank;
use vstd::prelude::*;

verus! {

/// What a frame shows.
#[derive(Clone, Copy, Debug, PartialEq, Eq, Structural)]
pub enum Category {
    /// No colour.
    Mono,
    /// One face.
    Portrait,
    /// Several faces.
    Group,
    /// Skin without a clear face.
    People,
    /// Anything else.
    Scene,
}

impl Category {
    /// The name of a category.
    pub open spec fn called(self) -> Seq<char> {
        match self {
            Category::Mono => "mono"@,
            Category::Portrait => "portrait"@,
            Category::Group => "group"@,
            Category::People => "people"@,
            Category::Scene => "scene"@,
        }
    }

    /// The name of a category.
    pub fn name(&self) -> (r: &'static str)
        ensures
            r@ == self.called(),
            *self == Category::Mono ==> r@ == "mono"@,
            *self == Category::Portrait ==> r@ == "portrait"@,
            *self == Category::Group ==> r@ == "group"@,
            *self == Category::People ==> r@ == "people"@,
            *self == Category::Scene ==> r@ == "scene"@,
    {
        match self {
            Category::Mono => "mono",
            Category::Portrait => "portrait",
            Category::Group => "group",
            Category::People => "people",
            Category::Scene => "scene",
        }
    }

    /// The number of a category.
    pub open spec fn number(self) -> int {
        match self {
            Category::Mono => 0,
            Category::Portrait => 1,
            Category::Group => 2,
            Category::People => 3,
            Category::Scene => 4,
        }
    }

    /// The number of a category.
    pub fn code(&self) -> (r: u8)
        ensures
            r == self.number(),
            *self == Category::Mono ==> r == 0,
            *self == Category::Portrait ==> r == 1,
            *self == Category::Group ==> r == 2,
            *self == Category::People ==> r == 3,
            *self == Category::Scene ==> r == 4,
    {
        match self {
            Category::Mono => 0,
            Category::Portrait => 1,
            Category::Group => 2,
            Category::People => 3,
            Category::Scene => 4,
        }
    }
}

/// The factor of each signal in a block's score.
#[derive(Clone, Copy, Debug, PartialEq, Eq, Structural)]
pub struct Weights {
    pub detail: Rank,
    pub skin: Rank,
    pub sat: Rank,
    pub sharp: Rank,
    pub centre: Rank,
    pub hog_face: Rank,
    pub symmetry: Rank,
    pub thirds: Rank,
}

impl Weights {
    /// The factors for a portrait, from which most others depart.
    pub open spec fn usual() -> Weights {
        Weights {
            detail: AT_011,
            skin: AT_059,
            sat: AT_240,
            sharp: AT_099,
            centre: AT_167,
            hog_face: AT_756,
            symmetry: AT_235,
            thirds: AT_060,
        }
    }

    /// The factors for each category.
    pub open spec fn suited_to(c: Category) -> Weights {
        match c {
            Category::Portrait => Weights::usual(),
            Category::Group => Weights { centre: AT_190, thirds: AT_085, ..Weights::usual() },
            Category::People => Weights {
                hog_face: AT_280,
                symmetry: AT_110,
                skin: AT_045,
                detail: AT_018,
                ..Weights::usual()
            },
            Category::Scene => Weights {
                detail: AT_028,
                skin: AT_012,
                sat: AT_240,
                sharp: AT_135,
                centre: AT_167,
                hog_face: AT_040,
                symmetry: AT_060,
                thirds: AT_105,
            },
            Category::Mono => Weights {
                detail: AT_042,
                skin: 0,
                sat: 0,
                sharp: AT_175,
                centre: AT_145,
                hog_face: AT_240,
                symmetry: AT_125,
                thirds: AT_095,
            },
        }
    }

    /// The factors that serve where nothing else is known.
    pub fn default() -> (r: Weights)
        ensures
            r == Weights::usual(),
    {
        Weights {
            detail: AT_011,
            skin: AT_059,
            sat: AT_240,
            sharp: AT_099,
            centre: AT_167,
            hog_face: AT_756,
            symmetry: AT_235,
            thirds: AT_060,
        }
    }

    /// The factors for one face.
    pub fn portrait() -> (r: Weights)
        ensures
            r == Weights::suited_to(Category::Portrait),
    {
        Weights::default()
    }

    /// The factors for several faces: the centre and the golden section count
    /// for more.
    pub fn group() -> (r: Weights)
        ensures
            r == Weights::suited_to(Category::Group),
    {
        Weights { centre: AT_190, thirds: AT_085, ..Weights::default() }
    }

    /// The factors for people without a clear face: face texture counts for
    /// less.
    pub fn people() -> (r: Weights)
        ensures
            r == Weights::suited_to(Category::People),
    {
        Weights {
            hog_face: AT_280,
            symmetry: AT_110,
            skin: AT_045,
            detail: AT_018,
            ..Weights::default()
        }
    }

    /// The factors for a scene: skin and faces count for little.
    pub fn scene() -> (r: Weights)
        ensures
            r == Weights::suited_to(Category::Scene),
    {
        Weights {
            detail: AT_028,
            skin: AT_012,
            sat: AT_240,
            sharp: AT_135,
            centre: AT_167,
            hog_face: AT_040,
            symmetry: AT_060,
            thirds: AT_105,
        }
    }

    /// The factors for a frame without colour: neither skin nor saturation
    /// counts.
    pub fn mono() -> (r: Weights)
        ensures
            r == Weights::suited_to(Category::Mono),
    {
        Weights {
            detail: AT_042,
            skin: 0,
            sat: 0,
            sharp: AT_175,
            centre: AT_145,
            hog_face: AT_240,
            symmetry: AT_125,
            thirds: AT_095,
        }
    }

    /// The factors for a category.
    pub fn of_category(c: Category) -> (r: Weights)
        ensures
            r == Weights::suited_to(c),
    {
        match c {
            Category::Portrait => Weights::portrait(),
            Category::Group => Weights::group(),
            Category::People => Weights::people(),
            Category::Scene => Weights::scene(),
            Category::Mono => Weights::mono(),
        }
    }
}

/// Categories are told apart by their numbers and by their names, which are those
/// of what a frame shows.
pub proof fn categories_are_told_apart(a: Category, b: Category)
    ensures
        a.number() == b.number() <==> a == b,
        a.called() == b.called() <==> a == b,
        Category::Mono.number() == 0,
        Category::Portrait.number() == 1,
        Category::Group.number() == 2,
        Category::People.number() == 3,
        Category::Scene.number() == 4,
        Category::Mono.called() == "mono"@,
        Category::Portrait.called() == "portrait"@,
        Category::Group.called() == "group"@,
        Category::People.called() == "people"@,
        Category::Scene.called() == "scene"@,
{
    reveal_strlit("mono");
    reveal_strlit("portrait");
    reveal_strlit("group");
    reveal_strlit("people");
    reveal_strlit("scene");
    assert("mono"@.len() == 4 && "portrait"@.len() == 8 && "group"@.len() == 5 && "people"@.len()
        == 6 && "scene"@.len() == 5);
    assert("group"@[0] != "scene"@[0]);
}

/// What counts in each kind of frame. Without colour neither skin nor saturation
/// does; a group leans more on the centre and the thirds than a portrait and is
/// else the same; people without a clear face lean less on face texture, symmetry
/// and skin and more on detail; and a scene leans least of all frames with colour
/// on skin, faces and symmetry, and most on detail, sharpness and thirds.
pub proof fn weights_suit_what_is_shown()
    ensures
        ({
            let portrait = Weights::suited_to(Category::Portrait);
            let group = Weights::suited_to(Category::Group);
            let people = Weights::suited_to(Category::People);
            let scene = Weights::suited_to(Category::Scene);
            let mono = Weights::suited_to(Category::Mono);
            &&& mono.skin == 0 && mono.sat == 0
            &&& group == (Weights { centre: group.centre, thirds: group.thirds, ..portrait })
            &&& portrait.centre < group.centre && portrait.thirds < group.thirds
            &&& people == (Weights {
                hog_face: people.hog_face,
                symmetry: people.symmetry,
                skin: people.skin,
                detail: people.detail,
                ..portrait
            })
            &&& scene.hog_face < people.hog_face < portrait.hog_face
            &&& scene.symmetry < people.symmetry < portrait.symmetry
            &&& scene.skin < people.skin < portrait.skin
            &&& portrait.detail < people.detail < scene.detail < mono.detail
            &&& portrait.sharp < scene.sharp < mono.sharp
            &&& portrait.thirds < group.thirds < mono.thirds < scene.thirds
            &&& scene.sat == portrait.sat && scene.centre == portrait.centre
            &&& mono.centre < portrait.centre
        }),
{
}

/// The factors in numbers.
pub proof fn weights_are_as_tuned()
    ensures
        Weights::usual() == Weights::suited_to(Category::Portrait),
        Weights::suited_to(Category::Portrait) == (Weights {
            detail: AT_011,
            skin: AT_059,
            sat: AT_240,
            sharp: AT_099,
            centre: AT_167,
            hog_face: AT_756,
            symmetry: AT_235,
            thirds: AT_060,
        }),
        Weights::suited_to(Category::Group).centre == AT_190,
        Weights::suited_to(Category::Group).thirds == AT_085,
        Weights::suited_to(Category::People).hog_face == AT_280,
        Weights::suited_to(Category::People).symmetry == AT_110,
        Weights::suited_to(Category::People).skin == AT_045,
        Weights::suited_to(Category::People).detail == AT_018,
        Weights::suited_to(Category::Scene).detail == AT_028,
        Weights::suited_to(Category::Scene).skin == AT_012,
        Weights::suited_to(Category::Scene).sharp == AT_135,
        Weights::suited_to(Category::Scene).hog_face == AT_040,
        Weights::suited_to(Category::Scene).symmetry == AT_060,
        Weights::suited_to(Category::Scene).thirds == AT_105,
        Weights::suited_to(Category::Mono).detail == AT_042,
        Weights::suited_to(Category::Mono).sharp == AT_175,
        Weights::suited_to(Category::Mono).centre == AT_145,
        Weights::suited_to(Category::Mono).hog_face == AT_240,
        Weights::suited_to(Category::Mono).symmetry == AT_125,
        Weights::suited_to(Category::Mono).thirds == AT_095,
{
}

} // verus!
