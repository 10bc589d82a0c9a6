//! Photos with a hand-set focus point: what a manifest lists, and how a run
//! over it ends.
//!
//! A coordinate is carried as the bit pattern of a double-precision number.

use crate::digits::decimal_text;
use serde_json::Value;
use vstd::prelude::*;

verus! {

/// The bit pattern of 0.5: the coordinate of a photo whose manifest gives none.
pub const HALF: u64 = 0x3fe0_0000_0000_0000;

/// A photo as a manifest lists it: its file, and each coordinate if there is a
/// number.
pub struct Golden {
    pub file: String,
    pub x: Option<u64>,
    pub y: Option<u64>,
}

/// A photo of an album as a manifest lists it.
pub struct AlbumPhoto {
    /// The file, if there is a text.
    pub file: Option<String>,
    pub x: Option<u64>,
    pub y: Option<u64>,
}

/// An album as a manifest lists it.
pub struct Album {
    pub name: String,
    /// The photos, if there is a list.
    pub photos: Option<Vec<AlbumPhoto>>,
}

/// A photo to look at, with its hand-set point.
pub struct Mark {
    pub file: String,
    pub x: u64,
    pub y: u64,
}

/// An album to look at.
pub struct AlbumPlan {
    pub name: String,
    pub photos: Vec<Mark>,
}

/// Why a manifest gives no plan.
pub enum PlanError {
    /// It is not JSON; the text says where it goes wrong.
    NotJson(String),
    /// It is JSON, but no object.
    NoObject,
}

/// What a manifest lists of some photos.
pub open spec fn told(v: Seq<Golden>) -> Seq<(Seq<char>, Option<u64>, Option<u64>)> {
    Seq::new(v.len(), |i: int| (v[i].file@, v[i].x, v[i].y))
}

/// What a manifest lists of an album's photo.
pub open spec fn told_photo(p: AlbumPhoto) -> (Option<Seq<char>>, Option<u64>, Option<u64>) {
    (
        match p.file {
            Some(s) => Some(s@),
            None => None,
        },
        p.x,
        p.y,
    )
}

/// What a manifest lists of an album.
pub open spec fn told_album(a: Album) -> (Seq<char>, Option<Seq<(Option<Seq<char>>, Option<u64>, Option<u64>)>>) {
    (
        a.name@,
        match a.photos {
            Some(v) => Some(Seq::new(v@.len(), |i: int| told_photo(v@[i]))),
            None => None,
        },
    )
}

/// What a manifest lists of some albums.
pub open spec fn told_albums(v: Seq<Album>) -> Seq<(Seq<char>, Option<Seq<(Option<Seq<char>>, Option<u64>, Option<u64>)>>)> {
    Seq::new(v.len(), |i: int| told_album(v[i]))
}

/// The photos and their points.
pub open spec fn marked(v: Seq<Mark>) -> Seq<(Seq<char>, u64, u64)> {
    Seq::new(v.len(), |i: int| (v[i].file@, v[i].x, v[i].y))
}

/// A coordinate; 0.5 where there is none.
pub open spec fn or_half(c: Option<u64>) -> u64 {
    match c {
        Some(n) => n,
        None => HALF,
    }
}

/// Listed photos with each missing coordinate set.
pub open spec fn completed(e: Seq<(Seq<char>, Option<u64>, Option<u64>)>) -> Seq<(Seq<char>, u64, u64)> {
    Seq::new(e.len(), |i: int| (e[i].0, or_half(e[i].1), or_half(e[i].2)))
}

/// Whether no two photos have the same file.
pub open spec fn distinct(e: Seq<(Seq<char>, Option<u64>, Option<u64>)>) -> bool {
    forall|i: int, j: int| 0 <= i < j < e.len() ==> #[trigger] e[i].0 != #[trigger] e[j].0
}

/// What `serde_json` reads in the text of an object whose members are objects:
/// the members in the order of the map, each with the numbers that it has under
/// the two given names. `Err` holds the message for a text that is not JSON, and
/// `Ok(None)` stands for JSON that is no object.
pub uninterp spec fn entries_in(raw: Seq<char>, x: Seq<char>, y: Seq<char>) -> Result<Option<Seq<(Seq<char>, Option<u64>, Option<u64>)>>, Seq<char>>;

/// `serde_json::from_str` into a `Value`, read member by member with
/// `Value::as_object`, indexing by name and `Value::as_f64`. The result is
/// named; all that is claimed beyond the name is that an object has each member
/// once.
#[verifier::external_body]
fn parse_entries(raw: &str, x: &str, y: &str) -> (r: Result<Option<Vec<Golden>>, String>)
    ensures
        match r {
            Err(e) => entries_in(raw@, x@, y@) == Err::<Option<Seq<(Seq<char>, Option<u64>, Option<u64>)>>, Seq<char>>(e@),
            Ok(None) => entries_in(raw@, x@, y@) == Ok::<Option<Seq<(Seq<char>, Option<u64>, Option<u64>)>>, Seq<char>>(None),
            Ok(Some(v)) => entries_in(raw@, x@, y@) == Ok::<Option<Seq<(Seq<char>, Option<u64>, Option<u64>)>>, Seq<char>>(Some(told(v@))),
        },
        r matches Ok(Some(v)) ==> distinct(told(v@)),
{
    let json: Value = serde_json::from_str(raw).map_err(|e| e.to_string())?;
    let number = |p: &Value, name: &str| p[name].as_f64().map(|n| n.to_bits());
    Ok(json.as_object().map(|o| {
        o.iter().map(|(k, p)| Golden { file: k.clone(), x: number(p, x), y: number(p, y) }).collect()
    }))
}

/// Whether two texts agree up to a place where the first ends or has the
/// smaller character.
pub open spec fn before_at(a: Seq<char>, b: Seq<char>, k: int) -> bool {
    &&& 0 <= k <= a.len()
    &&& k < b.len()
    &&& forall|i: int| 0 <= i < k ==> a[i] == b[i]
    &&& k == a.len() || (a[k] as int) < (b[k] as int)
}

/// Whether a text comes before another, character by character.
pub open spec fn before(a: Seq<char>, b: Seq<char>) -> bool {
    exists|k: int| before_at(a, b, k)
}

/// Coming before carries over.
pub proof fn before_carries_over(a: Seq<char>, b: Seq<char>, c: Seq<char>)
    requires
        before(a, b),
        before(b, c),
    ensures
        before(a, c),
{
    let k = choose|k: int| before_at(a, b, k);
    let l = choose|l: int| before_at(b, c, l);
    let m = if k <= l {
        k
    } else {
        l
    };
    assert(before_at(a, c, m));
}

/// Of two different texts one comes before the other, and not both do.
pub proof fn texts_are_ordered(a: Seq<char>, b: Seq<char>)
    ensures
        a != b ==> before(a, b) || before(b, a),
        !(before(a, b) && before(b, a)),
        !before(a, a),
{
    lemma_ordered_from(a, b, 0);
    if before(a, b) && before(b, a) {
        let k = choose|k: int| before_at(a, b, k);
        let l = choose|l: int| before_at(b, a, l);
        assert(k <= l || l <= k);
        assert(false);
    }
    if before(a, a) {
        let k = choose|k: int| before_at(a, a, k);
        assert(false);
    }
}

proof fn lemma_ordered_from(a: Seq<char>, b: Seq<char>, k: int)
    requires
        0 <= k <= a.len(),
        k <= b.len(),
        forall|i: int| 0 <= i < k ==> a[i] == b[i],
    ensures
        a == b || before(a, b) || before(b, a),
    decreases a.len() - k,
{
    if k == a.len() && k == b.len() {
        assert(a == b);
    } else if k == a.len() {
        assert(before_at(a, b, k));
    } else if k == b.len() {
        assert(before_at(b, a, k));
    } else if a[k] == b[k] {
        lemma_ordered_from(a, b, k + 1);
    } else if (a[k] as int) < (b[k] as int) {
        assert(before_at(a, b, k));
    } else {
        assert(before_at(b, a, k));
    }
}

fn comes_before(a: &str, b: &str) -> (r: bool)
    ensures
        r == before(a@, b@),
{
    let n: usize = a.unicode_len();
    let m: usize = b.unicode_len();
    let mut k: usize = 0;
    while k < n && k < m && a.get_char(k) == b.get_char(k)
        invariant
            n == a@.len(),
            m == b@.len(),
            0 <= k <= n,
            k <= m,
            forall|i: int| 0 <= i < k ==> a@[i] == b@[i],
        decreases n - k,
    {
        k = k + 1;
    }
    let r: bool = if k >= m {
        false
    } else if k >= n {
        true
    } else {
        a.get_char(k) < b.get_char(k)
    };
    proof {
        if r {
            assert(before_at(a@, b@, k as int));
        } else if before(a@, b@) {
            let l = choose|l: int| before_at(a@, b@, l);
            assert(l <= k || k <= l);
            assert(false);
        }
    }
    r
}

/// Whether listed photos go in the order of their files.
pub open spec fn ascending(e: Seq<(Seq<char>, Option<u64>, Option<u64>)>) -> bool {
    forall|i: int, j: int|
        0 <= i < j < e.len() ==> !before(#[trigger] e[j].0, #[trigger] e[i].0)
}

proof fn lemma_told_insert(s: Seq<Golden>, p: int, g: Golden)
    requires
        0 <= p <= s.len(),
    ensures
        told(s.insert(p, g)) == told(s).insert(p, (g.file@, g.x, g.y)),
{
}

/// The photos in the order of their files.
pub fn ordered(v: Vec<Golden>) -> (r: Vec<Golden>)
    ensures
        told(r@).to_multiset() == told(v@).to_multiset(),
        ascending(told(r@)),
        distinct(told(v@)) ==> distinct(told(r@)),
{
    let ghost given = told(v@);
    let mut left: Vec<Golden> = v;
    let mut r: Vec<Golden> = Vec::new();
    assert(told(r@).to_multiset().add(given.to_multiset()) =~= given.to_multiset()) by {
        broadcast use vstd::seq_lib::group_to_multiset_ensures;
    }
    while left.len() > 0
        invariant
            told(r@).to_multiset().add(told(left@).to_multiset()) == given.to_multiset(),
            ascending(told(r@)),
            distinct(given) ==> distinct(told(r@)) && distinct(told(left@)),
            distinct(given) ==> forall|i: int, j: int|
                0 <= i < r@.len() && 0 <= j < left@.len() ==> #[trigger] told(r@)[i].0
                    != #[trigger] told(left@)[j].0,
        decreases left@.len(),
    {
        let ghost sorted = told(r@);
        let ghost waiting = told(left@);
        let g = left.remove(0);
        let ghost e = waiting[0];
        let mut p: usize = 0;
        while p < r.len() && !comes_before(&g.file, &r[p].file)
            invariant
                0 <= p <= r@.len(),
                sorted == told(r@),
                e.0 == g.file@,
                forall|i: int| 0 <= i < p ==> !before(e.0, #[trigger] sorted[i].0),
            decreases r@.len() - p,
        {
            assert(sorted[p as int].0 == r@[p as int].file@);
            p = p + 1;
        }
        proof {
            assert(told(left@) == waiting.remove(0));
            lemma_told_insert(r@, p as int, g);
            let next = sorted.insert(p as int, e);
            assert(p < sorted.len() ==> before(e.0, sorted[p as int].0));
            assert forall|i: int, j: int| 0 <= i < j < next.len() implies !before(
                #[trigger] next[j].0,
                #[trigger] next[i].0,
            ) by {
                if i == p {
                    let b = sorted[j - 1].0;
                    let first = sorted[p as int].0;
                    if before(b, e.0) {
                        before_carries_over(b, e.0, first);
                        if j - 1 > p {
                            assert(!before(sorted[j - 1].0, sorted[p as int].0));
                        } else {
                            texts_are_ordered(b, b);
                        }
                    }
                } else if j == p {
                    assert(next[i] == sorted[i]);
                } else {
                    let a = if i < p {
                        i
                    } else {
                        i - 1
                    };
                    let b = if j < p {
                        j
                    } else {
                        j - 1
                    };
                    assert(!before(sorted[b].0, sorted[a].0));
                }
            }
            assert(next.to_multiset().add(waiting.remove(0).to_multiset())
                =~= sorted.to_multiset().add(waiting.to_multiset())) by {
                broadcast use vstd::seq_lib::group_to_multiset_ensures;

                assert(waiting.contains(waiting[0]));
            }
            if distinct(given) {
                assert forall|i: int, j: int| 0 <= i < j < next.len() implies #[trigger] next[i].0
                    != #[trigger] next[j].0 by {
                    if i == p {
                        assert(sorted[j - 1].0 != waiting[0].0);
                    } else if j == p {
                        assert(sorted[i].0 != waiting[0].0);
                    } else {
                        let a = if i < p {
                            i
                        } else {
                            i - 1
                        };
                        let b = if j < p {
                            j
                        } else {
                            j - 1
                        };
                        assert(sorted[a].0 != sorted[b].0);
                    }
                }
                let rest = waiting.remove(0);
                assert forall|i: int, j: int| 0 <= i < j < rest.len() implies #[trigger] rest[i].0
                    != #[trigger] rest[j].0 by {
                    assert(waiting[i + 1].0 != waiting[j + 1].0);
                }
                assert forall|i: int, j: int|
                    0 <= i < next.len() && 0 <= j < rest.len() implies #[trigger] next[i].0
                    != #[trigger] rest[j].0 by {
                    if i == p {
                        assert(waiting[0].0 != waiting[j + 1].0);
                    } else {
                        let a = if i < p {
                            i
                        } else {
                            i - 1
                        };
                        assert(sorted[a].0 != waiting[j + 1].0);
                    }
                }
            }
        }
        r.insert(p, g);
    }
    proof {
        broadcast use vstd::seq_lib::group_to_multiset_ensures;

        assert(told(left@) =~= Seq::empty());
        assert(told(r@).to_multiset() =~= told(r@).to_multiset().add(told(left@).to_multiset()));
    }
    r
}

/// Whether photos are what a manifest lists: the same photos in the order of
/// their files, with 0.5 for a missing coordinate. Where the manifest lists a
/// file once, so does the plan.
pub open spec fn plans(
    entries: Seq<(Seq<char>, Option<u64>, Option<u64>)>,
    plan: Seq<(Seq<char>, u64, u64)>,
) -> bool {
    exists|sorted: Seq<(Seq<char>, Option<u64>, Option<u64>)>|
        {
            &&& sorted.to_multiset() == entries.to_multiset()
            &&& #[trigger] ascending(sorted)
            &&& distinct(entries) ==> distinct(sorted)
            &&& plan == completed(sorted)
        }
}

fn complete(v: Vec<Golden>) -> (r: Vec<Mark>)
    ensures
        marked(r@) == completed(told(v@)),
{
    let mut r: Vec<Mark> = Vec::new();
    let mut k: usize = 0;
    while k < v.len()
        invariant
            0 <= k <= v@.len(),
            r@.len() == k,
            forall|i: int| 0 <= i < k ==> marked(r@)[i] == #[trigger] completed(told(v@))[i],
        decreases v@.len() - k,
    {
        let ghost done = marked(r@);
        r.push(
            Mark { file: v[k].file.clone(), x: coordinate(v[k].x), y: coordinate(v[k].y) },
        );
        assert(forall|i: int| 0 <= i < k ==> marked(r@)[i] == done[i]);
        k = k + 1;
    }
    assert(marked(r@) == completed(told(v@)));
    r
}

fn coordinate(c: Option<u64>) -> (r: u64)
    ensures
        r == or_half(c),
{
    match c {
        Some(n) => n,
        None => HALF,
    }
}

/// The photos to evaluate, from what a manifest lists.
pub fn marks_of(v: Vec<Golden>) -> (r: Vec<Mark>)
    ensures
        plans(told(v@), marked(r@)),
{
    let sorted = ordered(v);
    assert(ascending(told(sorted@)));
    complete(sorted)
}

/// The photos to evaluate: what the manifest of a directory lists.
pub fn eval_plan(raw: &str) -> (r: Result<Vec<Mark>, PlanError>)
    ensures
        match entries_in(raw@, "x"@, "y"@) {
            Err(text) => r matches Err(PlanError::NotJson(e)) && e@ == text,
            Ok(None) => r matches Err(PlanError::NoObject),
            Ok(Some(entries)) => distinct(entries) && (r matches Ok(v) && plans(
                entries,
                marked(v@),
            )),
        },
{
    match parse_entries(raw, "x", "y") {
        Err(e) => Err(PlanError::NotJson(e)),
        Ok(None) => Err(PlanError::NoObject),
        Ok(Some(v)) => Ok(marks_of(v)),
    }
}

/// A plan goes strictly in the order of the files, and leaves no photo out.
pub proof fn plans_ascend(
    entries: Seq<(Seq<char>, Option<u64>, Option<u64>)>,
    plan: Seq<(Seq<char>, u64, u64)>,
    i: int,
    j: int,
)
    requires
        plans(entries, plan),
        distinct(entries),
        0 <= i < j < plan.len(),
    ensures
        before(plan[i].0, plan[j].0),
        plan.len() == entries.len(),
{
    broadcast use vstd::seq_lib::group_to_multiset_ensures;

    let sorted = choose|sorted: Seq<(Seq<char>, Option<u64>, Option<u64>)>|
        {
            &&& sorted.to_multiset() == entries.to_multiset()
            &&& #[trigger] ascending(sorted)
            &&& distinct(entries) ==> distinct(sorted)
            &&& plan == completed(sorted)
        };
    assert(sorted[i].0 != sorted[j].0);
    assert(!before(sorted[j].0, sorted[i].0));
    texts_are_ordered(sorted[i].0, sorted[j].0);
    assert(sorted.to_multiset().len() == entries.to_multiset().len());
}

proof fn lemma_same_photos_same_order(
    a: Seq<(Seq<char>, Option<u64>, Option<u64>)>,
    b: Seq<(Seq<char>, Option<u64>, Option<u64>)>,
)
    requires
        a.to_multiset() == b.to_multiset(),
        ascending(a),
        ascending(b),
        distinct(a),
        distinct(b),
    ensures
        a == b,
    decreases a.len(),
{
    a.to_multiset_ensures();
    b.to_multiset_ensures();
    if a.len() == 0 {
        assert(b.len() == 0);
        assert(a == b);
    } else {
        let last = a.len() - 1;
        assert(a.contains(a[last]) && b.contains(b[last]));
        assert(b.to_multiset().count(a[last]) > 0 && a.to_multiset().count(b[last]) > 0);
        let p = choose|p: int| 0 <= p < b.len() && b[p] == a[last];
        let q = choose|q: int| 0 <= q < a.len() && a[q] == b[last];
        if a[last] != b[last] {
            assert(b[p].0 != b[last].0 && a[q].0 != a[last].0);
            assert(!before(b[last].0, b[p].0) && !before(a[last].0, a[q].0));
            texts_are_ordered(a[last].0, b[last].0);
            assert(false);
        }
        let a1 = a.remove(last);
        let b1 = b.remove(last);
        assert forall|i: int, j: int| 0 <= i < j < a1.len() implies !before(
            #[trigger] a1[j].0,
            #[trigger] a1[i].0,
        ) && a1[i].0 != a1[j].0 by {
            assert(!before(a[j].0, a[i].0) && a[i].0 != a[j].0);
        }
        assert forall|i: int, j: int| 0 <= i < j < b1.len() implies !before(
            #[trigger] b1[j].0,
            #[trigger] b1[i].0,
        ) && b1[i].0 != b1[j].0 by {
            assert(!before(b[j].0, b[i].0) && b[i].0 != b[j].0);
        }
        lemma_same_photos_same_order(a1, b1);
        assert(a == a1.push(a[last]));
        assert(b == b1.push(b[last]));
    }
}

/// A manifest that lists a file once has one plan.
pub proof fn the_plan_is_unique(
    entries: Seq<(Seq<char>, Option<u64>, Option<u64>)>,
    one: Seq<(Seq<char>, u64, u64)>,
    other: Seq<(Seq<char>, u64, u64)>,
)
    requires
        plans(entries, one),
        plans(entries, other),
        distinct(entries),
    ensures
        one == other,
{
    let a = choose|sorted: Seq<(Seq<char>, Option<u64>, Option<u64>)>|
        {
            &&& sorted.to_multiset() == entries.to_multiset()
            &&& #[trigger] ascending(sorted)
            &&& distinct(entries) ==> distinct(sorted)
            &&& one == completed(sorted)
        };
    let b = choose|sorted: Seq<(Seq<char>, Option<u64>, Option<u64>)>|
        {
            &&& sorted.to_multiset() == entries.to_multiset()
            &&& #[trigger] ascending(sorted)
            &&& distinct(entries) ==> distinct(sorted)
            &&& other == completed(sorted)
        };
    lemma_same_photos_same_order(a, b);
}

/// What `serde_json` reads in the text of a manifest of albums: the members of
/// the object under the first name, in the order of the map, each with the list
/// that it has under the second; of every item in that list, the text under the
/// third name and, in what is under the fourth, the numbers under the last two.
/// `Err` holds the message for a text that is not JSON, and `Ok(None)` stands
/// for a manifest without such an object.
pub uninterp spec fn albums_in(raw: Seq<char>, albums: Seq<char>, photos: Seq<char>, file: Seq<char>, focus: Seq<char>, x: Seq<char>, y: Seq<char>) -> Result<Option<Seq<(Seq<char>, Option<Seq<(Option<Seq<char>>, Option<u64>, Option<u64>)>>)>>, Seq<char>>;

/// `serde_json::from_str` into a `Value`, read with `Value::as_object`,
/// `Value::as_array`, indexing by name, `Value::as_str` and `Value::as_f64`. The
/// result is named; nothing is claimed beyond the name.
#[verifier::external_body]
fn parse_albums(raw: &str, albums: &str, photos: &str, file: &str, focus: &str, x: &str, y: &str) -> (r: Result<Option<Vec<Album>>, String>)
    ensures
        match r {
            Err(e) => albums_in(raw@, albums@, photos@, file@, focus@, x@, y@) == Err::<Option<Seq<(Seq<char>, Option<Seq<(Option<Seq<char>>, Option<u64>, Option<u64>)>>)>>, Seq<char>>(e@),
            Ok(None) => albums_in(raw@, albums@, photos@, file@, focus@, x@, y@) == Ok::<Option<Seq<(Seq<char>, Option<Seq<(Option<Seq<char>>, Option<u64>, Option<u64>)>>)>>, Seq<char>>(None),
            Ok(Some(v)) => albums_in(raw@, albums@, photos@, file@, focus@, x@, y@) == Ok::<Option<Seq<(Seq<char>, Option<Seq<(Option<Seq<char>>, Option<u64>, Option<u64>)>>)>>, Seq<char>>(Some(told_albums(v@))),
        },
{
    let json: Value = serde_json::from_str(raw).map_err(|e| e.to_string())?;
    let photo = |p: &Value| AlbumPhoto {
        file: p[file].as_str().map(String::from),
        x: p[focus][x].as_f64().map(|n| n.to_bits()),
        y: p[focus][y].as_f64().map(|n| n.to_bits()),
    };
    Ok(json[albums].as_object().map(|o| o.iter().map(|(k, v)| Album {
        name: k.clone(),
        photos: v[photos].as_array().map(|l| l.iter().map(photo).collect()),
    }).collect()))
}

/// An album's photos with what is missing set: no text for the file, 0.5 for a
/// coordinate.
pub open spec fn album_marks(photos: Seq<(Option<Seq<char>>, Option<u64>, Option<u64>)>) -> Seq<(Seq<char>, u64, u64)> {
    Seq::new(
        photos.len(),
        |i: int|
            (
                match photos[i].0 {
                    Some(s) => s,
                    None => Seq::empty(),
                },
                or_half(photos[i].1),
                or_half(photos[i].2),
            ),
    )
}

/// The albums with a list of photos among the first `upto`, in order.
pub open spec fn with_photos(
    albums: Seq<(Seq<char>, Option<Seq<(Option<Seq<char>>, Option<u64>, Option<u64>)>>)>,
    upto: int,
) -> Seq<(Seq<char>, Seq<(Seq<char>, u64, u64)>)>
    decreases upto,
{
    if upto <= 0 {
        Seq::empty()
    } else {
        let rest = with_photos(albums, upto - 1);
        match albums[upto - 1].1 {
            Some(photos) => rest.push((albums[upto - 1].0, album_marks(photos))),
            None => rest,
        }
    }
}

/// The albums and their photos.
pub open spec fn planned(v: Seq<AlbumPlan>) -> Seq<(Seq<char>, Seq<(Seq<char>, u64, u64)>)> {
    Seq::new(v.len(), |i: int| (v[i].name@, marked(v[i].photos@)))
}

fn complete_album(v: &Vec<AlbumPhoto>) -> (r: Vec<Mark>)
    ensures
        marked(r@) == album_marks(Seq::new(v@.len(), |i: int| told_photo(v@[i]))),
{
    let ghost photos = Seq::new(v@.len(), |i: int| told_photo(v@[i]));
    let mut r: Vec<Mark> = Vec::new();
    let mut k: usize = 0;
    while k < v.len()
        invariant
            0 <= k <= v@.len(),
            photos == Seq::new(v@.len(), |i: int| told_photo(v@[i])),
            r@.len() == k,
            forall|i: int| 0 <= i < k ==> marked(r@)[i] == #[trigger] album_marks(photos)[i],
        decreases v@.len() - k,
    {
        let ghost done = marked(r@);
        let file: String = match &v[k].file {
            Some(s) => s.clone(),
            None => String::new(),
        };
        assert(photos[k as int] == told_photo(v@[k as int]));
        r.push(Mark { file, x: coordinate(v[k].x), y: coordinate(v[k].y) });
        assert(forall|i: int| 0 <= i < k ==> marked(r@)[i] == done[i]);
        k = k + 1;
    }
    assert(marked(r@) == album_marks(photos));
    r
}

/// The albums to review, from what a manifest lists: those with a list of
/// photos.
pub fn albums_of(v: &Vec<Album>) -> (r: Vec<AlbumPlan>)
    ensures
        planned(r@) == with_photos(told_albums(v@), v@.len() as int),
{
    let ghost albums = told_albums(v@);
    let mut r: Vec<AlbumPlan> = Vec::new();
    let mut k: usize = 0;
    while k < v.len()
        invariant
            0 <= k <= v@.len(),
            albums == told_albums(v@),
            planned(r@) == with_photos(albums, k as int),
        decreases v@.len() - k,
    {
        let ghost done = planned(r@);
        assert(albums[k as int] == told_album(v@[k as int]));
        if let Some(photos) = &v[k].photos {
            let plan = AlbumPlan { name: v[k].name.clone(), photos: complete_album(photos) };
            r.push(plan);
            assert(planned(r@) == done.push((plan.name@, marked(plan.photos@))));
        }
        k = k + 1;
    }
    r
}

/// The albums to review: those of the manifest that have a list of photos.
pub fn review_plan(raw: &str) -> (r: Result<Vec<AlbumPlan>, PlanError>)
    ensures
        match albums_in(raw@, "albums"@, "photos"@, "file"@, "focus"@, "x"@, "y"@) {
            Err(text) => r matches Err(PlanError::NotJson(e)) && e@ == text,
            Ok(None) => r matches Ok(v) && v@.len() == 0,
            Ok(Some(albums)) => r matches Ok(v) && planned(v@) == with_photos(
                albums,
                albums.len() as int,
            ),
        },
{
    match parse_albums(raw, "albums", "photos", "file", "focus", "x", "y") {
        Err(e) => Err(PlanError::NotJson(e)),
        Ok(None) => Ok(Vec::new()),
        Ok(Some(v)) => Ok(albums_of(&v)),
    }
}

/// The name of a review copy: the distance in front of the file's name.
pub open spec fn copy_name(distance: Seq<char>, file: Seq<char>) -> Seq<char> {
    "d"@ + distance + "-"@ + file
}

/// The name of a review copy.
pub fn review_name(distance: &str, file: &str) -> (r: String)
    ensures
        r@ == copy_name(distance@, file@),
        r@ == "d"@ + distance@ + "-"@ + file@,
{
    let mut r = String::new();
    r.append("d");
    r.append(distance);
    r.append("-");
    r.append(file);
    r
}

/// What stands for a photo in what is printed: its file, behind its album if it
/// has one.
pub open spec fn photo_label(album: Option<&str>, file: Seq<char>) -> Seq<char> {
    match album {
        Some(a) => a@ + "/"@ + file,
        None => file,
    }
}

fn label(album: Option<&str>, file: &str) -> (r: String)
    ensures
        r@ == photo_label(album, file@),
{
    let mut r = String::new();
    if let Some(a) = album {
        r.append(a);
        r.append("/");
    }
    r.append(file);
    assert(r@ == photo_label(album, file@));
    r
}

/// The line that is printed for a photo that was measured.
pub fn photo_line(album: Option<&str>, file: &str, distance: &str) -> (r: String)
    ensures
        r@ == photo_label(album, file@) + ": d="@ + distance@,
{
    let mut r = label(album, file);
    r.append(": d=");
    r.append(distance);
    r
}

/// The line that is printed for a photo that failed.
pub fn failure_line(album: Option<&str>, file: &str, message: &str) -> (r: String)
    ensures
        r@ == photo_label(album, file@) + ": "@ + message@,
{
    let mut r = label(album, file);
    r.append(": ");
    r.append(message);
    r
}

/// The thousandths that a text of digits with a point before the last three
/// stands for.
pub open spec fn thousandths(s: Seq<char>) -> Option<int> {
    if s.len() >= 5 && s[s.len() - 4] == '.' {
        crate::digits::read(s.remove(s.len() - 4))
    } else {
        None
    }
}

proof fn lemma_same_number_same_digits(a: Seq<char>, b: Seq<char>)
    requires
        a.len() == b.len(),
        crate::digits::read(a) is Some,
        crate::digits::read(a) == crate::digits::read(b),
    ensures
        a == b,
    decreases a.len(),
{
    if a.len() > 0 {
        lemma_same_number_same_digits(a.drop_last(), b.drop_last());
        assert(a.last() == b.last());
        assert(a == a.drop_last().push(a.last()));
        assert(b == b.drop_last().push(b.last()));
    } else {
        assert(a == b);
    }
}

proof fn lemma_digits_sort_as_numbers(a: Seq<char>, b: Seq<char>) -> (k: int)
    requires
        a.len() == b.len(),
        crate::digits::read(a) matches Some(m) && (crate::digits::read(b) matches Some(n) && m < n),
    ensures
        0 <= k < a.len(),
        forall|i: int| 0 <= i < k ==> a[i] == b[i],
        (a[k] as int) < (b[k] as int),
    decreases a.len(),
{
    let a1 = a.drop_last();
    let b1 = b.drop_last();
    let last = a.len() - 1;
    if crate::digits::read(a1)->0 == crate::digits::read(b1)->0 {
        lemma_same_number_same_digits(a1, b1);
        assert forall|i: int| 0 <= i < last implies a[i] == b[i] by {
            assert(a1[i] == b1[i]);
        }
        last
    } else {
        let k = lemma_digits_sort_as_numbers(a1, b1);
        assert forall|i: int| 0 <= i < k implies a[i] == b[i] by {
            assert(a1[i] == b1[i]);
        }
        assert(a1[k] == a[k] && b1[k] == b[k]);
        k
    }
}

/// Review copies sort by how far off the detection is: of two distances that are
/// written with as many digits, the smaller one's copy comes first, whatever the
/// files are called.
pub proof fn copies_sort_by_distance(
    near: Seq<char>,
    far: Seq<char>,
    file: Seq<char>,
    other: Seq<char>,
)
    requires
        near.len() == far.len(),
        before(near, far) || (thousandths(near) matches Some(m) && (thousandths(far) matches Some(
            n,
        ) && m < n)),
    ensures
        before(copy_name(near, file), copy_name(far, other)),
{
    reveal_strlit("d");
    let a = copy_name(near, file);
    let b = copy_name(far, other);
    let k: int = if before(near, far) {
        choose|k: int| before_at(near, far, k)
    } else {
        let p = near.len() - 4;
        let k = lemma_digits_sort_as_numbers(near.remove(p), far.remove(p));
        if k < p {
            assert forall|i: int| 0 <= i < k implies near[i] == far[i] by {
                assert(near.remove(p)[i] == far.remove(p)[i]);
            }
            k
        } else {
            assert forall|i: int| 0 <= i < k + 1 implies near[i] == far[i] by {
                if i < p {
                    assert(near.remove(p)[i] == far.remove(p)[i]);
                } else if i > p {
                    assert(near.remove(p)[i - 1] == far.remove(p)[i - 1]);
                }
            }
            k + 1
        }
    };
    assert forall|i: int| 0 <= i < k + 1 implies a[i] == b[i] by {
        if i > 0 {
            assert(a[i] == near[i - 1] && b[i] == far[i - 1]);
        }
    }
    assert(a[k + 1] == near[k] && b[k + 1] == far[k]);
    assert(before_at(a, b, k + 1));
}

/// How many of some photos could be measured.
pub open spec fn passed(ok: Seq<bool>) -> nat
    decreases ok.len(),
{
    if ok.len() == 0 {
        0
    } else {
        passed(ok.drop_last()) + if ok.last() {
            1nat
        } else {
            0nat
        }
    }
}

/// How a run over photos ended.
#[derive(Clone, Copy, Debug, PartialEq, Eq, Structural)]
pub struct Tally {
    /// The number of photos that were measured: those that the mean is taken of.
    pub n: usize,
    /// Whether any photo failed.
    pub failed: bool,
}

/// Counts the photos that were measured; one that failed does not stop the run.
pub fn tally(ok: &Vec<bool>) -> (r: Tally)
    ensures
        r.n == passed(ok@),
        r.failed <==> exists|i: int| 0 <= i < ok@.len() && !#[trigger] ok@[i],
{
    let mut n: usize = 0;
    let mut failed: bool = false;
    let mut k: usize = 0;
    while k < ok.len()
        invariant
            0 <= k <= ok@.len(),
            n == passed(ok@.take(k as int)),
            n <= k,
            failed <==> exists|i: int| 0 <= i < k && !#[trigger] ok@[i],
        decreases ok@.len() - k,
    {
        assert(ok@.take(k + 1).drop_last() == ok@.take(k as int));
        if ok[k] {
            n = n + 1;
        } else {
            assert(!ok@[k as int]);
            failed = true;
        }
        k = k + 1;
    }
    assert(ok@.take(k as int) == ok@);
    Tally { n, failed }
}

impl Tally {
    /// The exit status of the run: one if a photo failed, else zero.
    pub fn status(&self) -> (r: i32)
        ensures
            r == if self.failed {
                1int
            } else {
                0
            },
    {
        if self.failed {
            1
        } else {
            0
        }
    }

    /// The line at the end of an evaluation, if any photo was measured.
    pub fn eval_line(&self, mean: &str) -> (r: Option<String>)
        ensures
            r is Some <==> self.n > 0,
            r matches Some(s) ==> s@ == "evaluated "@ + crate::digits::decimal(self.n as nat)
                + " photos, mean distance "@ + mean@,
    {
        if self.n == 0 {
            return None;
        }
        let mut r = String::new();
        r.append("evaluated ");
        r.append(decimal_text(self.n as u64).as_str());
        r.append(" photos, mean distance ");
        r.append(mean);
        Some(r)
    }

    /// The line at the end of a review, if any photo was measured.
    pub fn review_line(&self, mean: &str, out: &str) -> (r: Option<String>)
        ensures
            r is Some <==> self.n > 0,
            r matches Some(s) ==> s@ == "reviewed "@ + crate::digits::decimal(self.n as nat)
                + " photos, mean distance "@ + mean@ + " -> "@ + out@,
    {
        if self.n == 0 {
            return None;
        }
        let mut r = String::new();
        r.append("reviewed ");
        r.append(decimal_text(self.n as u64).as_str());
        r.append(" photos, mean distance ");
        r.append(mean);
        r.append(" -> ");
        r.append(out);
        Some(r)
    }
}

/// A run in which no photo failed measured every one.
pub proof fn without_failures_all_count(ok: Seq<bool>)
    ensures
        passed(ok) <= ok.len(),
        passed(ok) == ok.len() <==> forall|i: int| 0 <= i < ok.len() ==> #[trigger] ok[i],
    decreases ok.len(),
{
    if ok.len() > 0 {
        let rest = ok.drop_last();
        without_failures_all_count(rest);
        if forall|i: int| 0 <= i < ok.len() ==> #[trigger] ok[i] {
            assert forall|i: int| 0 <= i < rest.len() implies #[trigger] rest[i] by {
                assert(ok[i]);
            }
        }
        if passed(ok) == ok.len() {
            assert forall|i: int| 0 <= i < ok.len() implies #[trigger] ok[i] by {
                if i < rest.len() {
                    assert(rest[i] == ok[i]);
                }
            }
        }
    }
}

/// Texts go by their first difference: the one with the smaller character there
/// comes before the other, and one that only ends earlier comes before what goes
/// on.
pub proof fn the_first_difference_decides(
    common: Seq<char>,
    a: Seq<char>,
    b: Seq<char>,
    c: char,
    d: char,
)
    ensures
        (c as int) < (d as int) ==> before(common + seq![c] + a, common + seq![d] + b),
        before(common, common + seq![c] + a),
{
    let k = common.len() as int;
    let one = common + seq![c] + a;
    let other = common + seq![d] + b;
    assert forall|i: int| 0 <= i < k implies one[i] == other[i] && common[i] == one[i] by {}
    assert(one[k] == c && other[k] == d);
    if (c as int) < (d as int) {
        assert(before_at(one, other, k));
    }
    assert(before_at(common, one, k));
}

/// A coordinate that the manifest gives is taken as it is, and 0.5 stands for a
/// missing one; the file is that of the entry, and each coordinate its own.
pub proof fn missing_coordinates_are_halves(
    e: Seq<(Seq<char>, Option<u64>, Option<u64>)>,
    i: int,
)
    requires
        0 <= i < e.len(),
    ensures
        completed(e).len() == e.len(),
        completed(e)[i].0 == e[i].0,
        e[i].1 matches Some(n) ==> completed(e)[i].1 == n,
        e[i].1 is None ==> completed(e)[i].1 == 0x3fe0_0000_0000_0000u64,
        e[i].2 matches Some(n) ==> completed(e)[i].2 == n,
        e[i].2 is None ==> completed(e)[i].2 == 0x3fe0_0000_0000_0000u64,
{
}

/// Every photo that a manifest lists is in the plan, with its point, and nothing
/// else is.
pub proof fn plans_hold_what_is_listed(
    entries: Seq<(Seq<char>, Option<u64>, Option<u64>)>,
    plan: Seq<(Seq<char>, u64, u64)>,
    i: int,
)
    requires
        plans(entries, plan),
    ensures
        plan.len() == entries.len(),
        0 <= i < entries.len() ==> exists|j: int|
            0 <= j < plan.len() && (#[trigger] plan[j]).0 == entries[i].0 && (entries[i].1 matches Some(
                n,
            ) ==> plan[j].1 == n) && (entries[i].1 is None ==> plan[j].1
                == 0x3fe0_0000_0000_0000u64) && (entries[i].2 matches Some(n) ==> plan[j].2 == n) && (
            entries[i].2 is None ==> plan[j].2 == 0x3fe0_0000_0000_0000u64),
        0 <= i < plan.len() ==> exists|j: int|
            0 <= j < entries.len() && (#[trigger] entries[j]).0 == plan[i].0,
{
    let sorted = choose|sorted: Seq<(Seq<char>, Option<u64>, Option<u64>)>|
        {
            &&& sorted.to_multiset() == entries.to_multiset()
            &&& #[trigger] ascending(sorted)
            &&& distinct(entries) ==> distinct(sorted)
            &&& plan == completed(sorted)
        };
    sorted.to_multiset_ensures();
    entries.to_multiset_ensures();
    assert(sorted.to_multiset().len() == entries.to_multiset().len());
    if 0 <= i < entries.len() {
        assert(entries.contains(entries[i]));
        assert(sorted.to_multiset().count(entries[i]) > 0);
        assert(sorted.contains(entries[i]));
        let j = choose|j: int| 0 <= j < sorted.len() && sorted[j] == entries[i];
        missing_coordinates_are_halves(sorted, j);
        assert(plan[j].0 == entries[i].0);
    }
    if 0 <= i < plan.len() {
        assert(sorted.contains(sorted[i]));
        assert(entries.to_multiset().count(sorted[i]) > 0);
        assert(entries.contains(sorted[i]));
        let j = choose|j: int| 0 <= j < entries.len() && entries[j] == sorted[i];
        assert(entries[j].0 == plan[i].0);
    }
}

/// Albums are planned in their order: one with a list of photos is, one without is
/// left out.
pub proof fn albums_without_photos_are_left_out(
    albums: Seq<(Seq<char>, Option<Seq<(Option<Seq<char>>, Option<u64>, Option<u64>)>>)>,
    k: int,
)
    requires
        0 <= k < albums.len(),
    ensures
        with_photos(albums, 0).len() == 0,
        albums[k].1 is None ==> with_photos(albums, k + 1) == with_photos(albums, k),
        albums[k].1 matches Some(photos) ==> with_photos(albums, k + 1) == with_photos(albums, k).push(
            (albums[k].0, album_marks(photos)),
        ),
{
}

/// The photos of an album keep their order; a missing file is no text, a missing
/// coordinate 0.5.
pub proof fn album_photos_keep_their_order(
    photos: Seq<(Option<Seq<char>>, Option<u64>, Option<u64>)>,
    i: int,
)
    requires
        0 <= i < photos.len(),
    ensures
        album_marks(photos).len() == photos.len(),
        photos[i].0 matches Some(s) ==> album_marks(photos)[i].0 == s,
        photos[i].0 is None ==> album_marks(photos)[i].0.len() == 0,
        photos[i].1 matches Some(n) ==> album_marks(photos)[i].1 == n,
        photos[i].1 is None ==> album_marks(photos)[i].1 == 0x3fe0_0000_0000_0000u64,
        photos[i].2 matches Some(n) ==> album_marks(photos)[i].2 == n,
        photos[i].2 is None ==> album_marks(photos)[i].2 == 0x3fe0_0000_0000_0000u64,
{
}

/// Photos are counted one by one: each that was measured adds one, and no other
/// does.
pub proof fn measured_photos_are_counted(ok: Seq<bool>)
    ensures
        passed(Seq::empty()) == 0,
        passed(ok.push(true)) == passed(ok) + 1,
        passed(ok.push(false)) == passed(ok),
{
    assert(ok.push(true).drop_last() == ok);
    assert(ok.push(false).drop_last() == ok);
}

/// A photo of an album is named by both, parted by a slash, any other by its file
/// alone; a review copy starts with a `d`, its distance and a dash before the file.
pub proof fn photos_are_named_by_album_and_file(album: &str, distance: Seq<char>, file: Seq<char>)
    ensures
        photo_label(None, file) == file,
        photo_label(Some(album), file) == album@ + seq!['/'] + file,
        copy_name(distance, file) == seq!['d'] + distance + seq!['-'] + file,
{
    reveal_strlit("/");
    reveal_strlit("d");
    reveal_strlit("-");
    assert("/"@ == seq!['/'] && "d"@ == seq!['d'] && "-"@ == seq!['-']);
}

/// A run ends with status one if a photo failed, else with zero; the line at its
/// end tells how many were measured and how far off they are on average, and is
/// left out if none was.
pub proof fn runs_report_how_they_ended(
    t: Tally,
    mean: &str,
    out: &str,
    status: i32,
    eval: Option<String>,
    review: Option<String>,
)
    requires
        call_ensures(Tally::status, (&t,), status),
        call_ensures(Tally::eval_line, (&t, mean), eval),
        call_ensures(Tally::review_line, (&t, mean, out), review),
    ensures
        t.failed ==> status == 1,
        !t.failed ==> status == 0,
        t.n == 0 ==> eval is None && review is None,
        t.n > 0 ==> (eval matches Some(s) && s@ == "evaluated "@ + crate::digits::decimal(t.n as nat)
            + " photos, mean distance "@ + mean@),
        t.n > 0 ==> (review matches Some(s) && s@ == "reviewed "@ + crate::digits::decimal(
            t.n as nat,
        ) + " photos, mean distance "@ + mean@ + " -> "@ + out@),
{
}

} // verus!
