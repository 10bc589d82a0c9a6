//! The line of an image's features: a JSON object, completed member by member.

use crate::golden::before;
use crate::text::quoted;
use serde_json::Value;
use vstd::prelude::*;

verus! {

/// `serde_json::Map`, a map from names to values.
#[verifier::external_type_specification]
#[verifier::external_body]
#[verifier::reject_recursive_types(K)]
#[verifier::reject_recursive_types(V)]
pub struct ExMap<K, V>(serde_json::Map<K, V>);

/// `serde_json::Value`, any JSON value.
#[verifier::external_type_specification]
#[verifier::external_body]
pub struct ExValue(serde_json::Value);

/// Why a record cannot be completed.
pub enum RecordError {
    /// It is not JSON; the text says where it goes wrong.
    NotJson(String),
    /// It is JSON, but no object.
    NoObject,
}

/// The members of an object in the order of the map: the name of each, and what
/// `serde_json` writes for its value.
pub uninterp spec fn members_of(m: serde_json::Map<String, serde_json::Value>) -> Seq<(Seq<char>, Seq<char>)>;

/// The members of the object that `serde_json` reads in a text. `Err` holds the
/// message for a text that is not JSON, and `Ok(None)` stands for JSON that is no
/// object.
pub uninterp spec fn members_in(record: Seq<char>) -> Result<Option<Seq<(Seq<char>, Seq<char>)>>, Seq<char>>;

/// What `serde_json` writes for the finite number that a text stands for, `null`
/// for any other text.
pub uninterp spec fn number_text(s: Seq<char>) -> Seq<char>;

/// Whether members go strictly in the order of their names.
pub open spec fn in_order(s: Seq<(Seq<char>, Seq<char>)>) -> bool {
    forall|i: int, j: int| 0 <= i < j < s.len() ==> before(#[trigger] s[i].0, #[trigger] s[j].0)
}

/// Members with one set: in the place of the one with that name, else before the
/// first whose name comes later.
pub open spec fn with_member(
    s: Seq<(Seq<char>, Seq<char>)>,
    name: Seq<char>,
    value: Seq<char>,
) -> Seq<(Seq<char>, Seq<char>)>
    decreases s.len(),
{
    if s.len() == 0 {
        seq![(name, value)]
    } else if s[0].0 == name {
        s.update(0, (name, value))
    } else if before(name, s[0].0) {
        seq![(name, value)] + s
    } else {
        seq![s[0]] + with_member(s.skip(1), name, value)
    }
}

/// The value of the first member with a name.
pub open spec fn member(s: Seq<(Seq<char>, Seq<char>)>, name: Seq<char>) -> Option<Seq<char>>
    decreases s.len(),
{
    if s.len() == 0 {
        None
    } else if s[0].0 == name {
        Some(s[0].1)
    } else {
        member(s.skip(1), name)
    }
}

/// Members as they stand between the braces of an object.
pub open spec fn listed(s: Seq<(Seq<char>, Seq<char>)>) -> Seq<char>
    decreases s.len(),
{
    if s.len() == 0 {
        Seq::empty()
    } else {
        let last = quoted(s.last().0) + seq![':'] + s.last().1;
        if s.len() == 1 {
            last
        } else {
            listed(s.drop_last()) + seq![','] + last
        }
    }
}

/// An object in JSON, without blanks.
pub open spec fn object_text(s: Seq<(Seq<char>, Seq<char>)>) -> Seq<char> {
    seq!['{'] + listed(s) + seq!['}']
}

/// A record with its point and its file set.
pub open spec fn completed_record(
    s: Seq<(Seq<char>, Seq<char>)>,
    x: Seq<char>,
    y: Seq<char>,
    file: Seq<char>,
) -> Seq<(Seq<char>, Seq<char>)> {
    let at_x = with_member(s, "x"@, number_text(x));
    let at_y = with_member(at_x, "y"@, number_text(y));
    with_member(at_y, "file"@, quoted(file))
}

/// `serde_json::from_str` into a `Value`, and `Value::as_object`. The members are
/// named; it is claimed beyond the name that they go in the order of their
/// names, each once.
#[verifier::external_body]
fn parse_object(record: &str) -> (r: Result<Option<serde_json::Map<String, serde_json::Value>>, String>)
    ensures
        match r {
            Err(e) => members_in(record@) == Err::<Option<Seq<(Seq<char>, Seq<char>)>>, Seq<char>>(e@),
            Ok(None) => members_in(record@) == Ok::<Option<Seq<(Seq<char>, Seq<char>)>>, Seq<char>>(None),
            Ok(Some(m)) => members_in(record@) == Ok::<Option<Seq<(Seq<char>, Seq<char>)>>, Seq<char>>(Some(members_of(m))) && in_order(members_of(m)),
        },
{
    let json: Value = serde_json::from_str(record).map_err(|e| e.to_string())?;
    Ok(json.as_object().cloned())
}

/// `Map::insert` of the number that a text stands for, read by `str::parse` and
/// made by `Number::from_f64`; null where there is none. The member is set, and
/// the others stay.
#[verifier::external_body]
fn insert_number(m: &mut serde_json::Map<String, serde_json::Value>, name: &str, number: &str)
    ensures
        members_of(*final(m)) == with_member(members_of(*old(m)), name@, number_text(number@)),
{
    m.insert(name.to_string(), number.parse().ok().and_then(serde_json::Number::from_f64).into());
}

/// `Map::insert` of a text. The member is set, and the others stay.
#[verifier::external_body]
fn insert_text(m: &mut serde_json::Map<String, serde_json::Value>, name: &str, text: &str)
    ensures
        members_of(*final(m)) == with_member(members_of(*old(m)), name@, quoted(text@)),
{
    m.insert(name.to_string(), text.into());
}

/// `serde_json::to_string` on a map: the members in the order of the map, with
/// commas between them and without blanks. With texts for names, and numbers that
/// are finite, it succeeds on every map.
#[verifier::external_body]
fn print_object(m: &serde_json::Map<String, serde_json::Value>) -> (r: String)
    ensures
        r@ == object_text(members_of(*m)),
{
    serde_json::to_string(m).unwrap()
}

/// The line of an image's features: the record of its scaled frame, with the
/// point of the second look and the file. The coordinates are given in decimals.
pub fn features_line(record: &str, x: &str, y: &str, file: &str) -> (r: Result<String, RecordError>)
    ensures
        match members_in(record@) {
            Err(text) => r matches Err(RecordError::NotJson(e)) && e@ == text,
            Ok(None) => r matches Err(RecordError::NoObject),
            Ok(Some(members)) => in_order(members) && (r matches Ok(s) && s@ == object_text(
                completed_record(members, x@, y@, file@),
            )),
        },
{
    match parse_object(record) {
        Err(e) => Err(RecordError::NotJson(e)),
        Ok(None) => Err(RecordError::NoObject),
        Ok(Some(found)) => {
            let mut m = found;
            insert_number(&mut m, "x", x);
            insert_number(&mut m, "y", y);
            insert_text(&mut m, "file", file);
            Ok(print_object(&m))
        },
    }
}

/// Setting a member sets that one and leaves the others.
pub proof fn setting_leaves_the_others(
    s: Seq<(Seq<char>, Seq<char>)>,
    name: Seq<char>,
    value: Seq<char>,
    other: Seq<char>,
)
    ensures
        member(with_member(s, name, value), other) == if other == name {
            Some(value)
        } else {
            member(s, other)
        },
    decreases s.len(),
{
    let r = with_member(s, name, value);
    reveal_with_fuel(member, 3);
    if s.len() == 0 {
        assert(r.skip(1).len() == 0);
    } else if s[0].0 == name {
        assert(r.skip(1) == s.skip(1));
    } else if before(name, s[0].0) {
        assert(r.skip(1) == s);
    } else {
        setting_leaves_the_others(s.skip(1), name, value, other);
        assert(r.skip(1) == with_member(s.skip(1), name, value));
    }
}

/// A completed record has the point of the second look and the file, and every
/// other member of the record.
pub proof fn completion_sets_point_and_file(
    s: Seq<(Seq<char>, Seq<char>)>,
    x: Seq<char>,
    y: Seq<char>,
    file: Seq<char>,
    other: Seq<char>,
)
    ensures
        member(completed_record(s, x, y, file), "x"@) == Some(number_text(x)),
        member(completed_record(s, x, y, file), "y"@) == Some(number_text(y)),
        member(completed_record(s, x, y, file), "file"@) == Some(quoted(file)),
        other != "x"@ && other != "y"@ && other != "file"@ ==> member(
            completed_record(s, x, y, file),
            other,
        ) == member(s, other),
{
    reveal_strlit("x");
    reveal_strlit("y");
    reveal_strlit("file");
    assert("x"@[0] != "y"@[0] && "x"@[0] != "file"@[0] && "y"@[0] != "file"@[0]);
    let at_x = with_member(s, "x"@, number_text(x));
    let at_y = with_member(at_x, "y"@, number_text(y));
    setting_leaves_the_others(s, "x"@, number_text(x), "x"@);
    setting_leaves_the_others(at_x, "y"@, number_text(y), "x"@);
    setting_leaves_the_others(at_y, "file"@, quoted(file), "x"@);
    setting_leaves_the_others(at_x, "y"@, number_text(y), "y"@);
    setting_leaves_the_others(at_y, "file"@, quoted(file), "y"@);
    setting_leaves_the_others(at_y, "file"@, quoted(file), "file"@);
    setting_leaves_the_others(s, "x"@, number_text(x), other);
    setting_leaves_the_others(at_x, "y"@, number_text(y), other);
    setting_leaves_the_others(at_y, "file"@, quoted(file), other);
}

/// Members are listed one behind the other: each as its name in quotation marks, a
/// colon and its value, and a comma before each but the first.
pub proof fn members_are_listed_with_commas(
    s: Seq<(Seq<char>, Seq<char>)>,
    name: Seq<char>,
    value: Seq<char>,
)
    ensures
        object_text(Seq::empty()) == seq!['{', '}'],
        listed(Seq::<(Seq<char>, Seq<char>)>::empty()) == Seq::<char>::empty(),
        s.len() == 0 ==> listed(s.push((name, value))) == quoted(name) + seq![':'] + value,
        s.len() > 0 ==> listed(s.push((name, value))) == listed(s) + seq![','] + (quoted(name) + seq![
            ':',
        ] + value),
        object_text(s) == seq!['{'] + listed(s) + seq!['}'],
{
    let more = s.push((name, value));
    assert(more.drop_last() == s);
    assert(more.last() == (name, value));
    assert(object_text(Seq::empty()) == seq!['{', '}']);
}

/// A member that is set is found under its name: the first with that name is.
pub proof fn members_are_found_by_name(
    s: Seq<(Seq<char>, Seq<char>)>,
    name: Seq<char>,
    i: int,
)
    requires
        0 <= i < s.len(),
        s[i].0 == name,
        forall|k: int| 0 <= k < i ==> #[trigger] s[k].0 != name,
    ensures
        member(s, name) == Some(s[i].1),
    decreases i,
{
    if i > 0 {
        assert(s[0].0 != name);
        let rest = s.skip(1);
        assert forall|k: int| 0 <= k < i - 1 implies #[trigger] rest[k].0 != name by {
            assert(s[k + 1].0 != name);
        }
        members_are_found_by_name(rest, name, i - 1);
    }
}

/// A name that no member has is not found.
pub proof fn missing_members_are_not_found(s: Seq<(Seq<char>, Seq<char>)>, name: Seq<char>)
    requires
        forall|k: int| 0 <= k < s.len() ==> #[trigger] s[k].0 != name,
    ensures
        member(s, name) is None,
    decreases s.len(),
{
    if s.len() > 0 {
        assert(s[0].0 != name);
        let rest = s.skip(1);
        assert forall|k: int| 0 <= k < rest.len() implies #[trigger] rest[k].0 != name by {
            assert(s[k + 1].0 != name);
        }
        missing_members_are_not_found(rest, name);
    }
}

/// Setting a member keeps the names in order and adds one at most.
pub proof fn setting_keeps_the_order(
    s: Seq<(Seq<char>, Seq<char>)>,
    name: Seq<char>,
    value: Seq<char>,
)
    requires
        in_order(s),
    ensures
        in_order(with_member(s, name, value)),
        with_member(s, name, value).len() == if member(s, name) is Some {
            s.len()
        } else {
            s.len() + 1
        },
        forall|k: int|
            0 <= k < with_member(s, name, value).len() ==> (#[trigger] with_member(s, name, value)[k]).0
                == name || exists|j: int| 0 <= j < s.len() && #[trigger] s[j] == with_member(
                s,
                name,
                value,
            )[k],
    decreases s.len(),
{
    let r = with_member(s, name, value);
    if s.len() == 0 {
    } else if s[0].0 == name {
        assert forall|i: int, j: int| 0 <= i < j < r.len() implies before(
            #[trigger] r[i].0,
            #[trigger] r[j].0,
        ) by {
            assert(before(s[i].0, s[j].0));
        }
        assert forall|k: int| 0 <= k < r.len() implies (#[trigger] r[k]).0 == name || exists|j: int|
            0 <= j < s.len() && #[trigger] s[j] == r[k] by {
            if k > 0 {
                assert(s[k] == r[k]);
            }
        }
    } else if before(name, s[0].0) {
        assert forall|k: int| 0 <= k < s.len() implies before(name, #[trigger] s[k].0) by {
            if k > 0 {
                assert(before(s[0].0, s[k].0));
                crate::golden::before_carries_over(name, s[0].0, s[k].0);
            }
        }
        assert forall|k: int| 0 <= k < s.len() implies #[trigger] s[k].0 != name by {
            assert(before(name, s[k].0));
            crate::golden::texts_are_ordered(name, name);
        }
        missing_members_are_not_found(s, name);
        assert forall|i: int, j: int| 0 <= i < j < r.len() implies before(
            #[trigger] r[i].0,
            #[trigger] r[j].0,
        ) by {
            if i > 0 {
                assert(before(s[i - 1].0, s[j - 1].0));
            } else {
                assert(r[j] == s[j - 1]);
            }
        }
        assert forall|k: int| 0 <= k < r.len() implies (#[trigger] r[k]).0 == name || exists|j: int|
            0 <= j < s.len() && #[trigger] s[j] == r[k] by {
            if k > 0 {
                assert(s[k - 1] == r[k]);
            }
        }
    } else {
        let rest = s.skip(1);
        assert forall|i: int, j: int| 0 <= i < j < rest.len() implies before(
            #[trigger] rest[i].0,
            #[trigger] rest[j].0,
        ) by {
            assert(before(s[i + 1].0, s[j + 1].0));
        }
        setting_keeps_the_order(rest, name, value);
        let tail = with_member(rest, name, value);
        crate::golden::texts_are_ordered(name, s[0].0);
        assert forall|k: int| 0 <= k < tail.len() implies before(s[0].0, (#[trigger] tail[k]).0) by {
            if tail[k].0 != name {
                let j = choose|j: int| 0 <= j < rest.len() && #[trigger] rest[j] == tail[k];
                assert(before(s[0].0, s[j + 1].0));
            }
        }
        assert forall|i: int, j: int| 0 <= i < j < r.len() implies before(
            #[trigger] r[i].0,
            #[trigger] r[j].0,
        ) by {
            if i > 0 {
                assert(before(tail[i - 1].0, tail[j - 1].0));
            } else {
                assert(r[j] == tail[j - 1]);
            }
        }
        assert forall|k: int| 0 <= k < r.len() implies (#[trigger] r[k]).0 == name || exists|j: int|
            0 <= j < s.len() && #[trigger] s[j] == r[k] by {
            if k == 0 {
                assert(s[0] == r[0]);
            } else {
                assert(r[k] == tail[k - 1]);
                if tail[k - 1].0 != name {
                    let j = choose|j: int| 0 <= j < rest.len() && #[trigger] rest[j] == tail[k - 1];
                    assert(s[j + 1] == r[k]);
                }
            }
        }
    }
}

} // verus!
