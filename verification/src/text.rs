//! The texts of the command line: what is printed for an image and what is
//! read from arguments.

use crate::digits::decimal_text;
use crate::weights::Category;
use vstd::prelude::*;
use vstd::string::{StrSliceExecFns, StringExecFns};

verus! {

/// The name of the build, which changes with every change of the algorithm.
pub const AF_BUILD_VERSION: &'static str = "2026-08-31-snap-face-veto";

/// The name of the build.
pub fn build_version() -> (r: String)
    ensures
        r@ == AF_BUILD_VERSION@,
{
    AF_BUILD_VERSION.to_owned()
}

/// A percentage given in tenths of a percent: whole ones without a fraction,
/// others with one digit of it. Below zero the fraction is dropped.
pub open spec fn percent(tenths: int) -> Seq<char> {
    if tenths < 0 {
        if -tenths < 10 {
            "0%"@
        } else {
            "-"@ + crate::digits::decimal(((-tenths) / 10) as nat) + "%"@
        }
    } else if tenths % 10 == 0 {
        crate::digits::decimal((tenths / 10) as nat) + "%"@
    } else {
        crate::digits::decimal((tenths / 10) as nat) + "."@ + crate::digits::decimal(
            (tenths % 10) as nat,
        ) + "%"@
    }
}

/// A percentage given in tenths of a percent.
pub fn pct_str(tenths: i64) -> (r: String)
    requires
        tenths > i64::MIN,
    ensures
        r@ == percent(tenths as int),
        -10 < tenths < 0 ==> r@ == "0%"@,
        tenths <= -10 ==> r@ == "-"@ + crate::digits::decimal(((-tenths) / 10) as nat) + "%"@,
        tenths >= 0 && tenths % 10 == 0 ==> r@ == crate::digits::decimal((tenths / 10) as nat) + "%"@,
        tenths >= 0 && tenths % 10 != 0 ==> r@ == crate::digits::decimal((tenths / 10) as nat) + "."@
            + crate::digits::decimal((tenths % 10) as nat) + "%"@,
{
    if tenths < 0 {
        let size: u64 = (-tenths) as u64;
        if size < 10 {
            return "0%".to_owned();
        }
        let mut r = "-".to_owned();
        r.append(decimal_text(size / 10).as_str());
        r.append("%");
        r
    } else {
        let t: u64 = tenths as u64;
        let mut r = decimal_text(t / 10);
        if t % 10 != 0 {
            r.append(".");
            r.append(decimal_text(t % 10).as_str());
        }
        r.append("%");
        r
    }
}

/// A percentage never ends in a fraction of zero.
pub proof fn percentages_drop_a_zero_fraction(tenths: int)
    requires
        0 <= tenths,
        tenths % 10 == 0,
    ensures
        percent(tenths) == crate::digits::decimal((tenths / 10) as nat) + "%"@,
{
}

/// A character as it stands in a JSON string.
pub open spec fn escaped(c: char) -> Seq<char> {
    if c == '"' {
        seq!['\\', '"']
    } else if c == '\\' {
        seq!['\\', '\\']
    } else if c == '\u{8}' {
        seq!['\\', 'b']
    } else if c == '\t' {
        seq!['\\', 't']
    } else if c == '\n' {
        seq!['\\', 'n']
    } else if c == '\u{c}' {
        seq!['\\', 'f']
    } else if c == '\r' {
        seq!['\\', 'r']
    } else if (c as int) < 32 {
        seq![
            '\\',
            'u',
            '0',
            '0',
            crate::digits::digit(c as int / 16),
            crate::digits::digit(c as int % 16),
        ]
    } else {
        seq![c]
    }
}

/// The characters of a text as they stand in a JSON string.
pub open spec fn escaped_all(s: Seq<char>) -> Seq<char>
    decreases s.len(),
{
    if s.len() == 0 {
        Seq::empty()
    } else {
        escaped_all(s.drop_last()) + escaped(s.last())
    }
}

/// A text as a JSON string.
pub open spec fn quoted(s: Seq<char>) -> Seq<char> {
    seq!['"'] + escaped_all(s) + seq!['"']
}

/// Calls `serde_json::to_string` on a text. It is taken to give the text between
/// quotation marks, with quotation marks, backslashes and control characters
/// escaped, the latter in short form or by four lower-case hexadecimal digits,
/// and to succeed on every text.
#[verifier::external_body]
fn json_string(s: &str) -> (r: String)
    ensures
        r@ == quoted(s@),
{
    serde_json::to_string(s).unwrap()
}

/// What is printed for an image: as percentages, as a JSON object, or as plain
/// coordinates. Coordinates that are not percentages are given as texts.
pub enum Answer<'a> {
    Pct { x10: i64, y10: i64 },
    Json { file: &'a str, x: &'a str, y: &'a str, category: Category },
    Xy { x: &'a str, y: &'a str },
}

/// The name of the image before an answer, if it is not left out.
pub open spec fn prefix(name: Seq<char>, quiet: bool) -> Seq<char> {
    if quiet {
        Seq::empty()
    } else {
        name + ": "@
    }
}

/// The line that is printed for an image.
pub open spec fn line(name: Seq<char>, quiet: bool, answer: Answer) -> Seq<char> {
    let start = prefix(name, quiet);
    match answer {
        Answer::Pct { x10, y10 } => start + percent(x10 as int) + ","@ + percent(y10 as int),
        Answer::Json { file, x, y, category } => start + "{\"file\":"@ + quoted(file@) + ",\"x\":"@
            + x@ + ",\"y\":"@ + y@ + ",\"category\":\""@ + category.called() + "\"}"@,
        Answer::Xy { x, y } => start + x@ + " "@ + y@,
    }
}

/// The line that is printed for an image.
pub fn format_result(name: &str, quiet: bool, answer: &Answer) -> (r: String)
    requires
        answer matches Answer::Pct { x10, y10 } ==> *x10 > i64::MIN && *y10 > i64::MIN,
    ensures
        r@ == line(name@, quiet, *answer),
{
    let mut r = String::new();
    if !quiet {
        r.append(name);
        r.append(": ");
    }
    assert(r@ == prefix(name@, quiet));
    match answer {
        Answer::Pct { x10, y10 } => {
            r.append(pct_str(*x10).as_str());
            r.append(",");
            r.append(pct_str(*y10).as_str());
        },
        Answer::Json { file, x, y, category } => {
            r.append("{\"file\":");
            r.append(json_string(file).as_str());
            r.append(",\"x\":");
            r.append(x);
            r.append(",\"y\":");
            r.append(y);
            r.append(",\"category\":\"");
            r.append(category.name());
            r.append("\"}");
        },
        Answer::Xy { x, y } => {
            r.append(x);
            r.append(" ");
            r.append(y);
        },
    }
    r
}

/// The numbers of a features record, as texts.
pub struct FeatureTexts<'a> {
    pub x: &'a str,
    pub y: &'a str,
    pub avg_skin: &'a str,
    pub avg_sat: &'a str,
    pub avg_sharp: &'a str,
    pub symmetry: &'a str,
    pub edge_energy: &'a str,
}

/// The features record of an image, as a JSON object.
pub open spec fn record(f: FeatureTexts, category: Category, ahash: Seq<char>) -> Seq<char> {
    "{\"x\":"@ + f.x@ + ",\"y\":"@ + f.y@ + ",\"category\":\""@ + category.called()
        + "\",\"avg_skin\":"@ + f.avg_skin@ + ",\"avg_sat\":"@ + f.avg_sat@ + ",\"avg_sharp\":"@
        + f.avg_sharp@ + ",\"symmetry\":"@ + f.symmetry@ + ",\"edge_energy\":"@ + f.edge_energy@
        + ",\"ahash\":\""@ + ahash + "\"}"@
}

/// The features record of an image, as a JSON object.
pub fn features_record(f: &FeatureTexts, category: Category, ahash: &str) -> (r: String)
    ensures
        r@ == record(*f, category, ahash@),
        r@ == crate::record::object_text(
            seq![
                ("x"@, f.x@),
                ("y"@, f.y@),
                ("category"@, seq!['"'] + category.called() + seq!['"']),
                ("avg_skin"@, f.avg_skin@),
                ("avg_sat"@, f.avg_sat@),
                ("avg_sharp"@, f.avg_sharp@),
                ("symmetry"@, f.symmetry@),
                ("edge_energy"@, f.edge_energy@),
                ("ahash"@, seq!['"'] + ahash@ + seq!['"']),
            ],
        ),
{
    proof {
        records_hold_each_value_under_its_name(*f, category, ahash@);
    }
    let mut r = "{\"x\":".to_owned();
    r.append(f.x);
    r.append(",\"y\":");
    r.append(f.y);
    r.append(",\"category\":\"");
    r.append(category.name());
    r.append("\",\"avg_skin\":");
    r.append(f.avg_skin);
    r.append(",\"avg_sat\":");
    r.append(f.avg_sat);
    r.append(",\"avg_sharp\":");
    r.append(f.avg_sharp);
    r.append(",\"symmetry\":");
    r.append(f.symmetry);
    r.append(",\"edge_energy\":");
    r.append(f.edge_energy);
    r.append(",\"ahash\":\"");
    r.append(ahash);
    r.append("\"}");
    r
}

/// Whether two texts are the same.
pub fn same_text(a: &str, b: &str) -> (r: bool)
    ensures
        r == (a@ == b@),
{
    let n: usize = a.unicode_len();
    if n != b.unicode_len() {
        return false;
    }
    let mut k: usize = 0;
    while k < n
        invariant
            n == a@.len(),
            n == b@.len(),
            0 <= k <= n,
            forall|j: int| 0 <= j < k ==> #[trigger] a@[j] == b@[j],
        decreases n - k,
    {
        if a.get_char(k) != b.get_char(k) {
            assert(a@[k as int] != b@[k as int]);
            return false;
        }
        k = k + 1;
    }
    assert(a@ == b@);
    true
}

/// The place of the first `x` in a text, its length where there is none.
pub open spec fn first_x(s: Seq<char>) -> int
    decreases s.len(),
{
    if s.len() == 0 {
        0
    } else if s[0] == 'x' {
        0
    } else {
        1 + first_x(s.skip(1))
    }
}

/// The number that a text stands for: decimal digits, after a plus sign if
/// there is one, as far as thirty-two bits go.
pub open spec fn number(s: Seq<char>) -> Option<u32> {
    let digits = if s.len() > 0 && s[0] == '+' {
        s.skip(1)
    } else {
        s
    };
    match crate::digits::read(digits) {
        Some(n) => if digits.len() > 0 && n <= u32::MAX {
            Some(n as u32)
        } else {
            None
        },
        None => None,
    }
}

/// The dimensions that a text of the form `WxH` stands for, if both can be
/// analysed.
pub open spec fn dimensions(s: Seq<char>) -> Option<(u32, u32)> {
    let k = first_x(s);
    if k >= s.len() {
        None
    } else {
        match (number(s.take(k)), number(s.skip(k + 1))) {
            (Some(w), Some(h)) => if w >= crate::zoom::MIN_FRAME && h >= crate::zoom::MIN_FRAME {
                Some((w, h))
            } else {
                None
            },
            _ => None,
        }
    }
}

proof fn lemma_read_prefix(s: Seq<char>, k: int)
    requires
        0 <= k <= s.len(),
        crate::digits::read(s.take(k)) is None,
    ensures
        crate::digits::read(s) is None,
    decreases s.len() - k,
{
    if k < s.len() {
        assert(s.take(k + 1).drop_last() == s.take(k));
        lemma_read_prefix(s, k + 1);
    } else {
        assert(s.take(k) == s);
    }
}

proof fn lemma_read_grows(s: Seq<char>, k: int)
    requires
        0 <= k <= s.len(),
        crate::digits::read(s) is Some,
    ensures
        crate::digits::read(s.take(k)) is Some,
        0 <= crate::digits::read(s.take(k))->0 <= crate::digits::read(s)->0,
    decreases s.len() - k,
{
    if k < s.len() {
        lemma_read_grows(s, k + 1);
        assert(s.take(k + 1).drop_last() == s.take(k));
        lemma_read_is_natural(s.take(k));
    } else {
        assert(s.take(k) == s);
        lemma_read_is_natural(s);
    }
}

proof fn lemma_read_is_natural(s: Seq<char>)
    ensures
        crate::digits::read(s) matches Some(n) ==> n >= 0,
    decreases s.len(),
{
    if s.len() > 0 {
        lemma_read_is_natural(s.drop_last());
    }
}

fn parse_number(s: &str) -> (r: Option<u32>)
    ensures
        r == number(s@),
{
    let n: usize = s.unicode_len();
    let from: usize = if n > 0 && s.get_char(0) == '+' {
        1
    } else {
        0
    };
    let ghost digits = s@.skip(from as int);
    assert(from == 0 ==> digits == s@);
    if from >= n {
        assert(digits.len() == 0);
        return None;
    }
    let mut value: u64 = 0;
    let mut k: usize = from;
    assert(digits.take(0) == Seq::<char>::empty());
    while k < n
        invariant
            n == s@.len(),
            from <= k <= n,
            from <= 1,
            digits == s@.skip(from as int),
            from == (if s@.len() > 0 && s@[0] == '+' {
                1int
            } else {
                0
            }),
            from == 0 ==> digits == s@,
            from < n,
            value <= u32::MAX,
            crate::digits::read(digits.take(k - from)) == Some(value as int),
        decreases n - k,
    {
        let c = s.get_char(k);
        let j = (k - from) as usize;
        assert(digits[j as int] == c);
        assert(digits.take(j + 1).drop_last() == digits.take(j as int));
        assert(digits.take(j + 1).last() == c);
        if c < '0' || c > '9' {
            proof {
                assert(crate::digits::read(digits.take(j + 1)) is None);
                lemma_read_prefix(digits, j + 1);
            }
            return None;
        }
        value = 10 * value + (c as u32 - 48) as u64;
        assert(crate::digits::read(digits.take(j + 1)) == Some(value as int));
        if value > u32::MAX as u64 {
            proof {
                if crate::digits::read(digits) is Some {
                    lemma_read_grows(digits, j + 1);
                }
            }
            return None;
        }
        k = k + 1;
    }
    assert(digits.take(digits.len() as int) == digits);
    Some(value as u32)
}

/// Reads dimensions of the form `WxH`; what cannot be analysed is refused.
pub fn parse_dims(s: &str) -> (r: Option<(u32, u32)>)
    ensures
        r == dimensions(s@),
{
    let n: usize = s.unicode_len();
    let mut k: usize = 0;
    assert(s@.skip(0) == s@);
    while k < n && s.get_char(k) != 'x'
        invariant
            n == s@.len(),
            0 <= k <= n,
            first_x(s@) == k + first_x(s@.skip(k as int)),
        decreases n - k,
    {
        assert(s@.skip(k as int).skip(1) == s@.skip(k + 1));
        assert(s@.skip(k as int)[0] == s@[k as int]);
        k = k + 1;
    }
    if k >= n {
        assert(s@.skip(k as int).len() == 0);
        return None;
    }
    assert(s@.skip(k as int)[0] == 'x');
    let left = s.substring_char(0, k);
    let right = s.substring_char(k + 1, n);
    assert(left@ == s@.take(k as int));
    assert(right@ == s@.skip(k + 1));
    match (parse_number(left), parse_number(right)) {
        (Some(w), Some(h)) => if crate::zoom::large_enough(w, h) {
            Some((w, h))
        } else {
            None
        },
        _ => None,
    }
}

/// The number of bytes of a frame with four channels.
pub fn frame_bytes(w: u32, h: u32) -> (r: u32)
    requires
        w * h * 4 <= u32::MAX,
    ensures
        r == w * h * 4,
{
    assert(0 <= w * h <= w * h * 4) by (nonlinear_arith)
        requires
            0 <= w,
            0 <= h,
    ;
    w * h * 4
}

/// What is given as a path: a text, or an argument that is no text, by number.
pub enum PathText {
    Text(String),
    Raw(usize),
}

/// What is given: the text, or the number.
pub open spec fn given(p: PathText) -> Result<Seq<char>, usize> {
    match p {
        PathText::Text(s) => Ok(s@),
        PathText::Raw(k) => Err(k),
    }
}

/// What is given as some paths.
pub open spec fn all_given(v: Seq<PathText>) -> Seq<Result<Seq<char>, usize>> {
    Seq::new(v.len(), |i: int| given(v[i]))
}

/// Some lines.
pub open spec fn lines_of(v: Seq<String>) -> Seq<Seq<char>> {
    Seq::new(v.len(), |i: int| v[i]@)
}

/// Whether a character is white space, as Unicode has it.
pub open spec fn is_white(c: char) -> bool {
    ||| 0x9 <= c as u32 <= 0xd
    ||| c as u32 == 0x20 || c as u32 == 0x85 || c as u32 == 0xa0 || c as u32 == 0x1680
    ||| 0x2000 <= c as u32 <= 0x200a
    ||| c as u32 == 0x2028 || c as u32 == 0x2029 || c as u32 == 0x202f || c as u32 == 0x205f
    ||| c as u32 == 0x3000
}

/// A text without the white space in front.
pub open spec fn trimmed_start(s: Seq<char>) -> Seq<char>
    decreases s.len(),
{
    if s.len() > 0 && is_white(s[0]) {
        trimmed_start(s.skip(1))
    } else {
        s
    }
}

/// A text without the white space behind.
pub open spec fn trimmed_end(s: Seq<char>) -> Seq<char>
    decreases s.len(),
{
    if s.len() > 0 && is_white(s.last()) {
        trimmed_end(s.drop_last())
    } else {
        s
    }
}

/// A text without the white space at both ends.
pub open spec fn trimmed(s: Seq<char>) -> Seq<char> {
    trimmed_end(trimmed_start(s))
}

fn is_space(c: char) -> (r: bool)
    ensures
        r == is_white(c),
{
    let n: u32 = c as u32;
    (0x9 <= n && n <= 0xd) || n == 0x20 || n == 0x85 || n == 0xa0 || n == 0x1680 || (0x2000 <= n
        && n <= 0x200a) || n == 0x2028 || n == 0x2029 || n == 0x202f || n == 0x205f || n == 0x3000
}

/// A text without the white space at both ends.
pub fn trim_text<'a>(s: &'a str) -> (r: &'a str)
    ensures
        r@ == trimmed(s@),
{
    let n: usize = s.unicode_len();
    let mut i: usize = 0;
    assert(s@.skip(0) == s@);
    while i < n && is_space(s.get_char(i))
        invariant
            n == s@.len(),
            0 <= i <= n,
            trimmed_start(s@) == trimmed_start(s@.skip(i as int)),
        decreases n - i,
    {
        assert(s@.skip(i as int)[0] == s@[i as int]);
        assert(s@.skip(i as int).skip(1) == s@.skip(i + 1));
        i = i + 1;
    }
    let ghost front = s@.skip(i as int);
    assert(i < n ==> front[0] == s@[i as int]);
    assert(trimmed_start(s@) == front);
    let mut j: usize = n;
    assert(s@.subrange(i as int, n as int) == front);
    while j > i && is_space(s.get_char(j - 1))
        invariant
            n == s@.len(),
            0 <= i <= j <= n,
            trimmed_end(front) == trimmed_end(s@.subrange(i as int, j as int)),
        decreases j,
    {
        assert(s@.subrange(i as int, j as int).last() == s@[j - 1]);
        assert(s@.subrange(i as int, j as int).drop_last() == s@.subrange(i as int, j - 1));
        j = j - 1;
    }
    assert(j > i ==> s@.subrange(i as int, j as int).last() == s@[j - 1]);
    s.substring_char(i, j)
}

/// What is trimmed is a part of the text, with no white space at its ends; a text
/// without white space at its ends stays as it is.
pub proof fn trimmed_texts_have_bare_ends(s: Seq<char>)
    ensures
        exists|i: int, j: int|
            0 <= i <= j <= s.len() && trimmed(s) == #[trigger] s.subrange(i, j),
        trimmed(s).len() > 0 ==> !is_white(trimmed(s)[0]) && !is_white(trimmed(s).last()),
        (forall|i: int| 0 <= i < s.len() ==> is_white(#[trigger] s[i])) ==> trimmed(s).len() == 0,
        s.len() > 0 && !is_white(s[0]) && !is_white(s.last()) ==> trimmed(s) == s,
        trimmed(trimmed(s)) == trimmed(s),
{
    let i = lemma_trimmed_start(s);
    let front = trimmed_start(s);
    let j = lemma_trimmed_end(front);
    assert(trimmed(s) == s.subrange(i, i + j));
    if j > 0 {
        assert(trimmed(s)[0] == front[0]);
        assert(trimmed(s)[0] == s[i]);
    }
    if trimmed(s).len() > 0 {
        assert(trimmed_start(trimmed(s)) == trimmed(s));
    }
}

proof fn lemma_trimmed_start(s: Seq<char>) -> (i: int)
    ensures
        0 <= i <= s.len(),
        trimmed_start(s) == s.skip(i),
        i < s.len() ==> !is_white(s[i]),
    decreases s.len(),
{
    if s.len() > 0 && is_white(s[0]) {
        let i = lemma_trimmed_start(s.skip(1));
        assert(s.skip(1).skip(i) == s.skip(i + 1));
        i + 1
    } else {
        assert(s.skip(0) == s);
        0
    }
}

proof fn lemma_trimmed_end(s: Seq<char>) -> (j: int)
    ensures
        0 <= j <= s.len(),
        trimmed_end(s) == s.take(j),
        j > 0 ==> !is_white(s[j - 1]),
    decreases s.len(),
{
    if s.len() > 0 && is_white(s.last()) {
        let j = lemma_trimmed_end(s.drop_last());
        assert(s.drop_last().take(j) == s.take(j));
        j
    } else {
        assert(s.take(s.len() as int) == s);
        s.len() as int
    }
}

/// The paths on the first `upto` of some trimmed lines: those that hold
/// anything.
pub open spec fn filled(lines: Seq<Seq<char>>, upto: int) -> Seq<Result<Seq<char>, usize>>
    decreases upto,
{
    if upto <= 0 {
        Seq::empty()
    } else if lines[upto - 1].len() == 0 {
        filled(lines, upto - 1)
    } else {
        filled(lines, upto - 1).push(Ok(lines[upto - 1]))
    }
}

/// Lines without the white space at both ends.
pub open spec fn all_trimmed(lines: Seq<Seq<char>>) -> Seq<Seq<char>> {
    Seq::new(lines.len(), |i: int| trimmed(lines[i]))
}

/// Whether an argument stands for the lines of the input.
pub open spec fn is_dash(p: Result<Seq<char>, usize>) -> bool {
    p == Ok::<Seq<char>, usize>("-"@)
}

/// The paths of the first `upto` arguments: the first dash stands for the
/// trimmed lines of the input, and any other dash finds the input used up.
pub open spec fn paths_of(
    args: Seq<Result<Seq<char>, usize>>,
    lines: Seq<Seq<char>>,
    upto: int,
) -> Seq<Result<Seq<char>, usize>>
    decreases upto,
{
    if upto <= 0 {
        Seq::empty()
    } else if !is_dash(args[upto - 1]) {
        paths_of(args, lines, upto - 1).push(args[upto - 1])
    } else if exists|k: int| 0 <= k < upto - 1 && is_dash(#[trigger] args[k]) {
        paths_of(args, lines, upto - 1)
    } else {
        paths_of(args, lines, upto - 1) + filled(lines, lines.len() as int)
    }
}

fn asks_for_lines(p: &PathText) -> (r: bool)
    ensures
        r == is_dash(given(*p)),
{
    match p {
        PathText::Text(s) => same_text(s.as_str(), "-"),
        PathText::Raw(_) => false,
    }
}

fn same_path(p: &PathText) -> (r: PathText)
    ensures
        given(r) == given(*p),
{
    match p {
        PathText::Text(s) => PathText::Text(s.clone()),
        PathText::Raw(k) => PathText::Raw(*k),
    }
}

/// Whether any argument asks for the lines of the input: else they need not be
/// read.
pub fn reads_lines(args: &Vec<PathText>) -> (r: bool)
    ensures
        r == exists|k: int| 0 <= k < args@.len() && is_dash(#[trigger] all_given(args@)[k]),
{
    let mut k: usize = 0;
    while k < args.len()
        invariant
            0 <= k <= args@.len(),
            forall|j: int| 0 <= j < k ==> !is_dash(#[trigger] all_given(args@)[j]),
        decreases args@.len() - k,
    {
        if asks_for_lines(&args[k]) {
            assert(is_dash(all_given(args@)[k as int]));
            return true;
        }
        k = k + 1;
    }
    false
}

/// The paths that arguments and trimmed lines stand for.
pub fn place_lines(args: &Vec<PathText>, lines: &Vec<String>) -> (r: Vec<PathText>)
    ensures
        all_given(r@) == paths_of(all_given(args@), lines_of(lines@), args@.len() as int),
{
    let ghost given_args = all_given(args@);
    let ghost texts = lines_of(lines@);
    let mut r: Vec<PathText> = Vec::new();
    let mut used: bool = false;
    let mut i: usize = 0;
    assert(all_given(r@) == paths_of(given_args, texts, 0));
    while i < args.len()
        invariant
            0 <= i <= args@.len(),
            given_args == all_given(args@),
            texts == lines_of(lines@),
            used == exists|k: int| 0 <= k < i && is_dash(#[trigger] given_args[k]),
            all_given(r@) == paths_of(given_args, texts, i as int),
        decreases args@.len() - i,
    {
        let ghost before = all_given(r@);
        assert(given_args[i as int] == given(args@[i as int]));
        if !asks_for_lines(&args[i]) {
            r.push(same_path(&args[i]));
            assert(all_given(r@) == before.push(given_args[i as int]));
        } else if !used {
            let mut j: usize = 0;
            assert(before + filled(texts, 0) == before);
            while j < lines.len()
                invariant
                    0 <= j <= lines@.len(),
                    texts == lines_of(lines@),
                    all_given(r@) == before + filled(texts, j as int),
                decreases lines@.len() - j,
            {
                let ghost so_far = all_given(r@);
                if lines[j].as_str().unicode_len() > 0 {
                    r.push(PathText::Text(lines[j].clone()));
                    assert(all_given(r@) == so_far.push(Ok(texts[j as int])));
                }
                j = j + 1;
                assert(all_given(r@) == before + filled(texts, j as int));
            }
            assert(is_dash(given_args[i as int]));
            used = true;
        }
        i = i + 1;
    }
    r
}

/// The paths to analyse: the arguments, with the first dash standing for the
/// lines of the input, each trimmed and left out where nothing is on it.
pub fn collect_paths(args: &Vec<PathText>, lines: &Vec<String>) -> (r: Vec<PathText>)
    ensures
        all_given(r@) == paths_of(
            all_given(args@),
            all_trimmed(lines_of(lines@)),
            args@.len() as int,
        ),
{
    let ghost texts = lines_of(lines@);
    let mut bare: Vec<String> = Vec::new();
    let mut k: usize = 0;
    while k < lines.len()
        invariant
            0 <= k <= lines@.len(),
            texts == lines_of(lines@),
            bare@.len() == k,
            forall|i: int| 0 <= i < k ==> lines_of(bare@)[i] == #[trigger] all_trimmed(texts)[i],
        decreases lines@.len() - k,
    {
        let ghost done = lines_of(bare@);
        assert(texts[k as int] == lines@[k as int]@);
        bare.push(trim_text(lines[k].as_str()).to_owned());
        assert(forall|i: int| 0 <= i < k ==> lines_of(bare@)[i] == done[i]);
        k = k + 1;
    }
    assert(lines_of(bare@) == all_trimmed(texts));
    place_lines(args, &bare)
}

/// Without a dash the paths are the arguments, whatever the lines hold.
pub proof fn without_a_dash_arguments_stay(
    args: Seq<Result<Seq<char>, usize>>,
    lines: Seq<Seq<char>>,
    upto: int,
)
    requires
        0 <= upto <= args.len(),
        forall|k: int| 0 <= k < args.len() ==> !is_dash(#[trigger] args[k]),
    ensures
        paths_of(args, lines, upto) == args.take(upto),
    decreases upto,
{
    if upto > 0 {
        without_a_dash_arguments_stay(args, lines, upto - 1);
        assert(args.take(upto) == args.take(upto - 1).push(args[upto - 1]));
    } else {
        assert(args.take(0) == Seq::<Result<Seq<char>, usize>>::empty());
    }
}

/// A single dash is replaced, in its place, by the lines that hold anything.
pub proof fn a_dash_is_replaced_in_its_place(
    args: Seq<Result<Seq<char>, usize>>,
    lines: Seq<Seq<char>>,
    dash: int,
    upto: int,
)
    requires
        0 <= dash < upto <= args.len(),
        forall|k: int| 0 <= k < args.len() ==> (is_dash(#[trigger] args[k]) <==> k == dash),
    ensures
        paths_of(args, lines, upto) == args.take(dash) + filled(lines, lines.len() as int)
            + args.subrange(dash + 1, upto),
    decreases upto,
{
    if upto == dash + 1 {
        lemma_before_the_dash(args, lines, dash, dash);
        assert(args.subrange(dash + 1, upto) == Seq::<Result<Seq<char>, usize>>::empty());
        assert(is_dash(args[dash]));
    } else {
        a_dash_is_replaced_in_its_place(args, lines, dash, upto - 1);
        assert(args.subrange(dash + 1, upto) == args.subrange(dash + 1, upto - 1).push(
            args[upto - 1],
        ));
    }
}

proof fn lemma_before_the_dash(
    args: Seq<Result<Seq<char>, usize>>,
    lines: Seq<Seq<char>>,
    dash: int,
    upto: int,
)
    requires
        0 <= upto <= dash < args.len(),
        forall|k: int| 0 <= k < dash ==> !is_dash(#[trigger] args[k]),
    ensures
        paths_of(args, lines, upto) == args.take(upto),
    decreases upto,
{
    if upto > 0 {
        lemma_before_the_dash(args, lines, dash, upto - 1);
        assert(args.take(upto) == args.take(upto - 1).push(args[upto - 1]));
    } else {
        assert(args.take(0) == Seq::<Result<Seq<char>, usize>>::empty());
    }
}

/// Whether a second look at a crop is worth it: unless it is switched off, in
/// frames with colour.
pub fn looks_again(off: bool, category: Category) -> (r: bool)
    ensures
        r == (!off && category != Category::Mono),
{
    !off && category != Category::Mono
}

/// A text of plain characters stands in a JSON string as it is.
pub proof fn plain_texts_are_not_escaped(s: Seq<char>)
    requires
        forall|i: int|
            0 <= i < s.len() ==> (#[trigger] s[i]) as int >= 32 && s[i] != '"' && s[i] != '\\',
    ensures
        escaped_all(s) == s,
        quoted(s) == seq!['"'] + s + seq!['"'],
    decreases s.len(),
{
    if s.len() > 0 {
        let rest = s.drop_last();
        assert forall|i: int| 0 <= i < rest.len() implies (#[trigger] rest[i]) as int >= 32
            && rest[i] != '"' && rest[i] != '\\' by {
            assert(rest[i] == s[i]);
        }
        plain_texts_are_not_escaped(rest);
        assert(s[s.len() - 1] == s.last());
        assert(escaped_all(s) == rest + seq![s.last()]);
    }
    assert(escaped_all(s) == s);
}

/// Escaping goes through a text character by character: quotation marks and
/// backslashes get a backslash in front, control characters their short form or
/// four digits after a `u`, and all others stay.
pub proof fn texts_are_escaped_one_by_one(s: Seq<char>, c: char)
    ensures
        escaped_all(Seq::empty()) == Seq::<char>::empty(),
        escaped_all(s.push(c)) == escaped_all(s) + escaped(c),
        quoted(s) == seq!['"'] + escaped_all(s) + seq!['"'],
        escaped('"') == seq!['\\', '"'],
        escaped('\\') == seq!['\\', '\\'],
        escaped('\n') == seq!['\\', 'n'],
        escaped('\r') == seq!['\\', 'r'],
        escaped('\t') == seq!['\\', 't'],
        escaped('\u{8}') == seq!['\\', 'b'],
        escaped('\u{c}') == seq!['\\', 'f'],
        c as int >= 32 && c != '"' && c != '\\' ==> escaped(c) == seq![c],
        (c as int) < 32 ==> escaped(c).len() == 2 || escaped(c).len() == 6,
        (c as int) < 32 ==> escaped(c)[0] == '\\',
        (c as int) < 32 && escaped(c).len() == 6 ==> escaped(c)[1] == 'u' && escaped(c)[2] == '0'
            && escaped(c)[3] == '0' && escaped(c)[4] == crate::digits::digit(c as int / 16)
            && escaped(c)[5] == crate::digits::digit(c as int % 16),
{
    assert(s.push(c).drop_last() == s);
}

proof fn lemma_plain_names()
    ensures
        quoted("x"@) == seq!['"'] + "x"@ + seq!['"'],
        quoted("y"@) == seq!['"'] + "y"@ + seq!['"'],
        quoted("category"@) == seq!['"'] + "category"@ + seq!['"'],
        quoted("avg_skin"@) == seq!['"'] + "avg_skin"@ + seq!['"'],
        quoted("avg_sat"@) == seq!['"'] + "avg_sat"@ + seq!['"'],
        quoted("avg_sharp"@) == seq!['"'] + "avg_sharp"@ + seq!['"'],
        quoted("symmetry"@) == seq!['"'] + "symmetry"@ + seq!['"'],
        quoted("edge_energy"@) == seq!['"'] + "edge_energy"@ + seq!['"'],
        quoted("ahash"@) == seq!['"'] + "ahash"@ + seq!['"'],
        quoted("file"@) == seq!['"'] + "file"@ + seq!['"'],
{
    reveal_strlit("x");
    plain_texts_are_not_escaped("x"@);
    reveal_strlit("y");
    plain_texts_are_not_escaped("y"@);
    reveal_strlit("category");
    plain_texts_are_not_escaped("category"@);
    reveal_strlit("avg_skin");
    plain_texts_are_not_escaped("avg_skin"@);
    reveal_strlit("avg_sat");
    plain_texts_are_not_escaped("avg_sat"@);
    reveal_strlit("avg_sharp");
    plain_texts_are_not_escaped("avg_sharp"@);
    reveal_strlit("symmetry");
    plain_texts_are_not_escaped("symmetry"@);
    reveal_strlit("edge_energy");
    plain_texts_are_not_escaped("edge_energy"@);
    reveal_strlit("ahash");
    plain_texts_are_not_escaped("ahash"@);
    reveal_strlit("file");
    plain_texts_are_not_escaped("file"@);
}

/// What stands in front of each value of a record: a brace or a comma, the name in
/// quotation marks and a colon.
proof fn lemma_record_marks()
    ensures
        "{\"x\":"@ == seq!['{'] + quoted("x"@) + seq![':'],
        ",\"y\":"@ == seq![','] + quoted("y"@) + seq![':'],
        ",\"category\":\""@ == (seq![','] + quoted("category"@) + seq![':']) + seq!['"'],
        "\",\"avg_skin\":"@ == seq!['"'] + (seq![','] + quoted("avg_skin"@) + seq![':']),
        ",\"avg_sat\":"@ == seq![','] + quoted("avg_sat"@) + seq![':'],
        ",\"avg_sharp\":"@ == seq![','] + quoted("avg_sharp"@) + seq![':'],
        ",\"symmetry\":"@ == seq![','] + quoted("symmetry"@) + seq![':'],
        ",\"edge_energy\":"@ == seq![','] + quoted("edge_energy"@) + seq![':'],
        ",\"ahash\":\""@ == (seq![','] + quoted("ahash"@) + seq![':']) + seq!['"'],
        "\"}"@ == seq!['"'] + seq!['}'],
{
    lemma_plain_names();
    reveal_strlit("{\"x\":");
    reveal_strlit("x");
    reveal_strlit(",\"y\":");
    reveal_strlit("y");
    reveal_strlit(",\"category\":\"");
    reveal_strlit("category");
    reveal_strlit("\",\"avg_skin\":");
    reveal_strlit("avg_skin");
    reveal_strlit(",\"avg_sat\":");
    reveal_strlit("avg_sat");
    reveal_strlit(",\"avg_sharp\":");
    reveal_strlit("avg_sharp");
    reveal_strlit(",\"symmetry\":");
    reveal_strlit("symmetry");
    reveal_strlit(",\"edge_energy\":");
    reveal_strlit("edge_energy");
    reveal_strlit(",\"ahash\":\"");
    reveal_strlit("ahash");
    reveal_strlit("\"}");
    assert("{\"x\":"@ == seq!['{'] + quoted("x"@) + seq![':']);
    assert(",\"y\":"@ == seq![','] + quoted("y"@) + seq![':']);
    assert(",\"category\":\""@ == (seq![','] + quoted("category"@) + seq![':']) + seq!['"']);
    assert("\",\"avg_skin\":"@ == seq!['"'] + (seq![','] + quoted("avg_skin"@) + seq![':']));
    assert(",\"avg_sat\":"@ == seq![','] + quoted("avg_sat"@) + seq![':']);
    assert(",\"avg_sharp\":"@ == seq![','] + quoted("avg_sharp"@) + seq![':']);
    assert(",\"symmetry\":"@ == seq![','] + quoted("symmetry"@) + seq![':']);
    assert(",\"edge_energy\":"@ == seq![','] + quoted("edge_energy"@) + seq![':']);
    assert(",\"ahash\":\""@ == (seq![','] + quoted("ahash"@) + seq![':']) + seq!['"']);
    assert("\"}"@ == seq!['"'] + seq!['}']);
}

proof fn lemma_next_member(m: Seq<(Seq<char>, Seq<char>)>, i: int, head: Seq<char>)
    requires
        0 < i < m.len(),
        seq!['{'] + crate::record::listed(m.take(i)) == head,
    ensures
        seq!['{'] + crate::record::listed(m.take(i + 1)) == head + (seq![','] + quoted(m[i].0) + seq![
            ':',
        ]) + m[i].1,
{
    crate::record::members_are_listed_with_commas(m.take(i), m[i].0, m[i].1);
    assert(m.take(i + 1) == m.take(i).push(m[i]));
    assert(seq!['{'] + (crate::record::listed(m.take(i)) + seq![','] + (quoted(m[i].0) + seq![':']
        + m[i].1)) == head + (seq![','] + quoted(m[i].0) + seq![':']) + m[i].1);
}

proof fn lemma_first_member(m: Seq<(Seq<char>, Seq<char>)>)
    requires
        0 < m.len(),
    ensures
        seq!['{'] + crate::record::listed(m.take(1)) == (seq!['{'] + quoted(m[0].0) + seq![':'])
            + m[0].1,
{
    crate::record::members_are_listed_with_commas(m.take(0), m[0].0, m[0].1);
    assert(m.take(1) == m.take(0).push(m[0]));
    assert(seq!['{'] + (quoted(m[0].0) + seq![':'] + m[0].1) == (seq!['{'] + quoted(m[0].0) + seq![
        ':',
    ]) + m[0].1);
}

proof fn lemma_regroup(a: Seq<char>, b: Seq<char>, c: Seq<char>, d: Seq<char>, e: Seq<char>)
    ensures
        a + b + (c + d + e) == a + (b + c) + d + e,
        (a + b) + c + d == a + (b + c) + d,
        (a + b) + c == a + (b + c),
{
    assert(a + b + (c + d + e) == a + (b + c) + d + e);
    assert((a + b) + c + d == a + (b + c) + d);
    assert((a + b) + c == a + (b + c));
}

proof fn lemma_record_names()
    ensures
        "x"@ != "y"@,
        "x"@ != "category"@,
        "x"@ != "avg_skin"@,
        "x"@ != "avg_sat"@,
        "x"@ != "avg_sharp"@,
        "x"@ != "symmetry"@,
        "x"@ != "edge_energy"@,
        "x"@ != "ahash"@,
        "y"@ != "category"@,
        "y"@ != "avg_skin"@,
        "y"@ != "avg_sat"@,
        "y"@ != "avg_sharp"@,
        "y"@ != "symmetry"@,
        "y"@ != "edge_energy"@,
        "y"@ != "ahash"@,
        "category"@ != "avg_skin"@,
        "category"@ != "avg_sat"@,
        "category"@ != "avg_sharp"@,
        "category"@ != "symmetry"@,
        "category"@ != "edge_energy"@,
        "category"@ != "ahash"@,
        "avg_skin"@ != "avg_sat"@,
        "avg_skin"@ != "avg_sharp"@,
        "avg_skin"@ != "symmetry"@,
        "avg_skin"@ != "edge_energy"@,
        "avg_skin"@ != "ahash"@,
        "avg_sat"@ != "avg_sharp"@,
        "avg_sat"@ != "symmetry"@,
        "avg_sat"@ != "edge_energy"@,
        "avg_sat"@ != "ahash"@,
        "avg_sharp"@ != "symmetry"@,
        "avg_sharp"@ != "edge_energy"@,
        "avg_sharp"@ != "ahash"@,
        "symmetry"@ != "edge_energy"@,
        "symmetry"@ != "ahash"@,
        "edge_energy"@ != "ahash"@,
{
    reveal_strlit("x");
    reveal_strlit("y");
    reveal_strlit("category");
    reveal_strlit("avg_skin");
    reveal_strlit("avg_sat");
    reveal_strlit("avg_sharp");
    reveal_strlit("symmetry");
    reveal_strlit("edge_energy");
    reveal_strlit("ahash");
    assert("x"@.len() == 1 && "y"@.len() == 1 && "category"@.len() == 8 && "avg_skin"@.len() == 8 && "avg_sat"@.len() == 7 && "avg_sharp"@.len() == 9 && "symmetry"@.len() == 8 && "edge_energy"@.len() == 11 && "ahash"@.len() == 5);
    assert("x"@[0] != "y"@[0]);
    assert("category"@[0] != "avg_skin"@[0]);
    assert("category"@[0] != "symmetry"@[0]);
    assert("avg_skin"@[0] != "symmetry"@[0]);
}

proof fn lemma_record_members(m: Seq<(Seq<char>, Seq<char>)>)
    requires
        m.len() == 9,
        m[0].0 == "x"@,
        m[1].0 == "y"@,
        m[2].0 == "category"@,
        m[3].0 == "avg_skin"@,
        m[4].0 == "avg_sat"@,
        m[5].0 == "avg_sharp"@,
        m[6].0 == "symmetry"@,
        m[7].0 == "edge_energy"@,
        m[8].0 == "ahash"@,
    ensures
        crate::record::member(m, "x"@) == Some(m[0].1),
        crate::record::member(m, "y"@) == Some(m[1].1),
        crate::record::member(m, "category"@) == Some(m[2].1),
        crate::record::member(m, "avg_skin"@) == Some(m[3].1),
        crate::record::member(m, "avg_sat"@) == Some(m[4].1),
        crate::record::member(m, "avg_sharp"@) == Some(m[5].1),
        crate::record::member(m, "symmetry"@) == Some(m[6].1),
        crate::record::member(m, "edge_energy"@) == Some(m[7].1),
        crate::record::member(m, "ahash"@) == Some(m[8].1),
{
    lemma_record_names();
    crate::record::members_are_found_by_name(m, "x"@, 0);
    crate::record::members_are_found_by_name(m, "y"@, 1);
    crate::record::members_are_found_by_name(m, "category"@, 2);
    crate::record::members_are_found_by_name(m, "avg_skin"@, 3);
    crate::record::members_are_found_by_name(m, "avg_sat"@, 4);
    crate::record::members_are_found_by_name(m, "avg_sharp"@, 5);
    crate::record::members_are_found_by_name(m, "symmetry"@, 6);
    crate::record::members_are_found_by_name(m, "edge_energy"@, 7);
    crate::record::members_are_found_by_name(m, "ahash"@, 8);
}

/// A record is a JSON object of nine members, and each name leads to the value of
/// that name: the averages of skin, saturation and sharpness each to its own, the
/// point to its coordinates, and the category and the hash to their texts in
/// quotation marks.
pub proof fn records_hold_each_value_under_its_name(
    f: FeatureTexts,
    category: Category,
    ahash: Seq<char>,
)
    ensures
        ({
            let m = seq![
                ("x"@, f.x@),
                ("y"@, f.y@),
                ("category"@, seq!['"'] + category.called() + seq!['"']),
                ("avg_skin"@, f.avg_skin@),
                ("avg_sat"@, f.avg_sat@),
                ("avg_sharp"@, f.avg_sharp@),
                ("symmetry"@, f.symmetry@),
                ("edge_energy"@, f.edge_energy@),
                ("ahash"@, seq!['"'] + ahash + seq!['"']),
            ];
            &&& record(f, category, ahash) == crate::record::object_text(m)
            &&& crate::record::member(m, "x"@) == Some(f.x@)
            &&& crate::record::member(m, "y"@) == Some(f.y@)
            &&& crate::record::member(m, "category"@) == Some(seq!['"'] + category.called() + seq!['"'])
            &&& crate::record::member(m, "avg_skin"@) == Some(f.avg_skin@)
            &&& crate::record::member(m, "avg_sat"@) == Some(f.avg_sat@)
            &&& crate::record::member(m, "avg_sharp"@) == Some(f.avg_sharp@)
            &&& crate::record::member(m, "symmetry"@) == Some(f.symmetry@)
            &&& crate::record::member(m, "edge_energy"@) == Some(f.edge_energy@)
            &&& crate::record::member(m, "ahash"@) == Some(seq!['"'] + ahash + seq!['"'])
        }),
{
    let m: Seq<(Seq<char>, Seq<char>)> = seq![
        ("x"@, f.x@),
        ("y"@, f.y@),
        ("category"@, seq!['"'] + category.called() + seq!['"']),
        ("avg_skin"@, f.avg_skin@),
        ("avg_sat"@, f.avg_sat@),
        ("avg_sharp"@, f.avg_sharp@),
        ("symmetry"@, f.symmetry@),
        ("edge_energy"@, f.edge_energy@),
        ("ahash"@, seq!['"'] + ahash + seq!['"']),
    ];
    lemma_record_marks();
    let q = seq!['"'];
    lemma_first_member(m);
    let a1 = "{\"x\":"@ + f.x@;
    lemma_next_member(m, 1, a1);
    let a2 = a1 + ",\"y\":"@ + f.y@;
    lemma_next_member(m, 2, a2);
    let c = seq![','] + quoted("category"@) + seq![':'];
    let a3 = a2 + ",\"category\":\""@ + category.called();
    lemma_regroup(a2, c, q, category.called(), q);
    lemma_next_member(m, 3, a3 + q);
    let s = seq![','] + quoted("avg_skin"@) + seq![':'];
    let a4 = a3 + "\",\"avg_skin\":"@ + f.avg_skin@;
    lemma_regroup(a3, q, s, f.avg_skin@, q);
    lemma_next_member(m, 4, a4);
    let a5 = a4 + ",\"avg_sat\":"@ + f.avg_sat@;
    lemma_next_member(m, 5, a5);
    let a6 = a5 + ",\"avg_sharp\":"@ + f.avg_sharp@;
    lemma_next_member(m, 6, a6);
    let a7 = a6 + ",\"symmetry\":"@ + f.symmetry@;
    lemma_next_member(m, 7, a7);
    let a8 = a7 + ",\"edge_energy\":"@ + f.edge_energy@;
    lemma_next_member(m, 8, a8);
    let h = seq![','] + quoted("ahash"@) + seq![':'];
    let a9 = a8 + ",\"ahash\":\""@ + ahash;
    lemma_regroup(a8, h, q, ahash, q);
    assert(m.take(9) == m);
    lemma_regroup(a9, q, seq!['}'], q, q);
    lemma_record_members(m);
}

proof fn lemma_answer_marks()
    ensures
        "{\"file\":"@ == seq!['{'] + quoted("file"@) + seq![':'],
        ",\"x\":"@ == seq![','] + quoted("x"@) + seq![':'],
{
    lemma_plain_names();
    reveal_strlit("{\"file\":");
    reveal_strlit(",\"x\":");
    reveal_strlit("file");
    reveal_strlit("x");
    assert("{\"file\":"@ == seq!['{'] + quoted("file"@) + seq![':']);
    assert(",\"x\":"@ == seq![','] + quoted("x"@) + seq![':']);
}

/// An answer in JSON is an object that holds the file, the coordinates and the
/// category, each under its name.
pub proof fn answers_hold_each_value_under_its_name(
    name: Seq<char>,
    file: &str,
    x: &str,
    y: &str,
    category: Category,
)
    ensures
        line(name, true, Answer::Json { file, x, y, category }) == crate::record::object_text(
            seq![
                ("file"@, quoted(file@)),
                ("x"@, x@),
                ("y"@, y@),
                ("category"@, seq!['"'] + category.called() + seq!['"']),
            ],
        ),
{
    let m: Seq<(Seq<char>, Seq<char>)> = seq![
        ("file"@, quoted(file@)),
        ("x"@, x@),
        ("y"@, y@),
        ("category"@, seq!['"'] + category.called() + seq!['"']),
    ];
    lemma_record_marks();
    lemma_answer_marks();
    let q = seq!['"'];
    lemma_first_member(m);
    let a1 = "{\"file\":"@ + quoted(file@);
    lemma_next_member(m, 1, a1);
    let a2 = a1 + ",\"x\":"@ + x@;
    lemma_next_member(m, 2, a2);
    let a3 = a2 + ",\"y\":"@ + y@;
    lemma_next_member(m, 3, a3);
    let c = seq![','] + quoted("category"@) + seq![':'];
    let a4 = a3 + ",\"category\":\""@ + category.called();
    lemma_regroup(a3, c, q, category.called(), q);
    assert(m.take(4) == m);
    lemma_regroup(a4, q, seq!['}'], q, q);
    assert(Seq::<char>::empty() + "{\"file\":"@ == "{\"file\":"@);
}

/// The name of the image stands before an answer with a colon and a blank, unless
/// it is left out; percentages are parted by a comma, plain coordinates by a blank.
pub proof fn answers_follow_their_name(name: Seq<char>, answer: Answer)
    ensures
        line(name, false, answer) == name + ": "@ + line(name, true, answer),
        answer matches Answer::Pct { x10, y10 } ==> line(name, true, answer) == percent(x10 as int)
            + ","@ + percent(y10 as int),
        answer matches Answer::Xy { x, y } ==> line(name, true, answer) == x@ + " "@ + y@,
{
    let start = name + ": "@;
    match answer {
        Answer::Pct { x10, y10 } => {
            assert(line(name, true, answer) == percent(x10 as int) + ","@ + percent(y10 as int));
            assert(line(name, false, answer) == start + line(name, true, answer));
        },
        Answer::Json { file, x, y, category } => {
            lemma_json_follows(start, file, x, y, category);
            lemma_json_follows(Seq::empty(), file, x, y, category);
            let rest = "{\"file\":"@ + quoted(file@) + ",\"x\":"@ + x@ + ",\"y\":"@ + y@
                + ",\"category\":\""@ + category.called() + "\"}"@;
            assert(Seq::<char>::empty() + rest == rest);
        },
        Answer::Xy { x, y } => {
            assert(line(name, true, answer) == x@ + " "@ + y@);
            assert(line(name, false, answer) == start + line(name, true, answer));
        },
    }
}

proof fn lemma_json_follows(start: Seq<char>, file: &str, x: &str, y: &str, category: Category)
    ensures
        start + "{\"file\":"@ + quoted(file@) + ",\"x\":"@ + x@ + ",\"y\":"@ + y@
            + ",\"category\":\""@ + category.called() + "\"}"@ == start + ("{\"file\":"@ + quoted(
            file@,
        ) + ",\"x\":"@ + x@ + ",\"y\":"@ + y@ + ",\"category\":\""@ + category.called() + "\"}"@),
{
    let a1 = "{\"file\":"@;
    let a2 = a1 + quoted(file@);
    let a3 = a2 + ",\"x\":"@;
    let a4 = a3 + x@;
    let a5 = a4 + ",\"y\":"@;
    let a6 = a5 + y@;
    let a7 = a6 + ",\"category\":\""@;
    let a8 = a7 + category.called();
    lemma_regroup(start, a1, quoted(file@), a1, a1);
    lemma_regroup(start, a2, ",\"x\":"@, a1, a1);
    lemma_regroup(start, a3, x@, a1, a1);
    lemma_regroup(start, a4, ",\"y\":"@, a1, a1);
    lemma_regroup(start, a5, y@, a1, a1);
    lemma_regroup(start, a6, ",\"category\":\""@, a1, a1);
    lemma_regroup(start, a7, category.called(), a1, a1);
    lemma_regroup(start, a8, "\"}"@, a1, a1);
}

/// Percentages in words: below zero the fraction is dropped and what is left of a
/// zero has no sign; else whole ones have no fraction, and others one digit of it.
pub proof fn percentages_have_one_digit_at_most(tenths: int)
    ensures
        -10 < tenths < 0 ==> percent(tenths) == "0%"@,
        tenths <= -10 ==> percent(tenths) == "-"@ + crate::digits::decimal(((-tenths) / 10) as nat)
            + "%"@,
        tenths >= 0 && tenths % 10 != 0 ==> percent(tenths) == crate::digits::decimal(
            (tenths / 10) as nat,
        ) + "."@ + seq![crate::digits::digit(tenths % 10)] + "%"@,
        percent(tenths).len() > 0 && percent(tenths).last() == '%',
{
    reveal_strlit("0%");
    reveal_strlit("%");
}

/// The first `x` of a text: none stands before its place, and it stands there
/// unless there is none at all.
pub proof fn the_first_x_is_found(s: Seq<char>)
    ensures
        0 <= first_x(s) <= s.len(),
        first_x(s) < s.len() ==> s[first_x(s)] == 'x',
        forall|i: int| 0 <= i < first_x(s) ==> #[trigger] s[i] != 'x',
    decreases s.len(),
{
    if s.len() > 0 && s[0] != 'x' {
        let rest = s.skip(1);
        the_first_x_is_found(rest);
        assert forall|i: int| 0 <= i < first_x(s) implies #[trigger] s[i] != 'x' by {
            if i > 0 {
                assert(rest[i - 1] == s[i]);
            }
        }
        if first_x(rest) < rest.len() {
            assert(rest[first_x(rest)] == s[first_x(s)]);
        }
    }
}

/// What stands for a number: its digits, with or without a plus sign in front, as
/// far as thirty-two bits go. Nothing, a sign alone and any other character do not.
pub proof fn numbers_are_read_as_written(n: nat, s: Seq<char>, i: int)
    ensures
        n <= u32::MAX ==> number(crate::digits::decimal(n)) == Some(n as u32),
        n <= u32::MAX ==> number(seq!['+'] + crate::digits::decimal(n)) == Some(n as u32),
        n > u32::MAX ==> number(crate::digits::decimal(n)) is None,
        number(Seq::empty()) is None,
        number(seq!['+']) is None,
        0 < i < s.len() && !('0' as int <= s[i] as int <= '9' as int) ==> number(s) is None,
        s.len() > 0 && s[0] != '+' && !('0' as int <= s[0] as int <= '9' as int) ==> number(s) is None,
{
    let d = crate::digits::decimal(n);
    crate::digits::decimals_read_back(n);
    crate::digits::decimals_have_no_zero_in_front(n);
    assert('0' as int <= d[0] as int <= '9' as int);
    assert((seq!['+'] + d).skip(1) == d);
    assert(seq!['+'].skip(1).len() == 0);
    if 0 < i < s.len() && !('0' as int <= s[i] as int <= '9' as int) {
        lemma_spoilt(s, i);
        assert(s.skip(1)[i - 1] == s[i]);
        lemma_spoilt(s.skip(1), i - 1);
    }
    if s.len() > 0 && !('0' as int <= s[0] as int <= '9' as int) {
        lemma_spoilt(s, 0);
    }
}

proof fn lemma_spoilt(s: Seq<char>, i: int)
    requires
        0 <= i < s.len(),
        !('0' as int <= s[i] as int <= '9' as int),
    ensures
        crate::digits::read(s) is None,
    decreases s.len(),
{
    if i < s.len() - 1 {
        assert(s.drop_last()[i] == s[i]);
        lemma_spoilt(s.drop_last(), i);
    }
}

/// Dimensions are read as they are written, width first, if both edges have three
/// pixels or more; a text without an `x` has none.
pub proof fn dimensions_are_read_as_written(w: nat, h: nat, s: Seq<char>)
    ensures
        3 <= w <= u32::MAX && 3 <= h <= u32::MAX ==> dimensions(
            crate::digits::decimal(w) + seq!['x'] + crate::digits::decimal(h),
        ) == Some((w as u32, h as u32)),
        w < 3 || h < 3 || w > u32::MAX || h > u32::MAX ==> dimensions(
            crate::digits::decimal(w) + seq!['x'] + crate::digits::decimal(h),
        ) is None,
        (forall|i: int| 0 <= i < s.len() ==> #[trigger] s[i] != 'x') ==> dimensions(s) is None,
        dimensions(s) matches Some(d) ==> d.0 >= 3 && d.1 >= 3,
{
    let a = crate::digits::decimal(w);
    let b = crate::digits::decimal(h);
    let t = a + seq!['x'] + b;
    crate::digits::decimals_have_no_zero_in_front(w);
    crate::digits::decimals_have_no_zero_in_front(h);
    the_first_x_is_found(t);
    the_first_x_is_found(s);
    assert(t[a.len() as int] == 'x');
    assert forall|i: int| 0 <= i < a.len() implies #[trigger] t[i] != 'x' by {
        assert(t[i] == a[i]);
    }
    assert(first_x(t) == a.len());
    assert(t.take(a.len() as int) == a);
    assert(t.skip(a.len() as int + 1) == b);
    numbers_are_read_as_written(w, s, 0);
    numbers_are_read_as_written(h, s, 0);
}

/// Lines become paths in their order, and one that holds nothing is left out.
pub proof fn empty_lines_are_left_out(lines: Seq<Seq<char>>, k: int)
    requires
        0 <= k < lines.len(),
    ensures
        filled(lines, 0) == Seq::<Result<Seq<char>, usize>>::empty(),
        lines[k].len() == 0 ==> filled(lines, k + 1) == filled(lines, k),
        lines[k].len() > 0 ==> filled(lines, k + 1) == filled(lines, k).push(Ok(lines[k])),
{
}

/// Arguments become paths in their order: any but a dash as it is, the first dash
/// as the lines that hold anything, and no later dash as anything.
pub proof fn arguments_become_paths_in_turn(
    args: Seq<Result<Seq<char>, usize>>,
    lines: Seq<Seq<char>>,
    k: int,
)
    requires
        0 <= k < args.len(),
    ensures
        paths_of(args, lines, 0) == Seq::<Result<Seq<char>, usize>>::empty(),
        args[k] != Ok::<Seq<char>, usize>("-"@) ==> paths_of(args, lines, k + 1) == paths_of(
            args,
            lines,
            k,
        ).push(args[k]),
        args[k] == Ok::<Seq<char>, usize>("-"@) && (forall|j: int|
            0 <= j < k ==> #[trigger] args[j] != Ok::<Seq<char>, usize>("-"@)) ==> paths_of(
            args,
            lines,
            k + 1,
        ) == paths_of(args, lines, k) + filled(lines, lines.len() as int),
        args[k] == Ok::<Seq<char>, usize>("-"@) && (exists|j: int|
            0 <= j < k && #[trigger] args[j] == Ok::<Seq<char>, usize>("-"@)) ==> paths_of(
            args,
            lines,
            k + 1,
        ) == paths_of(args, lines, k),
{
    if exists|j: int| 0 <= j < k && #[trigger] args[j] == Ok::<Seq<char>, usize>("-"@) {
        let j = choose|j: int| 0 <= j < k && #[trigger] args[j] == Ok::<Seq<char>, usize>("-"@);
        assert(is_dash(args[j]));
    }
}

/// Trimming takes away white space and nothing else: what stood before and behind
/// the part that is left was white space throughout.
pub proof fn only_white_space_is_trimmed(s: Seq<char>) -> (r: (int, int))
    ensures
        0 <= r.0 <= r.1 <= s.len(),
        trimmed(s) == s.subrange(r.0, r.1),
        forall|k: int| 0 <= k < r.0 ==> is_white(#[trigger] s[k]),
        forall|k: int| r.1 <= k < s.len() ==> is_white(#[trigger] s[k]),
{
    let i = lemma_front_is_white(s);
    let front = trimmed_start(s);
    let j = lemma_back_is_white(front);
    assert(trimmed(s) == s.subrange(i, i + j));
    assert forall|k: int| i + j <= k < s.len() implies is_white(#[trigger] s[k]) by {
        assert(front[k - i] == s[k]);
    }
    (i, i + j)
}

proof fn lemma_front_is_white(s: Seq<char>) -> (i: int)
    ensures
        0 <= i <= s.len(),
        trimmed_start(s) == s.skip(i),
        forall|k: int| 0 <= k < i ==> is_white(#[trigger] s[k]),
    decreases s.len(),
{
    if s.len() > 0 && is_white(s[0]) {
        let rest = s.skip(1);
        let i = lemma_front_is_white(rest);
        assert(rest.skip(i) == s.skip(i + 1));
        assert forall|k: int| 0 <= k < i + 1 implies is_white(#[trigger] s[k]) by {
            if k > 0 {
                assert(rest[k - 1] == s[k]);
            }
        }
        i + 1
    } else {
        assert(s.skip(0) == s);
        0
    }
}

proof fn lemma_back_is_white(s: Seq<char>) -> (j: int)
    ensures
        0 <= j <= s.len(),
        trimmed_end(s) == s.take(j),
        forall|k: int| j <= k < s.len() ==> is_white(#[trigger] s[k]),
    decreases s.len(),
{
    if s.len() > 0 && is_white(s.last()) {
        let rest = s.drop_last();
        let j = lemma_back_is_white(rest);
        assert(rest.take(j) == s.take(j));
        assert forall|k: int| j <= k < s.len() implies is_white(#[trigger] s[k]) by {
            if k < rest.len() {
                assert(rest[k] == s[k]);
            }
        }
        j
    } else {
        assert(s.take(s.len() as int) == s);
        s.len() as int
    }
}

/// Blanks, tabs and line ends are white space, and no other ASCII character is.
pub proof fn blanks_and_line_ends_are_white(c: char)
    ensures
        (c as int) < 0x80 ==> (is_white(c) <==> c == ' ' || 0x9 <= c as int <= 0xd),
        is_white(' ') && is_white('\t') && is_white('\n') && is_white('\r'),
        0x3001 <= c as int ==> !is_white(c),
{
}

/// What is stored of an image is a JSON object in which each name leads to the
/// value of that name.
pub proof fn stored_values_are_found_by_name(
    f: FeatureTexts,
    category: Category,
    ahash: &str,
    r: String,
)
    requires
        call_ensures(features_record, (&f, category, ahash), r),
    ensures
        exists|m: Seq<(Seq<char>, Seq<char>)>|
            {
                &&& r@ == #[trigger] crate::record::object_text(m)
                &&& m.len() == 9
                &&& crate::record::member(m, "x"@) == Some(f.x@)
                &&& crate::record::member(m, "y"@) == Some(f.y@)
                &&& crate::record::member(m, "avg_skin"@) == Some(f.avg_skin@)
                &&& crate::record::member(m, "avg_sat"@) == Some(f.avg_sat@)
                &&& crate::record::member(m, "avg_sharp"@) == Some(f.avg_sharp@)
                &&& crate::record::member(m, "symmetry"@) == Some(f.symmetry@)
                &&& crate::record::member(m, "edge_energy"@) == Some(f.edge_energy@)
                &&& crate::record::member(m, "category"@) == Some(
                    seq!['"'] + category.called() + seq!['"'],
                )
                &&& crate::record::member(m, "ahash"@) == Some(seq!['"'] + ahash@ + seq!['"'])
            },
{
    records_hold_each_value_under_its_name(f, category, ahash@);
    let m: Seq<(Seq<char>, Seq<char>)> = seq![
        ("x"@, f.x@),
        ("y"@, f.y@),
        ("category"@, seq!['"'] + category.called() + seq!['"']),
        ("avg_skin"@, f.avg_skin@),
        ("avg_sat"@, f.avg_sat@),
        ("avg_sharp"@, f.avg_sharp@),
        ("symmetry"@, f.symmetry@),
        ("edge_energy"@, f.edge_energy@),
        ("ahash"@, seq!['"'] + ahash@ + seq!['"']),
    ];
    assert(r@ == crate::record::object_text(m));
}

/// A second look is worth it in frames with colour, unless it is switched off.
pub proof fn frames_with_colour_are_looked_at_again(off: bool, category: Category, r: bool)
    requires
        call_ensures(looks_again, (off, category), r),
    ensures
        off ==> !r,
        category == Category::Mono ==> !r,
        !off && category != Category::Mono ==> r,
{
}

/// A frame has four bytes for each pixel.
pub proof fn pixels_have_four_bytes(w: u32, h: u32, r: u32)
    requires
        call_ensures(frame_bytes, (w, h), r),
    ensures
        r == 4 * (w * h),
{
    assert(w * h * 4 == 4 * (w * h));
}

/// Texts are the same exactly if they are as long as each other and agree in every
/// letter.
pub proof fn same_texts_agree_in_every_letter(a: &str, b: &str, r: bool)
    requires
        call_ensures(same_text, (a, b), r),
    ensures
        r ==> a@.len() == b@.len() && (forall|i: int| 0 <= i < a@.len() ==> #[trigger] a@[i] == b@[i]),
        a@.len() != b@.len() ==> !r,
        (exists|i: int| 0 <= i < a@.len() && i < b@.len() && #[trigger] a@[i] != b@[i]) ==> !r,
        a@.len() == b@.len() && (forall|i: int| 0 <= i < a@.len() ==> #[trigger] a@[i] == b@[i])
            ==> r,
{
    if a@.len() == b@.len() && (forall|i: int| 0 <= i < a@.len() ==> #[trigger] a@[i] == b@[i]) {
        assert(a@ =~= b@);
    }
}

} // verus!
