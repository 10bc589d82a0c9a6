//! Numbers written out in digits.

use vstd::prelude::*;
use vstd::string::StringExecFns;

verus! {

/// The digit for a number below sixteen.
pub open spec fn digit(d: int) -> char {
    if d < 10 {
        (48 + d) as char
    } else {
        (87 + d) as char
    }
}

/// The digit for a number below sixteen.
pub fn digit_text(d: u8) -> (r: &'static str)
    requires
        d < 16,
    ensures
        r@ == seq![digit(d as int)],
        d < 10 ==> r@ == seq![('0' as u32 + d) as char],
        d >= 10 ==> r@ == seq![('a' as u32 + d - 10) as char],
{
    proof {
        reveal_strlit("0");
        reveal_strlit("1");
        reveal_strlit("2");
        reveal_strlit("3");
        reveal_strlit("4");
        reveal_strlit("5");
        reveal_strlit("6");
        reveal_strlit("7");
        reveal_strlit("8");
        reveal_strlit("9");
        reveal_strlit("a");
        reveal_strlit("b");
        reveal_strlit("c");
        reveal_strlit("d");
        reveal_strlit("e");
        reveal_strlit("f");
    }
    let r: &'static str = match d {
        0 => "0",
        1 => "1",
        2 => "2",
        3 => "3",
        4 => "4",
        5 => "5",
        6 => "6",
        7 => "7",
        8 => "8",
        9 => "9",
        10 => "a",
        11 => "b",
        12 => "c",
        13 => "d",
        14 => "e",
        _ => "f",
    };
    assert(r@ == seq![digit(d as int)]);
    r
}

/// A number in decimal digits.
pub open spec fn decimal(n: nat) -> Seq<char>
    decreases n,
{
    if n < 10 {
        seq![digit(n as int)]
    } else {
        decimal(n / 10).push(digit((n % 10) as int))
    }
}

/// A number in decimal digits.
pub fn decimal_text(n: u64) -> (r: String)
    ensures
        r@ == decimal(n as nat),
    decreases n,
{
    if n < 10 {
        let mut r = String::new();
        r.append(digit_text(n as u8));
        assert(r@ == seq![digit(n as int)]);
        r
    } else {
        let mut r = decimal_text(n / 10);
        r.append(digit_text((n % 10) as u8));
        assert(r@ == decimal((n / 10) as nat).push(digit((n % 10) as int)));
        r
    }
}

/// What a decimal digit stands for.
pub open spec fn value_of(c: char) -> Option<int> {
    if '0' <= c && c <= '9' {
        Some(c as int - 48)
    } else {
        None
    }
}

/// What decimal digits stand for, if they are nothing else.
pub open spec fn read(s: Seq<char>) -> Option<int>
    decreases s.len(),
{
    if s.len() == 0 {
        Some(0)
    } else {
        match (read(s.drop_last()), value_of(s.last())) {
            (Some(n), Some(d)) => Some(10 * n + d),
            _ => None,
        }
    }
}

/// Reading what was written gives the number back.
pub proof fn decimals_read_back(n: nat)
    ensures
        decimal(n).len() > 0,
        read(decimal(n)) == Some(n as int),
    decreases n,
{
    if n < 10 {
        let s = decimal(n);
        assert(s.drop_last() == Seq::<char>::empty());
        assert(read(s.drop_last()) == Some(0int));
        assert(s.last() == digit(n as int));
        assert(value_of(s.last()) == Some(n as int));
    } else {
        decimals_read_back(n / 10);
        let s = decimal(n);
        assert(s.drop_last() == decimal(n / 10));
        assert(value_of(s.last()) == Some((n % 10) as int));
    }
}

/// The digits up to nine are the decimal ones, those from ten on the first letters.
pub proof fn digits_go_on_in_letters(d: int)
    requires
        0 <= d < 16,
    ensures
        d < 10 ==> digit(d) as int == '0' as int + d,
        d >= 10 ==> digit(d) as int == 'a' as int + (d - 10),
        d < 10 ==> value_of(digit(d)) == Some(d),
        d >= 10 ==> value_of(digit(d)) is None,
{
}

/// Only the ten decimal digits have a value, each its own.
pub proof fn only_digits_have_a_value(c: char)
    ensures
        value_of(c) is Some <==> '0' as int <= c as int <= '9' as int,
        value_of(c) matches Some(d) ==> c as int == '0' as int + d && 0 <= d <= 9,
{
}

/// A further digit makes a number ten times as large and adds itself; a further
/// character of any other kind spoils it.
pub proof fn numbers_are_read_digit_by_digit(s: Seq<char>, c: char)
    ensures
        read(Seq::empty()) == Some(0int),
        read(s) is None ==> read(s.push(c)) is None,
        '0' as int <= c as int <= '9' as int ==> (read(s) matches Some(n) ==> read(s.push(c)) == Some(
            10 * n + (c as int - '0' as int),
        )),
        !('0' as int <= c as int <= '9' as int) ==> read(s.push(c)) is None,
{
    assert(s.push(c).drop_last() == s);
}

/// A number is written in decimal digits only, with no zero in front.
pub proof fn decimals_have_no_zero_in_front(n: nat)
    ensures
        decimal(n).len() > 0,
        forall|i: int|
            0 <= i < decimal(n).len() ==> '0' as int <= #[trigger] decimal(n)[i] as int <= '9' as int,
        decimal(n)[0] == '0' <==> n == 0,
    decreases n,
{
    if n >= 10 {
        decimals_have_no_zero_in_front(n / 10);
        assert(decimal(n)[0] == decimal(n / 10)[0]);
        assert forall|i: int| 0 <= i < decimal(n).len() implies '0' as int
            <= #[trigger] decimal(n)[i] as int <= '9' as int by {
            if i < decimal(n / 10).len() {
                assert(decimal(n)[i] == decimal(n / 10)[i]);
            }
        }
    }
}

} // verus!
