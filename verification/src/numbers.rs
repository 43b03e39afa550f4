//! Numbers in decimal notation.

use vstd::prelude::*;

use crate::text::chars_of;

verus! {

/// The character of a digit below ten.
pub open spec fn digit_char(d: int) -> char {
    seq!['0', '1', '2', '3', '4', '5', '6', '7', '8', '9'][d]
}

/// The decimal notation of `n`.
pub open spec fn decimal(n: nat) -> Seq<char>
    decreases n,
{
    if n < 10 {
        seq![digit_char(n as int)]
    } else {
        decimal(n / 10).push(digit_char((n % 10) as int))
    }
}

pub open spec fn is_digit(c: char) -> bool {
    '0' <= c <= '9'
}

/// `s` is one or more digits.
pub open spec fn all_digits(s: Seq<char>) -> bool {
    s.len() > 0 && forall|i: int| 0 <= i < s.len() ==> is_digit(#[trigger] s[i])
}

/// The value of a row of digits.
pub open spec fn digits_value(s: Seq<char>) -> nat
    decreases s.len(),
{
    if s.len() == 0 {
        0
    } else {
        10 * digits_value(s.drop_last()) + (s.last() as nat - '0' as nat) as nat
    }
}

/// The number that `s` writes: digits, with or without a plus sign before them.
pub open spec fn unsigned(s: Seq<char>) -> Option<nat> {
    let body = if s.len() > 0 && s[0] == '+' {
        s.drop_first()
    } else {
        s
    };
    if all_digits(body) {
        Some(digits_value(body))
    } else {
        None
    }
}

fn char_of_digit(d: u64) -> (res: char)
    requires
        d < 10,
    ensures
        res == digit_char(d as int),
{
    match d {
        0 => '0',
        1 => '1',
        2 => '2',
        3 => '3',
        4 => '4',
        5 => '5',
        6 => '6',
        7 => '7',
        8 => '8',
        _ => '9',
    }
}

/// The decimal notation of `n`.
pub fn decimal_text(n: u64) -> (res: String)
    ensures
        res@ == decimal(n as nat),
    decreases n,
{
    if n < 10 {
        let mut res = String::new();
        res.push(char_of_digit(n));
        assert(res@ =~= decimal(n as nat));
        res
    } else {
        let mut res = decimal_text(n / 10);
        res.push(char_of_digit(n % 10));
        res
    }
}

/// The number that `s` writes, if it is below 65536.
pub fn parse_u16(s: &str) -> (res: Option<u16>)
    ensures
        res matches Some(v) ==> unsigned(s@) == Some(v as nat),
        res is None ==> (unsigned(s@) matches Some(v) ==> v > u16::MAX),
{
    let chars = chars_of(s);
    let from: usize = if chars.len() > 0 && chars[0] == '+' {
        1
    } else {
        0
    };
    let ghost body = chars@.skip(from as int);
    proof {
        if from == 1 {
            assert(body =~= chars@.drop_first());
        } else {
            assert(body =~= chars@);
        }
    }
    if from == chars.len() {
        return None;
    }
    let mut value: u32 = 0;
    let mut i: usize = from;
    let mut too_large: bool = false;
    assert(body.take(0).len() == 0);
    while i < chars.len()
        invariant
            from <= i <= chars@.len(),
            from <= 1,
            body == chars@.skip(from as int),
            body.len() > 0,
            unsigned(s@) == if all_digits(body) { Some(digits_value(body)) } else { None::<nat> },
            forall|k: int| 0 <= k < i - from ==> is_digit(#[trigger] body[k]),
            !too_large ==> value == digits_value(body.take(i - from)) && value <= 65535,
            too_large ==> digits_value(body.take(i - from)) > 65535,
        decreases chars@.len() - i,
    {
        let c = chars[i];
        assert(body[i - from] == c);
        if !('0' <= c && c <= '9') {
            return None;
        }
        proof {
            assert(body.take(i - from + 1).drop_last() =~= body.take(i - from));
        }
        if !too_large {
            value = value * 10 + (c as u32 - '0' as u32);
            if value > 65535 {
                too_large = true;
            }
        }
        i += 1;
    }
    assert(body.take(i - from) =~= body);
    if too_large {
        None
    } else {
        Some(value as u16)
    }
}

/// The decimal notation of a number is a row of digits.
pub proof fn lemma_decimal_digits(n: nat)
    ensures
        all_digits(decimal(n)),
        decimal(n).len() > 1 ==> decimal(n)[0] != '0',
        digits_value(decimal(n)) == n,
        n < 10 <==> decimal(n).len() == 1,
    decreases n,
{
    reveal_with_fuel(digits_value, 2);
    if n >= 10 {
        lemma_decimal_digits(n / 10);
        assert(decimal(n).drop_last() =~= decimal(n / 10));
        if decimal(n / 10).len() == 1 {
            assert(decimal(n / 10)[0] == digit_char((n / 10) as int));
        }
    } else {
        assert(decimal(n).drop_last() =~= Seq::<char>::empty());
    }
}

/// Two numbers with one notation are one number.
pub proof fn decimal_is_injective(m: nat, n: nat)
    requires
        decimal(m) == decimal(n),
    ensures
        m == n,
{
    lemma_decimal_digits(m);
    lemma_decimal_digits(n);
}

/// A row of digits without a needless zero at its start is the decimal
/// notation of its value.
pub proof fn lemma_decimal_of_value(s: Seq<char>)
    requires
        all_digits(s),
        s.len() == 1 || s[0] != '0',
    ensures
        decimal(digits_value(s)) == s,
        s[0] != '0' ==> digits_value(s) > 0,
    decreases s.len(),
{
    reveal_with_fuel(digits_value, 2);
    let d = (s.last() as nat - '0' as nat) as nat;
    assert(is_digit(s.last()));
    assert(digit_char(d as int) == s.last());
    if s.len() == 1 {
        assert(s.drop_last() =~= Seq::<char>::empty());
        assert(decimal(d) =~= s);
    } else {
        let head = s.drop_last();
        assert forall|i: int| 0 <= i < head.len() implies is_digit(#[trigger] head[i]) by {
            assert(head[i] == s[i]);
        }
        lemma_decimal_of_value(head);
        let v = digits_value(head);
        assert((10 * v + d) / 10 == v);
        assert(decimal(10 * v + d) =~= s);
    }
}

/// A number is written digit by digit: what is written of a tenth of it, and
/// then the digit of the rest.
pub proof fn digits_follow_each_other(n: u64, s: String, tenth: String)
    requires
        call_ensures(decimal_text, (n,), s),
        call_ensures(decimal_text, (n / 10,), tenth),
    ensures
        s@.len() > 0,
        s@.last() as int == 48 + n % 10,
        n < 10 ==> s@.len() == 1,
        n >= 10 ==> s@.drop_last() == tenth@,
{
    if n >= 10 {
        assert(s@.drop_last() =~= tenth@);
    }
}

/// A port that was written is read back.
pub proof fn written_numbers_read_back(n: u16, s: String, t: &str, res: Option<u16>)
    requires
        call_ensures(decimal_text, (n as u64,), s),
        call_ensures(parse_u16, (t,), res),
        t@ == s@,
    ensures
        res == Some(n),
{
    lemma_unsigned_decimal(n as nat);
}

pub(crate) proof fn lemma_unsigned_decimal(n: nat)
    ensures
        unsigned(decimal(n)) == Some(n),
{
    lemma_decimal_digits(n);
    assert(is_digit(decimal(n)[0]));
}

/// A number is read digit by digit: one more digit makes it ten times as large,
/// and adds itself, as long as it stays below 65536; anything but a digit makes
/// it none.
pub proof fn digits_are_read_one_by_one(
    t: &str,
    longer: &str,
    c: char,
    res: Option<u16>,
    more: Option<u16>,
)
    requires
        call_ensures(parse_u16, (t,), res),
        call_ensures(parse_u16, (longer,), more),
        longer@ == t@.push(c),
        res is Some,
    ensures
        more == if '0' <= c <= '9' && 10 * res->Some_0 + (c as int - 48) <= 65535 {
            Some((10 * res->Some_0 + (c as int - 48)) as u16)
        } else {
            None::<u16>
        },
{
    let a = if t@[0] == '+' {
        t@.drop_first()
    } else {
        t@
    };
    let b = if longer@[0] == '+' {
        longer@.drop_first()
    } else {
        longer@
    };
    assert(t@.len() > 0);
    assert(longer@[0] == t@[0]);
    assert(b =~= a.push(c));
    assert(b.drop_last() =~= a);
    if is_digit(c) {
        assert forall|i: int| 0 <= i < b.len() implies is_digit(#[trigger] b[i]) by {
            if i < a.len() {
                assert(b[i] == a[i]);
            }
        }
    } else {
        assert(b[b.len() - 1] == c);
    }
}

/// One digit is its value; no digits, or something else, is no number.
pub proof fn single_digits_are_read(t: &str, res: Option<u16>)
    requires
        call_ensures(parse_u16, (t,), res),
        t@.len() <= 1,
    ensures
        res == if t@.len() == 1 && '0' <= t@[0] <= '9' {
            Some((t@[0] as int - 48) as u16)
        } else {
            None::<u16>
        },
{
    reveal_with_fuel(digits_value, 2);
    if t@.len() == 1 {
        if t@[0] == '+' {
            assert(t@.drop_first().len() == 0);
        } else {
            assert(t@.drop_last().len() == 0);
            if is_digit(t@[0]) {
                assert(all_digits(t@));
            } else {
                assert(!all_digits(t@));
            }
        }
    }
}

} // verus!
