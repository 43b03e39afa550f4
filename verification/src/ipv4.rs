//! IPv4 addresses and how tools print them.

use vstd::prelude::*;

use crate::numbers;
use crate::numbers::{decimal_text, parse_u16};
use crate::text;
use crate::text::{chars_of, split_at_char};

verus! {

/// An IPv4 address, `a.b.c.d`.
#[derive(Debug, Clone, Copy, PartialEq, Eq, Structural)]
pub struct Ipv4 {
    pub a: u8,
    pub b: u8,
    pub c: u8,
    pub d: u8,
}

/// The notation of an address: four decimal numbers with dots between them.
pub open spec fn dotted(ip: Ipv4) -> Seq<char> {
    numbers::decimal(ip.a as nat).push('.') + (numbers::decimal(ip.b as nat).push('.')
        + (numbers::decimal(ip.c as nat).push('.') + numbers::decimal(ip.d as nat)))
}

/// The address whose notation is `s`, if there is one.
pub open spec fn ip_of(s: Seq<char>) -> Option<Ipv4> {
    if exists|ip: Ipv4| #[trigger] dotted(ip) == s {
        Some(choose|ip: Ipv4| #[trigger] dotted(ip) == s)
    } else {
        None
    }
}

proof fn lemma_no_dot(n: nat)
    ensures
        forall|i: int|
            0 <= i < numbers::decimal(n).len() ==> numbers::decimal(n)[i] != '.',
{
    numbers::lemma_decimal_digits(n);
    assert forall|i: int| 0 <= i < numbers::decimal(n).len() implies numbers::decimal(
        n,
    )[i] != '.' by {
        assert(numbers::is_digit(numbers::decimal(n)[i]));
    }
}

proof fn lemma_split_dotted(ip: Ipv4)
    ensures
        text::split(dotted(ip), '.') == seq![
            numbers::decimal(ip.a as nat),
            numbers::decimal(ip.b as nat),
            numbers::decimal(ip.c as nat),
            numbers::decimal(ip.d as nat),
        ],
{
    let a = numbers::decimal(ip.a as nat);
    let b = numbers::decimal(ip.b as nat);
    let c = numbers::decimal(ip.c as nat);
    let d = numbers::decimal(ip.d as nat);
    lemma_no_dot(ip.a as nat);
    lemma_no_dot(ip.b as nat);
    lemma_no_dot(ip.c as nat);
    lemma_no_dot(ip.d as nat);
    text::lemma_split_first(a, '.', b.push('.') + (c.push('.') + d));
    text::lemma_split_first(b, '.', c.push('.') + d);
    text::lemma_split_first(c, '.', d);
    text::lemma_split_whole(d, '.');
    assert(text::split(dotted(ip), '.') =~= seq![a, b, c, d]);
}

/// Two addresses with one notation are one address.
pub proof fn dotted_is_injective(x: Ipv4, y: Ipv4)
    requires
        dotted(x) == dotted(y),
    ensures
        x == y,
{
    lemma_split_dotted(x);
    lemma_split_dotted(y);
    let p = text::split(dotted(x), '.');
    assert(p[0] == numbers::decimal(x.a as nat) && p[0] == numbers::decimal(
        y.a as nat,
    ));
    assert(p[1] == numbers::decimal(x.b as nat) && p[1] == numbers::decimal(
        y.b as nat,
    ));
    assert(p[2] == numbers::decimal(x.c as nat) && p[2] == numbers::decimal(
        y.c as nat,
    ));
    assert(p[3] == numbers::decimal(x.d as nat) && p[3] == numbers::decimal(
        y.d as nat,
    ));
    numbers::decimal_is_injective(x.a as nat, y.a as nat);
    numbers::decimal_is_injective(x.b as nat, y.b as nat);
    numbers::decimal_is_injective(x.c as nat, y.c as nat);
    numbers::decimal_is_injective(x.d as nat, y.d as nat);
}

/// Reading the notation of an address gives the address back.
pub proof fn parse_undoes_print(ip: Ipv4)
    ensures
        ip_of(dotted(ip)) == Some(ip),
{
    let other = choose|other: Ipv4| #[trigger] dotted(other) == dotted(ip);
    dotted_is_injective(other, ip);
}

/// The number below 256 whose decimal notation is `part`.
fn parse_octet(part: &str) -> (res: Option<u8>)
    ensures
        res matches Some(v) ==> part@ == numbers::decimal(v as nat),
        res is None ==> forall|v: u8| part@ != #[trigger] numbers::decimal(v as nat),
{
    let chars = chars_of(part);
    let usable = chars.len() > 0 && chars[0] != '+' && (chars.len() == 1 || chars[0] != '0');
    let parsed = parse_u16(part);
    proof {
        assert forall|v: u8| part@ == #[trigger] numbers::decimal(v as nat) implies usable
            && numbers::unsigned(part@) == Some(v as nat) by {
            numbers::lemma_decimal_digits(v as nat);
            assert(numbers::is_digit(part@[0]));
        }
    }
    if !usable {
        return None;
    }
    match parsed {
        Some(v) => {
            proof {
                numbers::lemma_decimal_of_value(part@);
            }
            if v <= 255 {
                Some(v as u8)
            } else {
                None
            }
        },
        None => None,
    }
}

/// Reads an address.
pub fn parse_ip(s: &str) -> (res: Option<Ipv4>)
    ensures
        res == ip_of(s@),
{
    let parts = split_at_char(s, '.');
    let ghost split = text::split(s@, '.');
    proof {
        assert forall|ip: Ipv4| #[trigger] dotted(ip) == s@ implies parts@.len() == 4
            && parts@[0]@ == numbers::decimal(ip.a as nat) && parts@[1]@
            == numbers::decimal(ip.b as nat) && parts@[2]@ == numbers::decimal(
            ip.c as nat,
        ) && parts@[3]@ == numbers::decimal(ip.d as nat) by {
            lemma_split_dotted(ip);
            assert(text::texts(parts@).len() == parts@.len());
            assert(split[0] == parts@[0]@ && split[1] == parts@[1]@ && split[2] == parts@[2]@
                && split[3] == parts@[3]@);
        }
    }
    if parts.len() != 4 {
        return None;
    }
    match (
        parse_octet(&parts[0]),
        parse_octet(&parts[1]),
        parse_octet(&parts[2]),
        parse_octet(&parts[3]),
    ) {
        (Some(a), Some(b), Some(c), Some(d)) => {
            let ip = Ipv4 { a, b, c, d };
            proof {
                text::split_then_join(s@, '.');
                reveal_with_fuel(text::joined, 4);
                assert(split.len() == 4);
                assert(split.drop_last().drop_last().drop_last()[0] == parts@[0]@);
                assert(split.drop_last().drop_last().last() == parts@[1]@);
                assert(split.drop_last().last() == parts@[2]@);
                assert(split.last() == parts@[3]@);
                assert(s@ =~= dotted(ip));
                parse_undoes_print(ip);
            }
            Some(ip)
        },
        _ => None,
    }
}

/// Writes an address.
pub fn ip_text(ip: Ipv4) -> (res: String)
    ensures
        res@ == dotted(ip),
{
    let mut res = decimal_text(ip.a as u64);
    res.push('.');
    res.append(&decimal_text(ip.b as u64));
    res.push('.');
    res.append(&decimal_text(ip.c as u64));
    res.push('.');
    res.append(&decimal_text(ip.d as u64));
    assert(res@ =~= dotted(ip));
    res
}

/// An address is written as the decimal notations of its four numbers, in order,
/// with dots between them.
pub proof fn addresses_are_four_numbers(
    ip: Ipv4,
    res: String,
    a: String,
    b: String,
    c: String,
    d: String,
)
    requires
        call_ensures(ip_text, (ip,), res),
        call_ensures(decimal_text, (ip.a as u64,), a),
        call_ensures(decimal_text, (ip.b as u64,), b),
        call_ensures(decimal_text, (ip.c as u64,), c),
        call_ensures(decimal_text, (ip.d as u64,), d),
    ensures
        res@ == a@ + "."@ + b@ + "."@ + c@ + "."@ + d@,
{
    reveal_strlit(".");
    assert(res@ =~= a@ + "."@ + b@ + "."@ + c@ + "."@ + d@);
}

/// An address that is written and read is the same, and what is read as an
/// address is its notation, to the letter.
pub proof fn written_addresses_read_back(
    ip: Ipv4,
    written: String,
    s: &str,
    res: Option<Ipv4>,
)
    requires
        call_ensures(ip_text, (ip,), written),
        call_ensures(parse_ip, (s,), res),
    ensures
        s@ == written@ <==> res == Some(ip),
{
    parse_undoes_print(ip);
}

} // verus!
