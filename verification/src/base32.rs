//! Crockford Base32: the symbols of a pairing code.
//!
//! Data is read as one stream of bits, the most significant bit of each byte
//! first. A code cuts the stream into groups of five bits, the last group
//! filled up with zeros, and writes one symbol per group.

use vstd::prelude::*;

use crate::text::chars_of;

verus! {

/// Why a text is no pairing code.
#[derive(Debug, Clone, Copy, PartialEq, Eq, Structural)]
pub enum CodeError {
    /// Nothing is left of the text once its dashes are gone.
    Empty,
    /// The first character that stands for no value.
    InvalidCharacter(char),
    /// The text stands for this many bytes, which is not what a code holds.
    WrongLength(usize),
}

/// The symbol of a value below 32. The letters I, L, O and U are left out.
pub open spec fn symbol(v: int) -> char {
    seq![
        '0', '1', '2', '3', '4', '5', '6', '7', '8', '9',
        'A', 'B', 'C', 'D', 'E', 'F', 'G', 'H', 'J', 'K', 'M', 'N', 'P', 'Q', 'R', 'S', 'T', 'V',
        'W', 'X', 'Y', 'Z',
    ][v]
}

/// The value that a character stands for, whatever its case. `I` and `L` are
/// read as `1`, and `O` as `0`.
pub open spec fn value_of(c: char) -> Option<u8> {
    match c {
        '0' | 'O' | 'o' => Some(0),
        '1' | 'I' | 'i' | 'L' | 'l' => Some(1),
        '2' => Some(2),
        '3' => Some(3),
        '4' => Some(4),
        '5' => Some(5),
        '6' => Some(6),
        '7' => Some(7),
        '8' => Some(8),
        '9' => Some(9),
        'A' | 'a' => Some(10),
        'B' | 'b' => Some(11),
        'C' | 'c' => Some(12),
        'D' | 'd' => Some(13),
        'E' | 'e' => Some(14),
        'F' | 'f' => Some(15),
        'G' | 'g' => Some(16),
        'H' | 'h' => Some(17),
        'J' | 'j' => Some(18),
        'K' | 'k' => Some(19),
        'M' | 'm' => Some(20),
        'N' | 'n' => Some(21),
        'P' | 'p' => Some(22),
        'Q' | 'q' => Some(23),
        'R' | 'r' => Some(24),
        'S' | 's' => Some(25),
        'T' | 't' => Some(26),
        'V' | 'v' => Some(27),
        'W' | 'w' => Some(28),
        'X' | 'x' => Some(29),
        'Y' | 'y' => Some(30),
        'Z' | 'z' => Some(31),
        _ => None,
    }
}

/// Bit `p` of the stream of `data`, and zero past its end.
pub open spec fn data_bit(data: Seq<u8>, p: int) -> bool {
    0 <= p < 8 * data.len() && (data[p / 8] >> ((7 - p % 8) as u8)) & 1 == 1
}

/// Bit `p` of the stream that values below 32 spell, five bits each.
pub open spec fn digit_bit(digits: Seq<u8>, p: int) -> bool {
    0 <= p < 5 * digits.len() && (digits[p / 5] >> ((4 - p % 5) as u8)) & 1 == 1
}

pub open spec fn weight(bit: bool, w: int) -> int {
    if bit { w } else { 0 }
}

/// The value of the five bits of `data` from bit `5 * i` on.
pub open spec fn quintet(data: Seq<u8>, i: int) -> int {
    weight(data_bit(data, 5 * i), 16) + weight(data_bit(data, 5 * i + 1), 8) + weight(
        data_bit(data, 5 * i + 2),
        4,
    ) + weight(data_bit(data, 5 * i + 3), 2) + weight(data_bit(data, 5 * i + 4), 1)
}

/// The value of the eight bits of `digits` from bit `8 * j` on.
pub open spec fn octet(digits: Seq<u8>, j: int) -> int {
    weight(digit_bit(digits, 8 * j), 128) + weight(digit_bit(digits, 8 * j + 1), 64) + weight(
        digit_bit(digits, 8 * j + 2),
        32,
    ) + weight(digit_bit(digits, 8 * j + 3), 16) + weight(digit_bit(digits, 8 * j + 4), 8) + weight(
        digit_bit(digits, 8 * j + 5),
        4,
    ) + weight(digit_bit(digits, 8 * j + 6), 2) + weight(digit_bit(digits, 8 * j + 7), 1)
}

/// How many symbols spell `n` bytes.
pub open spec fn code_len(n: nat) -> nat {
    ((8 * n + 4) / 5) as nat
}

/// The code of `data`.
pub open spec fn encoded(data: Seq<u8>) -> Seq<char> {
    Seq::new(code_len(data.len()), |i: int| symbol(quintet(data, i)))
}

/// The whole bytes that `digits` spell; bits left over are dropped.
pub open spec fn decoded(digits: Seq<u8>) -> Seq<u8> {
    Seq::new((5 * digits.len() / 8) as nat, |j: int| octet(digits, j) as u8)
}

/// `s` without its dashes.
pub open spec fn undashed(s: Seq<char>) -> Seq<char> {
    s.filter(|c: char| c != '-')
}

pub open spec fn digits_of(s: Seq<char>) -> Seq<u8> {
    s.map_values(|c: char| value_of(c).unwrap())
}

/// The first character of `s` that stands for no value, if there is one.
pub open spec fn first_invalid(s: Seq<char>) -> Option<char>
    decreases s.len(),
{
    if s.len() == 0 {
        None
    } else if value_of(s[0]) is None {
        Some(s[0])
    } else {
        first_invalid(s.drop_first())
    }
}

/// What decoding `s` gives.
pub open spec fn decode_outcome(s: Seq<char>) -> Result<Seq<u8>, CodeError> {
    let cleaned = undashed(s);
    if cleaned.len() == 0 {
        Err(CodeError::Empty)
    } else {
        match first_invalid(cleaned) {
            Some(c) => Err(CodeError::InvalidCharacter(c)),
            None => Ok(decoded(digits_of(cleaned))),
        }
    }
}

spec fn reg_bit(bits: u64, k: int) -> bool {
    (bits >> (k as u64)) & 1 == 1
}

proof fn lemma_push_byte(bits: u64, byte: u8, k: int)
    requires
        0 <= k < 32,
    ensures
        k < 8 ==> reg_bit((bits << 8) | (byte as u64), k) == ((byte >> (k as u8)) & 1 == 1),
        8 <= k ==> reg_bit((bits << 8) | (byte as u64), k) == reg_bit(bits, k - 8),
{
    let kk = k as u64;
    let k8 = k as u8;
    if k < 8 {
        assert(((((bits << 8) | (byte as u64)) >> kk) & 1 == 1) == ((byte >> k8) & 1 == 1))
            by (bit_vector)
            requires
                kk < 8,
                k8 as u64 == kk,
        ;
    } else {
        let km = (k - 8) as u64;
        assert(((((bits << 8) | (byte as u64)) >> kk) & 1) == ((bits >> km) & 1)) by (bit_vector)
            requires
                8 <= kk < 32,
                km == kk - 8,
        ;
    }
}

proof fn lemma_push_digit(bits: u64, digit: u8, k: int)
    requires
        0 <= k < 32,
        digit < 32,
    ensures
        k < 5 ==> reg_bit((bits << 5) | (digit as u64), k) == ((digit >> (k as u8)) & 1 == 1),
        5 <= k ==> reg_bit((bits << 5) | (digit as u64), k) == reg_bit(bits, k - 5),
{
    let kk = k as u64;
    let k8 = k as u8;
    if k < 5 {
        assert(((((bits << 5) | (digit as u64)) >> kk) & 1 == 1) == ((digit >> k8) & 1 == 1))
            by (bit_vector)
            requires
                kk < 5,
                k8 as u64 == kk,
        ;
    } else {
        let km = (k - 5) as u64;
        assert(((((bits << 5) | (digit as u64)) >> kk) & 1) == ((bits >> km) & 1)) by (bit_vector)
            requires
                5 <= kk < 32,
                km == kk - 5,
                digit < 32,
        ;
    }
}

/// The low five bits of a register shifted right by `n`, one by one.
proof fn lemma_window5(bits: u64, n: u64)
    requires
        n <= 24,
    ensures
        (bits >> n) & 0x1f < 32,
        (bits >> n) & 0x1f == weight(reg_bit(bits, n + 4), 16) + weight(reg_bit(bits, n + 3), 8)
            + weight(reg_bit(bits, n + 2), 4) + weight(reg_bit(bits, n + 1), 2) + weight(
            reg_bit(bits, n as int),
            1,
        ),
{
    let n1 = (n + 1) as u64;
    let n2 = (n + 2) as u64;
    let n3 = (n + 3) as u64;
    let n4 = (n + 4) as u64;
    assert((bits >> n) & 0x1f < 32) by (bit_vector);
    assert((bits >> n) & 0x1f == 16 * ((bits >> n4) & 1) + 8 * ((bits >> n3) & 1) + 4 * ((bits
        >> n2) & 1) + 2 * ((bits >> n1) & 1) + ((bits >> n) & 1)) by (bit_vector)
        requires
            n <= 24,
            n1 == n + 1,
            n2 == n + 2,
            n3 == n + 3,
            n4 == n + 4,
    ;
    lemma_one_bit(bits, n);
    lemma_one_bit(bits, n1);
    lemma_one_bit(bits, n2);
    lemma_one_bit(bits, n3);
    lemma_one_bit(bits, n4);
}

proof fn lemma_one_bit(bits: u64, n: u64)
    ensures
        (bits >> n) & 1 == 0 || (bits >> n) & 1 == 1,
{
    assert((bits >> n) & 1 == 0 || (bits >> n) & 1 == 1) by (bit_vector);
}

/// The low eight bits of a register shifted right by `n`, one by one.
proof fn lemma_window8(bits: u64, n: u64)
    requires
        n <= 16,
    ensures
        (bits >> n) & 0xff < 256,
        (bits >> n) & 0xff == weight(reg_bit(bits, n + 7), 128) + weight(reg_bit(bits, n + 6), 64)
            + weight(reg_bit(bits, n + 5), 32) + weight(reg_bit(bits, n + 4), 16) + weight(
            reg_bit(bits, n + 3),
            8,
        ) + weight(reg_bit(bits, n + 2), 4) + weight(reg_bit(bits, n + 1), 2) + weight(
            reg_bit(bits, n as int),
            1,
        ),
{
    let n3 = (n + 3) as u64;
    lemma_window5(bits, n3);
    let n1 = (n + 1) as u64;
    let n2 = (n + 2) as u64;
    assert((bits >> n) & 0xff < 256) by (bit_vector);
    assert((bits >> n) & 0xff == 8 * ((bits >> n3) & 0x1f) + 4 * ((bits >> n2) & 1) + 2 * ((bits
        >> n1) & 1) + ((bits >> n) & 1)) by (bit_vector)
        requires
            n <= 16,
            n1 == n + 1,
            n2 == n + 2,
            n3 == n + 3,
    ;
    lemma_one_bit(bits, n);
    lemma_one_bit(bits, n1);
    lemma_one_bit(bits, n2);
}

/// The last bits of a stream, moved up to fill a group of five.
proof fn lemma_last_group(bits: u64, n: u64)
    requires
        1 <= n < 5,
    ensures
        (bits << ((5 - n) as u64)) & 0x1f < 32,
        forall|k: int|
            0 <= k < 5 ==> #[trigger] reg_bit(bits << ((5 - n) as u64), k) == (5 - n <= k
                && reg_bit(bits, k - (5 - n))),
{
    let up = (5 - n) as u64;
    let moved = bits << up;
    assert((bits << up) & 0x1f < 32) by (bit_vector);
    assert forall|k: int| 0 <= k < 5 implies #[trigger] reg_bit(moved, k) == (5 - n <= k
        && reg_bit(bits, k - (5 - n))) by {
        let kk = k as u64;
        if 5 - n <= k {
            let km = (k - (5 - n)) as u64;
            assert(((bits << up) >> kk) & 1 == (bits >> km) & 1) by (bit_vector)
                requires
                    up < 5,
                    up <= kk < 5,
                    km == kk - up,
            ;
        } else {
            assert(((bits << up) >> kk) & 1 == 0) by (bit_vector)
                requires
                    up < 5,
                    kk < up,
            ;
        }
    }
}

/// The low `n` bits of the register are the last `n` bits of `data` before bit `end`.
spec fn holds_data(data: Seq<u8>, bits: u64, n: int, end: int) -> bool {
    forall|k: int| 0 <= k < n ==> #[trigger] reg_bit(bits, k) == data_bit(data, end - 1 - k)
}

/// The low `n` bits of the register are the last `n` bits of `digits` before bit `end`.
spec fn holds_digits(digits: Seq<u8>, bits: u64, n: int, end: int) -> bool {
    forall|k: int| 0 <= k < n ==> #[trigger] reg_bit(bits, k) == digit_bit(digits, end - 1 - k)
}

fn symbol_of(v: u8) -> (c: char)
    requires
        v < 32,
    ensures
        c == symbol(v as int),
{
    match v {
        0 => '0',
        1 => '1',
        2 => '2',
        3 => '3',
        4 => '4',
        5 => '5',
        6 => '6',
        7 => '7',
        8 => '8',
        9 => '9',
        10 => 'A',
        11 => 'B',
        12 => 'C',
        13 => 'D',
        14 => 'E',
        15 => 'F',
        16 => 'G',
        17 => 'H',
        18 => 'J',
        19 => 'K',
        20 => 'M',
        21 => 'N',
        22 => 'P',
        23 => 'Q',
        24 => 'R',
        25 => 'S',
        26 => 'T',
        27 => 'V',
        28 => 'W',
        29 => 'X',
        30 => 'Y',
        _ => 'Z',
    }
}

/// Crockford Base32 of `data`.
pub fn base32_encode(data: &[u8]) -> (res: String)
    ensures
        res@ == encoded(data@),
{
    let mut result = String::new();
    let mut bits: u64 = 0;
    let mut n_bits: u32 = 0;
    let mut i: usize = 0;
    while i < data.len()
        invariant
            i <= data@.len(),
            n_bits < 5,
            5 * result@.len() + n_bits == 8 * i,
            holds_data(data@, bits, n_bits as int, 8 * i),
            forall|q: int|
                0 <= q < result@.len() ==> result@[q] == symbol(#[trigger] quintet(data@, q)),
        decreases data@.len() - i,
    {
        let byte = data[i];
        let ghost before = bits;
        bits = (bits << 8) | (byte as u64);
        n_bits = n_bits + 8;
        proof {
            assert forall|k: int| 0 <= k < n_bits implies #[trigger] reg_bit(bits, k) == data_bit(
                data@,
                8 * (i + 1) - 1 - k,
            ) by {
                lemma_push_byte(before, byte, k);
                if k < 8 {
                    assert((8 * (i + 1) - 1 - k) / 8 == i);
                    assert((8 * (i + 1) - 1 - k) % 8 == 7 - k);
                } else {
                    assert(reg_bit(before, k - 8) == data_bit(data@, 8 * i - 1 - (k - 8)));
                }
            }
        }
        while n_bits >= 5
            invariant
                i < data@.len(),
                n_bits < 13,
                5 * result@.len() + n_bits == 8 * (i + 1),
                holds_data(data@, bits, n_bits as int, 8 * (i + 1)),
                forall|q: int|
                    0 <= q < result@.len() ==> result@[q] == symbol(#[trigger] quintet(data@, q)),
            decreases n_bits,
        {
            n_bits = n_bits - 5;
            proof {
                lemma_window5(bits, n_bits as u64);
                let q = result@.len() as int;
                assert(reg_bit(bits, n_bits + 4) == data_bit(data@, 5 * q));
                assert(reg_bit(bits, n_bits + 3) == data_bit(data@, 5 * q + 1));
                assert(reg_bit(bits, n_bits + 2) == data_bit(data@, 5 * q + 2));
                assert(reg_bit(bits, n_bits + 1) == data_bit(data@, 5 * q + 3));
                assert(reg_bit(bits, n_bits as int) == data_bit(data@, 5 * q + 4));
            }
            let idx: u8 = ((bits >> (n_bits as u64)) & 0x1f) as u8;
            assert(idx == quintet(data@, result@.len() as int));
            result.push(symbol_of(idx));
        }
        i = i + 1;
    }
    if n_bits > 0 {
        let up: u64 = (5 - n_bits) as u64;
        let ghost q = result@.len() as int;
        proof {
            lemma_last_group(bits, n_bits as u64);
            let moved = bits << up;
            lemma_window5(moved, 0);
            assert(moved >> 0u64 == moved) by (bit_vector);
            assert(reg_bit(moved, 4) == data_bit(data@, 5 * q));
            assert(reg_bit(moved, 3) == data_bit(data@, 5 * q + 1));
            assert(reg_bit(moved, 2) == data_bit(data@, 5 * q + 2));
            assert(reg_bit(moved, 1) == data_bit(data@, 5 * q + 3));
            assert(reg_bit(moved, 0) == data_bit(data@, 5 * q + 4));
        }
        let idx: u8 = ((bits << up) & 0x1f) as u8;
        assert(idx == quintet(data@, q));
        result.push(symbol_of(idx));
    }
    assert(result@ =~= encoded(data@));
    result
}

fn value_of_char(c: char) -> (v: Option<u8>)
    ensures
        v == value_of(c),
{
    match c {
        '0' | 'O' | 'o' => Some(0),
        '1' | 'I' | 'i' | 'L' | 'l' => Some(1),
        '2' => Some(2),
        '3' => Some(3),
        '4' => Some(4),
        '5' => Some(5),
        '6' => Some(6),
        '7' => Some(7),
        '8' => Some(8),
        '9' => Some(9),
        'A' | 'a' => Some(10),
        'B' | 'b' => Some(11),
        'C' | 'c' => Some(12),
        'D' | 'd' => Some(13),
        'E' | 'e' => Some(14),
        'F' | 'f' => Some(15),
        'G' | 'g' => Some(16),
        'H' | 'h' => Some(17),
        'J' | 'j' => Some(18),
        'K' | 'k' => Some(19),
        'M' | 'm' => Some(20),
        'N' | 'n' => Some(21),
        'P' | 'p' => Some(22),
        'Q' | 'q' => Some(23),
        'R' | 'r' => Some(24),
        'S' | 's' => Some(25),
        'T' | 't' => Some(26),
        'V' | 'v' => Some(27),
        'W' | 'w' => Some(28),
        'X' | 'x' => Some(29),
        'Y' | 'y' => Some(30),
        'Z' | 'z' => Some(31),
        _ => None,
    }
}

proof fn lemma_first_invalid_at(s: Seq<char>, i: int)
    requires
        0 <= i < s.len(),
        forall|k: int| 0 <= k < i ==> value_of(#[trigger] s[k]) is Some,
        value_of(s[i]) is None,
    ensures
        first_invalid(s) == Some(s[i]),
    decreases i,
{
    if i > 0 {
        assert(value_of(s[0]) is Some);
        lemma_first_invalid_at(s.drop_first(), i - 1);
    }
}

proof fn lemma_no_invalid(s: Seq<char>)
    requires
        forall|k: int| 0 <= k < s.len() ==> value_of(#[trigger] s[k]) is Some,
    ensures
        first_invalid(s) is None,
    decreases s.len(),
{
    if s.len() > 0 {
        assert(value_of(s[0]) is Some);
        lemma_no_invalid(s.drop_first());
    }
}

fn without_dashes(input: &str) -> (res: Vec<char>)
    ensures
        res@ == undashed(input@),
{
    let chars = chars_of(input);
    let mut cleaned: Vec<char> = Vec::new();
    let mut i: usize = 0;
    let ghost keep = |c: char| c != '-';
    assert(chars@.take(0).filter(keep) =~= Seq::<char>::empty()) by {
        reveal(Seq::filter);
    }
    while i < chars.len()
        invariant
            i <= chars@.len(),
            chars@ == input@,
            keep == (|c: char| c != '-'),
            cleaned@ == chars@.take(i as int).filter(keep),
        decreases chars@.len() - i,
    {
        let c = chars[i];
        assert(chars@.take(i + 1).drop_last() =~= chars@.take(i as int));
        assert(chars@.take(i + 1).last() == c);
        reveal(Seq::filter);
        if c != '-' {
            cleaned.push(c);
        }
        i = i + 1;
    }
    assert(chars@.take(i as int) =~= chars@);
    cleaned
}

/// The bytes that a Crockford Base32 text stands for. Dashes are skipped.
pub fn base32_decode(input: &str) -> (res: Result<Vec<u8>, CodeError>)
    ensures
        match res {
            Ok(bytes) => decode_outcome(input@) == Ok::<Seq<u8>, CodeError>(bytes@),
            Err(e) => decode_outcome(input@) == Err::<Seq<u8>, CodeError>(e),
        },
{
    let cleaned = without_dashes(input);
    if cleaned.len() == 0 {
        return Err(CodeError::Empty);
    }
    let ghost digits = digits_of(cleaned@);
    let mut bits: u64 = 0;
    let mut n_bits: u32 = 0;
    let mut result: Vec<u8> = Vec::new();
    let mut i: usize = 0;
    while i < cleaned.len()
        invariant
            i <= cleaned@.len(),
            cleaned@ == undashed(input@),
            cleaned@.len() > 0,
            digits == digits_of(cleaned@),
            n_bits < 8,
            8 * result@.len() + n_bits == 5 * i,
            holds_digits(digits, bits, n_bits as int, 5 * i),
            forall|k: int| 0 <= k < i ==> value_of(#[trigger] cleaned@[k]) is Some,
            forall|j: int| 0 <= j < result@.len() ==> result@[j] == #[trigger] octet(digits, j),
        decreases cleaned@.len() - i,
    {
        let ch = cleaned[i];
        let val: u8 = match value_of_char(ch) {
            Some(v) => v,
            None => {
                proof {
                    lemma_first_invalid_at(cleaned@, i as int);
                }
                return Err(CodeError::InvalidCharacter(ch));
            },
        };
        assert(digits[i as int] == val);
        let ghost before = bits;
        bits = (bits << 5) | (val as u64);
        n_bits = n_bits + 5;
        proof {
            assert forall|k: int| 0 <= k < n_bits implies #[trigger] reg_bit(bits, k) == digit_bit(
                digits,
                5 * (i + 1) - 1 - k,
            ) by {
                lemma_push_digit(before, val, k);
                if k < 5 {
                    assert((5 * (i + 1) - 1 - k) / 5 == i);
                    assert((5 * (i + 1) - 1 - k) % 5 == 4 - k);
                } else {
                    assert(reg_bit(before, k - 5) == digit_bit(digits, 5 * i - 1 - (k - 5)));
                }
            }
        }
        if n_bits >= 8 {
            n_bits = n_bits - 8;
            proof {
                lemma_window8(bits, n_bits as u64);
                let j = result@.len() as int;
                assert(reg_bit(bits, n_bits + 7) == digit_bit(digits, 8 * j));
                assert(reg_bit(bits, n_bits + 6) == digit_bit(digits, 8 * j + 1));
                assert(reg_bit(bits, n_bits + 5) == digit_bit(digits, 8 * j + 2));
                assert(reg_bit(bits, n_bits + 4) == digit_bit(digits, 8 * j + 3));
                assert(reg_bit(bits, n_bits + 3) == digit_bit(digits, 8 * j + 4));
                assert(reg_bit(bits, n_bits + 2) == digit_bit(digits, 8 * j + 5));
                assert(reg_bit(bits, n_bits + 1) == digit_bit(digits, 8 * j + 6));
                assert(reg_bit(bits, n_bits as int) == digit_bit(digits, 8 * j + 7));
            }
            let byte: u8 = ((bits >> (n_bits as u64)) & 0xff) as u8;
            assert(byte == octet(digits, result@.len() as int));
            result.push(byte);
        }
        i = i + 1;
    }
    proof {
        lemma_no_invalid(cleaned@);
        assert(result@ =~= decoded(digits));
    }
    Ok(result)
}

/// `raw` with a dash after every five characters but the last.
pub open spec fn grouped(raw: Seq<char>) -> Seq<char> {
    if raw.len() == 0 {
        raw
    } else {
        Seq::new(
            (raw.len() + (raw.len() - 1) / 5) as nat,
            |p: int| if p % 6 == 5 { '-' } else { raw[p - p / 6] },
        )
    }
}

/// Groups the characters of `raw` by five, with dashes between the groups.
pub fn format_pairing_code(raw: &str) -> (res: String)
    ensures
        res@ == grouped(raw@),
{
    let chars = chars_of(raw);
    let mut acc = String::new();
    let mut i: usize = 0;
    while i < chars.len()
        invariant
            i <= chars@.len(),
            chars@ == raw@,
            acc@ == grouped(chars@.take(i as int)),
        decreases chars@.len() - i,
    {
        if i > 0 && i % 5 == 0 {
            acc.push('-');
        }
        acc.push(chars[i]);
        proof {
            lemma_grouped_push(chars@.take(i as int), chars@[i as int]);
            assert(chars@.take(i as int).push(chars@[i as int]) =~= chars@.take(i + 1));
        }
        i = i + 1;
    }
    assert(chars@.take(i as int) =~= chars@);
    acc
}

proof fn lemma_grouped_push(raw: Seq<char>, c: char)
    ensures
        grouped(raw.push(c)) == if raw.len() > 0 && raw.len() % 5 == 0 {
            grouped(raw).push('-').push(c)
        } else {
            grouped(raw).push(c)
        },
{
    let n = raw.len() as int;
    let more = grouped(raw.push(c));
    if n == 0 {
        assert(more =~= grouped(raw).push(c));
    } else if n % 5 == 0 {
        assert(more =~= grouped(raw).push('-').push(c));
    } else {
        assert(more =~= grouped(raw).push(c));
    }
}

proof fn lemma_symbol_value(v: int)
    requires
        0 <= v < 32,
    ensures
        value_of(symbol(v)) == Some(v as u8),
        symbol(v) != '-',
{
}

proof fn lemma_byte_of_bits(b: u8)
    ensures
        b == weight((b >> 7u8) & 1 == 1, 128) + weight((b >> 6u8) & 1 == 1, 64) + weight(
            (b >> 5u8) & 1 == 1,
            32,
        ) + weight((b >> 4u8) & 1 == 1, 16) + weight((b >> 3u8) & 1 == 1, 8) + weight(
            (b >> 2u8) & 1 == 1,
            4,
        ) + weight((b >> 1u8) & 1 == 1, 2) + weight((b >> 0u8) & 1 == 1, 1),
{
    assert(b == 128 * ((b >> 7u8) & 1) + 64 * ((b >> 6u8) & 1) + 32 * ((b >> 5u8) & 1) + 16 * ((b
        >> 4u8) & 1) + 8 * ((b >> 3u8) & 1) + 4 * ((b >> 2u8) & 1) + 2 * ((b >> 1u8) & 1) + ((b
        >> 0u8) & 1)) by (bit_vector);
    assert forall|k: u8| (#[trigger] (b >> k)) & 1 == 0 || (b >> k) & 1 == 1 by {
        assert((b >> k) & 1 == 0 || (b >> k) & 1 == 1) by (bit_vector);
    }
}

proof fn lemma_digit_of_bits(v: u8, b4: bool, b3: bool, b2: bool, b1: bool, b0: bool)
    requires
        v == weight(b4, 16) + weight(b3, 8) + weight(b2, 4) + weight(b1, 2) + weight(b0, 1),
    ensures
        ((v >> 4u8) & 1 == 1) == b4,
        ((v >> 3u8) & 1 == 1) == b3,
        ((v >> 2u8) & 1 == 1) == b2,
        ((v >> 1u8) & 1 == 1) == b1,
        ((v >> 0u8) & 1 == 1) == b0,
{
    let x4: u8 = if b4 { 1 } else { 0 };
    let x3: u8 = if b3 { 1 } else { 0 };
    let x2: u8 = if b2 { 1 } else { 0 };
    let x1: u8 = if b1 { 1 } else { 0 };
    let x0: u8 = if b0 { 1 } else { 0 };
    assert((v >> 4u8) & 1 == x4 && (v >> 3u8) & 1 == x3 && (v >> 2u8) & 1 == x2 && (v >> 1u8) & 1
        == x1 && (v >> 0u8) & 1 == x0) by (bit_vector)
        requires
            x4 <= 1,
            x3 <= 1,
            x2 <= 1,
            x1 <= 1,
            x0 <= 1,
            v == 16 * x4 + 8 * x3 + 4 * x2 + 2 * x1 + x0,
    ;
}

proof fn lemma_quintet_bit(data: Seq<u8>, i: int, k: int)
    requires
        0 <= i,
        0 <= k < 5,
    ensures
        0 <= quintet(data, i) < 32,
        (((quintet(data, i) as u8) >> ((4 - k) as u8)) & 1 == 1) == data_bit(data, 5 * i + k),
{
    lemma_digit_of_bits(
        quintet(data, i) as u8,
        data_bit(data, 5 * i),
        data_bit(data, 5 * i + 1),
        data_bit(data, 5 * i + 2),
        data_bit(data, 5 * i + 3),
        data_bit(data, 5 * i + 4),
    );
    assert(k == 0 || k == 1 || k == 2 || k == 3 || k == 4);
}

proof fn lemma_undashed_of_dashless(s: Seq<char>)
    requires
        forall|i: int| 0 <= i < s.len() ==> s[i] != '-',
    ensures
        undashed(s) == s,
    decreases s.len(),
{
    reveal(Seq::filter);
    if s.len() > 0 {
        lemma_undashed_of_dashless(s.drop_last());
        assert(s.drop_last().push(s.last()) =~= s);
    }
}

/// Decoding the code of some bytes gives the bytes back. The one exception is
/// no bytes at all, whose code is empty and is refused.
pub proof fn decode_undoes_encode(data: Seq<u8>)
    requires
        data.len() > 0,
    ensures
        decode_outcome(encoded(data)) == Ok::<Seq<u8>, CodeError>(data),
{
    let code = encoded(data);
    assert forall|i: int| 0 <= i < code.len() implies value_of(#[trigger] code[i]) == Some(
        quintet(data, i) as u8,
    ) && code[i] != '-' by {
        lemma_quintet_bit(data, i, 0);
        lemma_symbol_value(quintet(data, i));
    }
    lemma_undashed_of_dashless(code);
    lemma_no_invalid(code);
    let digits = digits_of(code);
    assert(5 * digits.len() / 8 == data.len());
    assert forall|p: int| 0 <= p < 8 * data.len() implies #[trigger] digit_bit(digits, p)
        == data_bit(data, p) by {
        assert(code[p / 5] == symbol(quintet(data, p / 5)));
        lemma_quintet_bit(data, p / 5, p % 5);
        assert(digits[p / 5] == quintet(data, p / 5) as u8);
    }
    assert forall|j: int| 0 <= j < data.len() implies octet(digits, j) == data[j] by {
        lemma_byte_of_bits(data[j]);
        assert forall|k: int| 0 <= k < 8 implies (#[trigger] (8 * j + k)) / 8 == j && (8 * j + k)
            % 8 == k by {}
        assert(digit_bit(digits, 8 * j + 0) == data_bit(data, 8 * j + 0));
        assert(digit_bit(digits, 8 * j + 1) == data_bit(data, 8 * j + 1));
        assert(digit_bit(digits, 8 * j + 2) == data_bit(data, 8 * j + 2));
        assert(digit_bit(digits, 8 * j + 3) == data_bit(data, 8 * j + 3));
        assert(digit_bit(digits, 8 * j + 4) == data_bit(data, 8 * j + 4));
        assert(digit_bit(digits, 8 * j + 5) == data_bit(data, 8 * j + 5));
        assert(digit_bit(digits, 8 * j + 6) == data_bit(data, 8 * j + 6));
        assert(digit_bit(digits, 8 * j + 7) == data_bit(data, 8 * j + 7));
    }
    assert(decoded(digits) =~= data);
}

/// The code of some bytes has no dashes of its own.
pub proof fn symbols_are_no_dashes(data: Seq<u8>, i: int)
    requires
        0 <= i < encoded(data).len(),
    ensures
        encoded(data)[i] != '-',
{
    lemma_quintet_bit(data, i, 0);
    lemma_symbol_value(quintet(data, i));
}

proof fn lemma_undashed_push(s: Seq<char>, c: char)
    ensures
        undashed(s.push(c)) == if c == '-' { undashed(s) } else { undashed(s).push(c) },
{
    reveal(Seq::filter);
    assert(s.push(c).drop_last() =~= s);
}

proof fn lemma_undashed_grouped(raw: Seq<char>)
    ensures
        undashed(grouped(raw)) == undashed(raw),
    decreases raw.len(),
{
    if raw.len() > 0 {
        let head = raw.drop_last();
        let c = raw.last();
        assert(head.push(c) =~= raw);
        lemma_undashed_grouped(head);
        lemma_grouped_push(head, c);
        lemma_undashed_push(grouped(head), '-');
        lemma_undashed_push(grouped(head).push('-'), c);
        lemma_undashed_push(grouped(head), c);
        lemma_undashed_push(head, c);
    }
}

/// Grouping a code changes nothing of what it decodes to.
pub proof fn grouping_keeps_the_code(raw: Seq<char>)
    ensures
        decode_outcome(grouped(raw)) == decode_outcome(raw),
{
    lemma_undashed_grouped(raw);
}

proof fn lemma_undashed_has_no_dash(s: Seq<char>)
    ensures
        forall|i: int| 0 <= i < undashed(s).len() ==> undashed(s)[i] != '-',
    decreases s.len(),
{
    reveal(Seq::filter);
    if s.len() > 0 {
        lemma_undashed_has_no_dash(s.drop_last());
    }
}

/// A code may be typed with dashes anywhere, or with none.
pub proof fn dashes_are_optional(s: Seq<char>)
    ensures
        decode_outcome(undashed(s)) == decode_outcome(s),
{
    lemma_undashed_has_no_dash(s);
    lemma_undashed_of_dashless(undashed(s));
}

/// `s` with its letters from `A` to `Z` in lower case.
pub open spec fn lowered(s: Seq<char>) -> Seq<char> {
    s.map_values(|c: char| lowered_char(c))
}

pub open spec fn lowered_char(c: char) -> char {
    if 'A' <= c <= 'Z' { (c as u32 + 32) as char } else { c }
}

proof fn lemma_lowered_undashed(s: Seq<char>)
    ensures
        undashed(lowered(s)) == lowered(undashed(s)),
    decreases s.len(),
{
    reveal(Seq::filter);
    if s.len() > 0 {
        let head = s.drop_last();
        let c = s.last();
        assert(head.push(c) =~= s);
        lemma_lowered_undashed(head);
        lemma_undashed_push(head, c);
        assert(lowered(s) =~= lowered(head).push(lowered_char(c)));
        lemma_undashed_push(lowered(head), lowered_char(c));
        assert(lowered(undashed(head).push(c)) =~= lowered(undashed(head)).push(lowered_char(c)));
    } else {
        assert(undashed(lowered(s)) =~= lowered(undashed(s)));
    }
}

proof fn lemma_all_valid(s: Seq<char>)
    requires
        first_invalid(s) is None,
    ensures
        forall|k: int| 0 <= k < s.len() ==> value_of(#[trigger] s[k]) is Some,
    decreases s.len(),
{
    if s.len() > 0 {
        lemma_all_valid(s.drop_first());
        assert forall|k: int| 0 <= k < s.len() implies value_of(#[trigger] s[k]) is Some by {
            if k > 0 {
                assert(s.drop_first()[k - 1] == s[k]);
            }
        }
    }
}

proof fn lemma_lowered_value(c: char)
    requires
        value_of(c) is Some,
    ensures
        value_of(lowered_char(c)) == value_of(c),
{
}

/// A code reads the same in upper and in lower case.
pub proof fn case_does_not_matter(s: Seq<char>)
    requires
        decode_outcome(s) is Ok,
    ensures
        decode_outcome(lowered(s)) == decode_outcome(s),
{
    lemma_lowered_undashed(s);
    let cleaned = undashed(s);
    let low = lowered(cleaned);
    lemma_all_valid(cleaned);
    assert forall|k: int| 0 <= k < low.len() implies value_of(#[trigger] low[k]) == value_of(
        cleaned[k],
    ) && value_of(low[k]) is Some by {
        lemma_lowered_value(cleaned[k]);
    }
    lemma_no_invalid(low);
    assert(digits_of(low) =~= digits_of(cleaned));
}

/// The byte `k` of `data`, or zero past its end.
pub open spec fn byte_or_zero(data: Seq<u8>, k: int) -> int {
    if 0 <= k < data.len() {
        data[k] as int
    } else {
        0
    }
}

/// How far five bits that start `off` bits after the start of two bytes are from
/// their end, as a factor.
pub open spec fn below_five_bits(off: int) -> int {
    seq![2048int, 1024, 512, 256, 128, 64, 32, 16][off]
}

proof fn lemma_bit_is_small(v: u8, k: u8)
    ensures
        (v >> k) & 1 == 0 || (v >> k) & 1 == 1,
{
    assert((v >> k) & 1 == 0 || (v >> k) & 1 == 1) by (bit_vector);
}

proof fn lemma_data_bit_value(data: Seq<u8>, p: int, w: int)
    requires
        0 <= p,
    ensures
        weight(data_bit(data, p), w) == w * (((byte_or_zero(data, p / 8) as u8) >> ((7 - p
            % 8) as u8)) & 1),
{
    let v = byte_or_zero(data, p / 8) as u8;
    let k = (7 - p % 8) as u8;
    lemma_bit_is_small(v, k);
    if p >= 8 * data.len() {
        assert(v == 0);
        assert((0u8 >> k) & 1 == 0) by (bit_vector);
    }
    let bit = (v >> k) & 1;
    assert(w * 0 == 0 && w * 1 == w);
}

proof fn lemma_five_bits(x: u8, y: u8, off: int)
    requires
        0 <= off < 8,
    ensures
        (256 * x + y) / below_five_bits(off) % 32 == five_bits(x, y, off),
{
    if off == 0 {
        assert((256 * x + y) / 2048 % 32 == 16 * ((x >> 7u8) & 1) + 8 * ((x >> 6u8) & 1) + 4 * ((x >> 5u8) & 1) + 2 * ((x >> 4u8) & 1) + ((x >> 3u8) & 1)) by (bit_vector);
    }
    if off == 1 {
        assert((256 * x + y) / 1024 % 32 == 16 * ((x >> 6u8) & 1) + 8 * ((x >> 5u8) & 1) + 4 * ((x >> 4u8) & 1) + 2 * ((x >> 3u8) & 1) + ((x >> 2u8) & 1)) by (bit_vector);
    }
    if off == 2 {
        assert((256 * x + y) / 512 % 32 == 16 * ((x >> 5u8) & 1) + 8 * ((x >> 4u8) & 1) + 4 * ((x >> 3u8) & 1) + 2 * ((x >> 2u8) & 1) + ((x >> 1u8) & 1)) by (bit_vector);
    }
    if off == 3 {
        assert((256 * x + y) / 256 % 32 == 16 * ((x >> 4u8) & 1) + 8 * ((x >> 3u8) & 1) + 4 * ((x >> 2u8) & 1) + 2 * ((x >> 1u8) & 1) + ((x >> 0u8) & 1)) by (bit_vector);
    }
    if off == 4 {
        assert((256 * x + y) / 128 % 32 == 16 * ((x >> 3u8) & 1) + 8 * ((x >> 2u8) & 1) + 4 * ((x >> 1u8) & 1) + 2 * ((x >> 0u8) & 1) + ((y >> 7u8) & 1)) by (bit_vector);
    }
    if off == 5 {
        assert((256 * x + y) / 64 % 32 == 16 * ((x >> 2u8) & 1) + 8 * ((x >> 1u8) & 1) + 4 * ((x >> 0u8) & 1) + 2 * ((y >> 7u8) & 1) + ((y >> 6u8) & 1)) by (bit_vector);
    }
    if off == 6 {
        assert((256 * x + y) / 32 % 32 == 16 * ((x >> 1u8) & 1) + 8 * ((x >> 0u8) & 1) + 4 * ((y >> 7u8) & 1) + 2 * ((y >> 6u8) & 1) + ((y >> 5u8) & 1)) by (bit_vector);
    }
    if off == 7 {
        assert((256 * x + y) / 16 % 32 == 16 * ((x >> 0u8) & 1) + 8 * ((y >> 7u8) & 1) + 4 * ((y >> 6u8) & 1) + 2 * ((y >> 5u8) & 1) + ((y >> 4u8) & 1)) by (bit_vector);
    }
}

/// The five bits that start `off` bits after the start of two bytes.
spec fn five_bits(x: u8, y: u8, off: int) -> int {
    if off == 0 {
        16 * ((x >> 7u8) & 1) + 8 * ((x >> 6u8) & 1) + 4 * ((x >> 5u8) & 1) + 2 * ((x >> 4u8) & 1) + ((x >> 3u8) & 1)
    } else if off == 1 {
        16 * ((x >> 6u8) & 1) + 8 * ((x >> 5u8) & 1) + 4 * ((x >> 4u8) & 1) + 2 * ((x >> 3u8) & 1) + ((x >> 2u8) & 1)
    } else if off == 2 {
        16 * ((x >> 5u8) & 1) + 8 * ((x >> 4u8) & 1) + 4 * ((x >> 3u8) & 1) + 2 * ((x >> 2u8) & 1) + ((x >> 1u8) & 1)
    } else if off == 3 {
        16 * ((x >> 4u8) & 1) + 8 * ((x >> 3u8) & 1) + 4 * ((x >> 2u8) & 1) + 2 * ((x >> 1u8) & 1) + ((x >> 0u8) & 1)
    } else if off == 4 {
        16 * ((x >> 3u8) & 1) + 8 * ((x >> 2u8) & 1) + 4 * ((x >> 1u8) & 1) + 2 * ((x >> 0u8) & 1) + ((y >> 7u8) & 1)
    } else if off == 5 {
        16 * ((x >> 2u8) & 1) + 8 * ((x >> 1u8) & 1) + 4 * ((x >> 0u8) & 1) + 2 * ((y >> 7u8) & 1) + ((y >> 6u8) & 1)
    } else if off == 6 {
        16 * ((x >> 1u8) & 1) + 8 * ((x >> 0u8) & 1) + 4 * ((y >> 7u8) & 1) + 2 * ((y >> 6u8) & 1) + ((y >> 5u8) & 1)
    } else if off == 7 {
        16 * ((x >> 0u8) & 1) + 8 * ((y >> 7u8) & 1) + 4 * ((y >> 6u8) & 1) + 2 * ((y >> 5u8) & 1) + ((y >> 4u8) & 1)
    } else {
        0
    }
}

proof fn lemma_quintet_value(data: Seq<u8>, i: int)
    requires
        0 <= i,
    ensures
        quintet(data, i) == (256 * byte_or_zero(data, 5 * i / 8) + byte_or_zero(
            data,
            5 * i / 8 + 1,
        )) / below_five_bits(5 * i % 8) % 32,
{
    let k = 5 * i / 8;
    let off = 5 * i % 8;
    let x = byte_or_zero(data, k) as u8;
    let y = byte_or_zero(data, k + 1) as u8;
    lemma_five_bits(x, y, off);
    lemma_data_bit_value(data, 5 * i, 16);
    lemma_data_bit_value(data, 5 * i + 1, 8);
    lemma_data_bit_value(data, 5 * i + 2, 4);
    lemma_data_bit_value(data, 5 * i + 3, 2);
    lemma_data_bit_value(data, 5 * i + 4, 1);
    assert forall|m: int| 0 <= m < 5 implies (#[trigger] (5 * i + m)) / 8 == (if off + m < 8 {
        k
    } else {
        k + 1
    }) && (5 * i + m) % 8 == (if off + m < 8 {
        off + m
    } else {
        off + m - 8
    }) by {}
    assert((5 * i + 0) / 8 == k);
    assert((5 * i + 1) % 8 == (if off + 1 < 8 { off + 1 } else { off - 7 }));
    assert((5 * i + 2) % 8 == (if off + 2 < 8 { off + 2 } else { off - 6 }));
    assert((5 * i + 3) % 8 == (if off + 3 < 8 { off + 3 } else { off - 5 }));
    assert((5 * i + 4) % 8 == (if off + 4 < 8 { off + 4 } else { off - 4 }));
}

/// The code of some bytes spells their bits, five to a symbol from the first on,
/// with zeros at the end; the symbols are those of Crockford's alphabet.
pub proof fn symbols_spell_the_bits(data: &[u8], res: String, i: int)
    requires
        call_ensures(base32_encode, (data,), res),
        0 <= i < res@.len(),
    ensures
        res@.len() == (8 * data@.len() + 4) / 5,
        res@[i] == "0123456789ABCDEFGHJKMNPQRSTVWXYZ"@[(256 * byte_or_zero(data@, 5 * i / 8)
            + byte_or_zero(data@, 5 * i / 8 + 1)) / below_five_bits(5 * i % 8) % 32],
{
    reveal_strlit("0123456789ABCDEFGHJKMNPQRSTVWXYZ");
    lemma_quintet_value(data@, i);
    lemma_quintet_bit(data@, i, 0);
}

/// Decoding the code of some bytes gives the bytes back, but for no bytes at all,
/// whose empty code is refused.
pub proof fn encoded_bytes_read_back(
    data: &[u8],
    code: String,
    typed: &str,
    res: Result<Vec<u8>, CodeError>,
)
    requires
        call_ensures(base32_encode, (data,), code),
        call_ensures(base32_decode, (typed,), res),
        typed@ == code@,
    ensures
        data@.len() > 0 ==> (res matches Ok(bytes) && bytes@ == data@),
        data@.len() == 0 ==> res == Err::<Vec<u8>, CodeError>(CodeError::Empty),
{
    if data@.len() > 0 {
        decode_undoes_encode(data@);
    } else {
        reveal(Seq::filter);
        assert(typed@ =~= Seq::<char>::empty());
    }
}

/// A digit, or a letter but for `U`, in either case: what stands for a value in a
/// code.
pub open spec fn may_be_typed(c: char) -> bool {
    ('0' <= c <= '9') || ('A' <= c <= 'Z' && c != 'U') || ('a' <= c <= 'z' && c != 'u')
}

proof fn lemma_may_be_typed(c: char)
    ensures
        may_be_typed(c) == (value_of(c) is Some),
{
}

proof fn lemma_undashed_members(s: Seq<char>)
    ensures
        forall|c: char| #[trigger] undashed(s).contains(c) == (c != '-' && s.contains(c)),
    decreases s.len(),
{
    reveal(Seq::filter);
    if s.len() > 0 {
        let head = s.drop_last();
        lemma_undashed_members(head);
        assert(head.push(s.last()) =~= s);
        lemma_undashed_push(head, s.last());
        assert forall|c: char| #[trigger] undashed(s).contains(c) == (c != '-' && s.contains(
            c,
        )) by {
            crate::text::lemma_contains_push(head, s.last(), c);
            crate::text::lemma_contains_push(undashed(head), s.last(), c);
            assert(undashed(head).contains(c) == (c != '-' && head.contains(c)));
        }
    } else {
        assert(undashed(s) =~= Seq::<char>::empty());
    }
}

proof fn lemma_first_invalid(s: Seq<char>)
    ensures
        first_invalid(s) is None ==> forall|i: int|
            0 <= i < s.len() ==> value_of(#[trigger] s[i]) is Some,
        first_invalid(s) matches Some(c) ==> value_of(c) is None && s.contains(c),
    decreases s.len(),
{
    if s.len() > 0 {
        if value_of(s[0]) is None {
            assert(s.contains(s[0]));
        } else {
            let rest = s.drop_first();
            lemma_first_invalid(rest);
            if let Some(c) = first_invalid(s) {
                let i = choose|i: int| 0 <= i < rest.len() && rest[i] == c;
                assert(s[i + 1] == c);
            } else {
                assert forall|i: int| 0 <= i < s.len() implies value_of(#[trigger] s[i]) is Some by {
                    if i > 0 {
                        assert(rest[i - 1] == s[i]);
                    }
                }
            }
        }
    }
}

/// A code is read exactly if it has something but dashes in it, and all of that
/// may be typed; else it is refused as empty, or for a character that may not.
pub proof fn only_sound_codes_are_read(typed: &str, res: Result<Vec<u8>, CodeError>)
    requires
        call_ensures(base32_decode, (typed,), res),
    ensures
        res is Ok == ((exists|i: int| 0 <= i < typed@.len() && #[trigger] typed@[i] != '-')
            && forall|i: int|
            0 <= i < typed@.len() && #[trigger] typed@[i] != '-' ==> may_be_typed(typed@[i])),
        res matches Err(CodeError::Empty) ==> forall|i: int|
            0 <= i < typed@.len() ==> #[trigger] typed@[i] == '-',
        res matches Err(CodeError::InvalidCharacter(c)) ==> typed@.contains(c) && c != '-'
            && !may_be_typed(c),
        !(res matches Err(CodeError::WrongLength(_))),
{
    let s = typed@;
    let cleaned = undashed(s);
    lemma_undashed_members(s);
    lemma_first_invalid(cleaned);
    if cleaned.len() > 0 {
        assert(cleaned.contains(cleaned[0]));
        let i = choose|i: int| 0 <= i < s.len() && s[i] == cleaned[0];
        assert(s[i] != '-');
    }
    assert forall|i: int| 0 <= i < s.len() && #[trigger] s[i] != '-' implies cleaned.contains(
        s[i],
    ) by {
        assert(s.contains(s[i]));
    }
    if exists|i: int| 0 <= i < s.len() && #[trigger] s[i] != '-' {
        let i = choose|i: int| 0 <= i < s.len() && #[trigger] s[i] != '-';
        assert(cleaned.contains(s[i]));
    }
    match first_invalid(cleaned) {
        Some(c) => {
            lemma_may_be_typed(c);
            assert(cleaned.contains(c));
            assert(s.contains(c));
            let i = choose|i: int| 0 <= i < s.len() && s[i] == c;
            assert(s[i] == c && s[i] != '-');
        },
        None => {
            assert forall|i: int| 0 <= i < s.len() && #[trigger] s[i] != '-' implies may_be_typed(
                s[i],
            ) by {
                assert(cleaned.contains(s[i]));
                let k = choose|k: int| 0 <= k < cleaned.len() && cleaned[k] == s[i];
                assert(value_of(cleaned[k]) is Some);
                lemma_may_be_typed(s[i]);
            }
        },
    }
}

/// Two characters that are read as one: the same letter in either case, a nought
/// and an `O`, a one, an `I` and an `L`.
pub open spec fn look_alike(a: char, b: char) -> bool {
    ||| a == b
    ||| 'A' <= a <= 'Z' && b as int == a as int + 32
    ||| 'A' <= b <= 'Z' && a as int == b as int + 32
    ||| a == '0' && (b == 'O' || b == 'o')
    ||| a == '1' && (b == 'I' || b == 'i' || b == 'L' || b == 'l')
}

proof fn lemma_look_alike(a: char, b: char)
    requires
        look_alike(a, b),
    ensures
        value_of(a) == value_of(b),
        a == '-' <==> b == '-',
{
}

proof fn lemma_alike_digits(s: Seq<char>, t: Seq<char>)
    requires
        s.len() == t.len(),
        forall|i: int| 0 <= i < s.len() ==> look_alike(#[trigger] s[i], t[i]),
    ensures
        undashed(s).len() == undashed(t).len(),
        forall|i: int|
            0 <= i < undashed(s).len() ==> value_of(#[trigger] undashed(s)[i]) == value_of(
                undashed(t)[i],
            ),
    decreases s.len(),
{
    reveal(Seq::filter);
    if s.len() > 0 {
        let a = s.drop_last();
        let b = t.drop_last();
        assert forall|i: int| 0 <= i < a.len() implies look_alike(#[trigger] a[i], b[i]) by {
            assert(s[i] == a[i] && t[i] == b[i]);
        }
        lemma_alike_digits(a, b);
        assert(look_alike(s[s.len() - 1], t[s.len() - 1]));
        lemma_look_alike(s.last(), t.last());
        assert(a.push(s.last()) =~= s && b.push(t.last()) =~= t);
        lemma_undashed_push(a, s.last());
        lemma_undashed_push(b, t.last());
        assert forall|i: int| 0 <= i < undashed(s).len() implies value_of(#[trigger] undashed(s)[i])
            == value_of(undashed(t)[i]) by {
            if i < undashed(a).len() {
                assert(undashed(s)[i] == undashed(a)[i]);
                assert(undashed(t)[i] == undashed(b)[i]);
            }
        }
    }
}

/// A code reads the same whichever of the characters that look alike are typed.
pub proof fn lookalikes_read_alike(
    one: &str,
    other: &str,
    res: Result<Vec<u8>, CodeError>,
    same: Result<Vec<u8>, CodeError>,
)
    requires
        call_ensures(base32_decode, (one,), res),
        call_ensures(base32_decode, (other,), same),
        one@.len() == other@.len(),
        forall|i: int| 0 <= i < one@.len() ==> look_alike(#[trigger] one@[i], other@[i]),
        res is Ok,
    ensures
        same is Ok,
        same->Ok_0@ == res->Ok_0@,
{
    lemma_alike_digits(one@, other@);
    let a = undashed(one@);
    let b = undashed(other@);
    lemma_all_valid(a);
    assert forall|k: int| 0 <= k < b.len() implies value_of(#[trigger] b[k]) is Some by {
        assert(value_of(a[k]) == value_of(b[k]));
    }
    lemma_no_invalid(b);
    assert(digits_of(a) =~= digits_of(b)) by {
        assert forall|k: int| 0 <= k < a.len() implies #[trigger] digits_of(a)[k]
            == digits_of(b)[k] by {
            assert(value_of(a[k]) == value_of(b[k]));
        }
    }
}

/// Dashes do not matter, wherever they are.
pub proof fn dashes_do_not_matter(
    one: &str,
    other: &str,
    res: Result<Vec<u8>, CodeError>,
    same: Result<Vec<u8>, CodeError>,
)
    requires
        call_ensures(base32_decode, (one,), res),
        call_ensures(base32_decode, (other,), same),
        one@.filter(|c: char| c != '-') == other@.filter(|c: char| c != '-'),
    ensures
        res is Ok == same is Ok,
        res is Ok ==> res->Ok_0@ == same->Ok_0@,
        res is Err ==> res->Err_0 == same->Err_0,
{
    assert(undashed(one@) == undashed(other@));
}

/// The code is shown in groups of five with dashes between them.
pub proof fn groups_have_five(raw: &str, res: String, i: int)
    requires
        call_ensures(format_pairing_code, (raw,), res),
        0 <= i < raw@.len(),
    ensures
        res@.len() == raw@.len() + (raw@.len() - 1) / 5,
        res@[i + i / 5] == raw@[i],
        i % 5 == 4 && i + 1 < raw@.len() ==> res@[i + i / 5 + 1] == '-',
{
    let p = i + i / 5;
    assert(p % 6 == i % 5 && p / 6 == i / 5);
    assert(p < res@.len());
    if i % 5 == 4 && i + 1 < raw@.len() {
        assert((p + 1) % 6 == 5);
        assert(p + 1 < res@.len());
    }
}

/// How far eight bits that start `off` bits after the start of three symbols are
/// from their end, as a factor.
pub open spec fn below_eight_bits(off: int) -> int {
    seq![128int, 64, 32, 16, 8][off]
}

/// The item `k`, or zero past the end.
pub open spec fn item_or_zero(digits: Seq<int>, k: int) -> int {
    if 0 <= k < digits.len() {
        digits[k]
    } else {
        0
    }
}

/// The eight bits that start `off` bits after the start of three symbols.
spec fn eight_bits(a: u8, b: u8, c: u8, off: int) -> int {
    if off == 0 {
        128 * ((a >> 4u8) & 1) + 64 * ((a >> 3u8) & 1) + 32 * ((a >> 2u8) & 1) + 16 * ((a >> 1u8) & 1) + 8 * ((a >> 0u8) & 1) + 4 * ((b >> 4u8) & 1) + 2 * ((b >> 3u8) & 1) + ((b >> 2u8) & 1)
    } else if off == 1 {
        128 * ((a >> 3u8) & 1) + 64 * ((a >> 2u8) & 1) + 32 * ((a >> 1u8) & 1) + 16 * ((a >> 0u8) & 1) + 8 * ((b >> 4u8) & 1) + 4 * ((b >> 3u8) & 1) + 2 * ((b >> 2u8) & 1) + ((b >> 1u8) & 1)
    } else if off == 2 {
        128 * ((a >> 2u8) & 1) + 64 * ((a >> 1u8) & 1) + 32 * ((a >> 0u8) & 1) + 16 * ((b >> 4u8) & 1) + 8 * ((b >> 3u8) & 1) + 4 * ((b >> 2u8) & 1) + 2 * ((b >> 1u8) & 1) + ((b >> 0u8) & 1)
    } else if off == 3 {
        128 * ((a >> 1u8) & 1) + 64 * ((a >> 0u8) & 1) + 32 * ((b >> 4u8) & 1) + 16 * ((b >> 3u8) & 1) + 8 * ((b >> 2u8) & 1) + 4 * ((b >> 1u8) & 1) + 2 * ((b >> 0u8) & 1) + ((c >> 4u8) & 1)
    } else if off == 4 {
        128 * ((a >> 0u8) & 1) + 64 * ((b >> 4u8) & 1) + 32 * ((b >> 3u8) & 1) + 16 * ((b >> 2u8) & 1) + 8 * ((b >> 1u8) & 1) + 4 * ((b >> 0u8) & 1) + 2 * ((c >> 4u8) & 1) + ((c >> 3u8) & 1)
    } else {
        0
    }
}

proof fn lemma_eight_bits(a: u8, b: u8, c: u8, off: int)
    requires
        0 <= off < 5,
        a < 32,
        b < 32,
        c < 32,
    ensures
        (1024 * a + 32 * b + c) / below_eight_bits(off) % 256 == eight_bits(a, b, c, off),
{
    if off == 0 {
        assert((1024 * a + 32 * b + c) / 128 % 256 == 128 * ((a >> 4u8) & 1) + 64 * ((a >> 3u8) & 1) + 32 * ((a >> 2u8) & 1) + 16 * ((a >> 1u8) & 1) + 8 * ((a >> 0u8) & 1) + 4 * ((b >> 4u8) & 1) + 2 * ((b >> 3u8) & 1) + ((b >> 2u8) & 1)) by (bit_vector)
            requires
                a < 32,
                b < 32,
                c < 32,
        ;
    }
    if off == 1 {
        assert((1024 * a + 32 * b + c) / 64 % 256 == 128 * ((a >> 3u8) & 1) + 64 * ((a >> 2u8) & 1) + 32 * ((a >> 1u8) & 1) + 16 * ((a >> 0u8) & 1) + 8 * ((b >> 4u8) & 1) + 4 * ((b >> 3u8) & 1) + 2 * ((b >> 2u8) & 1) + ((b >> 1u8) & 1)) by (bit_vector)
            requires
                a < 32,
                b < 32,
                c < 32,
        ;
    }
    if off == 2 {
        assert((1024 * a + 32 * b + c) / 32 % 256 == 128 * ((a >> 2u8) & 1) + 64 * ((a >> 1u8) & 1) + 32 * ((a >> 0u8) & 1) + 16 * ((b >> 4u8) & 1) + 8 * ((b >> 3u8) & 1) + 4 * ((b >> 2u8) & 1) + 2 * ((b >> 1u8) & 1) + ((b >> 0u8) & 1)) by (bit_vector)
            requires
                a < 32,
                b < 32,
                c < 32,
        ;
    }
    if off == 3 {
        assert((1024 * a + 32 * b + c) / 16 % 256 == 128 * ((a >> 1u8) & 1) + 64 * ((a >> 0u8) & 1) + 32 * ((b >> 4u8) & 1) + 16 * ((b >> 3u8) & 1) + 8 * ((b >> 2u8) & 1) + 4 * ((b >> 1u8) & 1) + 2 * ((b >> 0u8) & 1) + ((c >> 4u8) & 1)) by (bit_vector)
            requires
                a < 32,
                b < 32,
                c < 32,
        ;
    }
    if off == 4 {
        assert((1024 * a + 32 * b + c) / 8 % 256 == 128 * ((a >> 0u8) & 1) + 64 * ((b >> 4u8) & 1) + 32 * ((b >> 3u8) & 1) + 16 * ((b >> 2u8) & 1) + 8 * ((b >> 1u8) & 1) + 4 * ((b >> 0u8) & 1) + 2 * ((c >> 4u8) & 1) + ((c >> 3u8) & 1)) by (bit_vector)
            requires
                a < 32,
                b < 32,
                c < 32,
        ;
    }
}

proof fn lemma_digit_bit_value(digits: Seq<u8>, values: Seq<int>, p: int, w: int)
    requires
        0 <= p,
        digits.len() == values.len(),
        forall|k: int| 0 <= k < values.len() ==> #[trigger] digits[k] == values[k],
    ensures
        weight(digit_bit(digits, p), w) == w * (((item_or_zero(values, p / 5) as u8) >> ((4 - p
            % 5) as u8)) & 1),
{
    let v = item_or_zero(values, p / 5) as u8;
    let k = (4 - p % 5) as u8;
    lemma_bit_is_small(v, k);
    if p >= 5 * digits.len() {
        assert(v == 0);
        assert((0u8 >> k) & 1 == 0) by (bit_vector);
    } else {
        assert(digits[p / 5] == values[p / 5]);
    }
    assert(w * 0 == 0 && w * 1 == w);
}

proof fn lemma_octet_value(digits: Seq<u8>, values: Seq<int>, j: int)
    requires
        0 <= j,
        digits.len() == values.len(),
        forall|k: int|
            0 <= k < values.len() ==> #[trigger] digits[k] == values[k] && values[k] < 32,
    ensures
        octet(digits, j) == (1024 * item_or_zero(values, 8 * j / 5) + 32 * item_or_zero(
            values,
            8 * j / 5 + 1,
        ) + item_or_zero(values, 8 * j / 5 + 2)) / below_eight_bits(8 * j % 5) % 256,
{
    let d = 8 * j / 5;
    let off = 8 * j % 5;
    assert forall|k: int| 0 <= k < values.len() implies 0 <= #[trigger] values[k] < 32 by {
        assert(digits[k] == values[k]);
    }
    let a = item_or_zero(values, d) as u8;
    let b = item_or_zero(values, d + 1) as u8;
    let c = item_or_zero(values, d + 2) as u8;
    lemma_eight_bits(a, b, c, off);
    lemma_digit_bit_value(digits, values, 8 * j, 128);
    lemma_digit_bit_value(digits, values, 8 * j + 1, 64);
    lemma_digit_bit_value(digits, values, 8 * j + 2, 32);
    lemma_digit_bit_value(digits, values, 8 * j + 3, 16);
    lemma_digit_bit_value(digits, values, 8 * j + 4, 8);
    lemma_digit_bit_value(digits, values, 8 * j + 5, 4);
    lemma_digit_bit_value(digits, values, 8 * j + 6, 2);
    lemma_digit_bit_value(digits, values, 8 * j + 7, 1);
    assert((8 * j + 0) / 5 == d + (off + 0) / 5 && (8 * j + 0) % 5 == (off + 0) % 5);
    assert((8 * j + 1) / 5 == d + (off + 1) / 5 && (8 * j + 1) % 5 == (off + 1) % 5);
    assert((8 * j + 2) / 5 == d + (off + 2) / 5 && (8 * j + 2) % 5 == (off + 2) % 5);
    assert((8 * j + 3) / 5 == d + (off + 3) / 5 && (8 * j + 3) % 5 == (off + 3) % 5);
    assert((8 * j + 4) / 5 == d + (off + 4) / 5 && (8 * j + 4) % 5 == (off + 4) % 5);
    assert((8 * j + 5) / 5 == d + (off + 5) / 5 && (8 * j + 5) % 5 == (off + 5) % 5);
    assert((8 * j + 6) / 5 == d + (off + 6) / 5 && (8 * j + 6) % 5 == (off + 6) % 5);
    assert((8 * j + 7) / 5 == d + (off + 7) / 5 && (8 * j + 7) % 5 == (off + 7) % 5);
}

/// The bytes that a code gives are those whose bits its symbols spell, five bits
/// to a symbol; bits left over at the end are dropped. `values` are the places of
/// the symbols in Crockford's alphabet.
pub proof fn bytes_spell_the_symbols(
    typed: &str,
    bytes: Vec<u8>,
    values: Seq<int>,
    j: int,
)
    requires
        call_ensures(base32_decode, (typed,), Ok(bytes)),
        values.len() == typed@.filter(|c: char| c != '-').len(),
        forall|k: int|
            0 <= k < values.len() ==> 0 <= #[trigger] values[k] < 32 && look_alike(
                "0123456789ABCDEFGHJKMNPQRSTVWXYZ"@[values[k]],
                typed@.filter(|c: char| c != '-')[k],
            ),
        0 <= j < bytes@.len(),
    ensures
        bytes@.len() == 5 * values.len() / 8,
        bytes@[j] == (1024 * item_or_zero(values, 8 * j / 5) + 32 * item_or_zero(
            values,
            8 * j / 5 + 1,
        ) + item_or_zero(values, 8 * j / 5 + 2)) / below_eight_bits(8 * j % 5) % 256,
{
    reveal_strlit("0123456789ABCDEFGHJKMNPQRSTVWXYZ");
    let cleaned = undashed(typed@);
    assert(cleaned == typed@.filter(|c: char| c != '-'));
    let digits = digits_of(cleaned);
    assert forall|k: int| 0 <= k < values.len() implies #[trigger] digits[k] == values[k]
        && values[k] < 32 by {
        let s = "0123456789ABCDEFGHJKMNPQRSTVWXYZ"@[values[k]];
        assert(0 <= values[k] < 32);
        lemma_look_alike(s, cleaned[k]);
        lemma_symbol_value(values[k]);
        assert(s == symbol(values[k]));
    }
    lemma_octet_value(digits, values, j);
}

proof fn lemma_first_typed(s: Seq<char>)
    ensures
        first_invalid(undashed(s)) matches Some(c) ==> exists|i: int|
            0 <= i < s.len() && #[trigger] s[i] == c && c != '-' && forall|m: int|
                0 <= m < i ==> #[trigger] s[m] == '-' || value_of(s[m]) is Some,
    decreases s.len(),
{
    if s.len() > 0 {
        let rest = s.drop_first();
        let dashless = |c: char| c != '-';
        assert(s =~= seq![s[0]] + rest);
        Seq::filter_distributes_over_add(seq![s[0]], rest, dashless);
        lemma_first_typed(rest);
        lemma_undashed_push(Seq::<char>::empty(), s[0]);
        assert(Seq::<char>::empty().push(s[0]) =~= seq![s[0]]);
        reveal(Seq::filter);
        assert(undashed(Seq::<char>::empty()) =~= Seq::<char>::empty());
        if s[0] == '-' {
            assert(undashed(s) =~= undashed(rest));
        } else {
            assert(undashed(s) =~= seq![s[0]] + undashed(rest));
            assert(undashed(s).drop_first() =~= undashed(rest));
        }
        if let Some(c) = first_invalid(undashed(s)) {
            if s[0] != '-' && value_of(s[0]) is None {
                assert(s[0] == c);
            } else {
                let i = choose|i: int|
                    0 <= i < rest.len() && #[trigger] rest[i] == c && c != '-' && forall|m: int|
                        0 <= m < i ==> #[trigger] rest[m] == '-' || value_of(rest[m]) is Some;
                assert(s[i + 1] == c);
                assert forall|m: int| 0 <= m < i + 1 implies #[trigger] s[m] == '-' || value_of(
                    s[m],
                ) is Some by {
                    if m > 0 {
                        assert(rest[m - 1] == s[m]);
                    }
                }
            }
        }
    }
}

/// The character that is named is the first that may not be typed.
pub proof fn the_first_wrong_character_is_named(typed: &str, c: char)
    requires
        call_ensures(
            base32_decode,
            (typed,),
            Err::<Vec<u8>, CodeError>(CodeError::InvalidCharacter(c)),
        ),
    ensures
        exists|i: int|
            0 <= i < typed@.len() && #[trigger] typed@[i] == c && c != '-' && !may_be_typed(c)
                && forall|m: int|
                0 <= m < i ==> #[trigger] typed@[m] == '-' || may_be_typed(typed@[m]),
{
    lemma_first_typed(typed@);
    lemma_first_invalid(undashed(typed@));
    lemma_may_be_typed(c);
    let i = choose|i: int|
        0 <= i < typed@.len() && #[trigger] typed@[i] == c && c != '-' && forall|m: int|
            0 <= m < i ==> #[trigger] typed@[m] == '-' || value_of(typed@[m]) is Some;
    assert forall|m: int| 0 <= m < i implies #[trigger] typed@[m] == '-' || may_be_typed(
        typed@[m],
    ) by {
        lemma_may_be_typed(typed@[m]);
    }
}

} // verus!
