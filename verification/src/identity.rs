//! What names a node: a random UUID.

use vstd::prelude::*;

verus! {

/// The identifier of a node.
#[derive(Debug, Clone, Copy)]
pub struct NodeId {
    pub bytes: [u8; 16],
}

impl View for NodeId {
    type V = Seq<u8>;

    open spec fn view(&self) -> Seq<u8> {
        self.bytes@
    }
}

/// The character of a hexadecimal digit, in lower case.
pub open spec fn hex_digit(d: int) -> char {
    seq!['0', '1', '2', '3', '4', '5', '6', '7', '8', '9', 'a', 'b', 'c', 'd', 'e', 'f'][d]
}

/// The bytes in hexadecimal notation, two digits each.
pub open spec fn hex(bytes: Seq<u8>) -> Seq<char> {
    Seq::new(
        2 * bytes.len(),
        |i: int|
            hex_digit(
                if i % 2 == 0 {
                    bytes[i / 2] as int / 16
                } else {
                    bytes[i / 2] as int % 16
                },
            ),
    )
}

/// The notation of an identifier: its bytes in groups of four, two, two, two
/// and six, with dashes between them.
pub open spec fn id_text(bytes: Seq<u8>) -> Seq<char> {
    hex(bytes.subrange(0, 4)) + seq!['-'] + hex(bytes.subrange(4, 6)) + seq!['-'] + hex(
        bytes.subrange(6, 8),
    ) + seq!['-'] + hex(bytes.subrange(8, 10)) + seq!['-'] + hex(bytes.subrange(10, 16))
}

/// The bits of a UUID that say that it is random: version 4, variant 1.
pub open spec fn is_random_id(bytes: Seq<u8>) -> bool {
    &&& bytes.len() == 16
    &&& bytes[6] & 0xf0 == 0x40
    &&& bytes[8] & 0xc0 == 0x80
}

impl NodeId {
    /// A new random identifier.
    pub fn new_v4() -> (res: NodeId)
        ensures
            is_random_id(res@),
    {
        NodeId { bytes: uuid_new_v4() }
    }

    /// The identifier in its usual notation.
    pub fn text(&self) -> (res: String)
        ensures
            res@ == id_text(self@),
    {
        uuid_text(self.bytes)
    }
}

/// `uuid::Uuid::new_v4`: random bytes, but for the bits of the version and of
/// the variant.
#[verifier::external_body]
fn uuid_new_v4() -> (res: [u8; 16])
    ensures
        is_random_id(res@),
{
    *uuid::Uuid::new_v4().as_bytes()
}

/// `uuid::Uuid` as text: the hyphenated notation in lower case.
#[verifier::external_body]
fn uuid_text(bytes: [u8; 16]) -> (res: String)
    ensures
        res@ == id_text(bytes@),
{
    uuid::Uuid::from_bytes(bytes).to_string()
}

/// The value of a hexadecimal digit in lower case.
pub open spec fn hex_value(c: char) -> int {
    if '0' <= c <= '9' {
        c as int - '0' as int
    } else {
        c as int - 'a' as int + 10
    }
}

/// An identifier is written with two digits for each byte, the upper half first,
/// and with dashes behind the fourth, sixth, eighth and tenth byte.
pub proof fn identifiers_spell_their_bytes(id: &NodeId, res: String, k: int)
    requires
        call_ensures(NodeId::text, (id,), res),
        0 <= k < 16,
    ensures
        res@.len() == 36,
        res@[8] == '-' && res@[13] == '-' && res@[18] == '-' && res@[23] == '-',
        ({
            let at = 2 * k + if k < 4 {
                0int
            } else if k < 6 {
                1
            } else if k < 8 {
                2
            } else if k < 10 {
                3
            } else {
                4
            };
            id.bytes@[k] == 16 * hex_value(res@[at]) + hex_value(res@[at + 1])
        }),
{
    let b = id.bytes@;
    let x = b[k] as int;
    assert(x / 16 < 16 && x % 16 < 16);
    assert(forall|d: int| 0 <= d < 16 ==> hex_value(#[trigger] hex_digit(d)) == d);
    let p = hex(b.subrange(0, 4));
    let q = hex(b.subrange(4, 6));
    let r = hex(b.subrange(6, 8));
    let s = hex(b.subrange(8, 10));
    let t = hex(b.subrange(10, 16));
    assert(p.len() == 8 && q.len() == 4 && r.len() == 4 && s.len() == 4 && t.len() == 12);
    let (start, group): (int, Seq<u8>) = if k < 4 {
        (0, b.subrange(0, 4))
    } else if k < 6 {
        (4, b.subrange(4, 6))
    } else if k < 8 {
        (6, b.subrange(6, 8))
    } else if k < 10 {
        (8, b.subrange(8, 10))
    } else {
        (10, b.subrange(10, 16))
    };
    let i = 2 * (k - start);
    assert(i / 2 == k - start && (i + 1) / 2 == k - start && i % 2 == 0 && (i + 1) % 2 == 1);
    assert(group[k - start] == b[k]);
    assert(hex(group)[i] == hex_digit(x / 16));
    assert(hex(group)[i + 1] == hex_digit(x % 16));
}

} // verus!
