//! The bytes of the values that messages are made of.
//!
//! Numbers are little-endian and of fixed width. A text is its length in bytes,
//! as a 64-bit number, and its UTF-8 bytes; an optional text is a byte 0, or a
//! byte 1 and the text. An identifier is its length and its bytes. Digests and
//! tokens are their bytes alone. A point in time is its text.

use vstd::prelude::*;

use crate::clock;
use crate::clock::Timestamp;
use crate::digest::Digest;
use crate::identity::NodeId;
use crate::text;
use vstd::slice::slice_subrange;
use vstd::utf8;

verus! {

broadcast use vstd::string::group_string_axioms;

/// Why a value could not be written or read.
#[derive(Debug, Clone, Copy, PartialEq, Eq, Structural)]
pub enum WireError {
    /// The bytes are none of the value: they end too early, or break its format.
    Malformed,
}

/// The number `n` in `width` bytes, the lowest first.
pub open spec fn le_bytes(n: nat, width: nat) -> Seq<u8>
    decreases width,
{
    if width == 0 {
        Seq::empty()
    } else {
        seq![(n % 256) as u8] + le_bytes(n / 256, (width - 1) as nat)
    }
}

/// The number in some bytes, the lowest first.
pub open spec fn le_value(b: Seq<u8>) -> nat
    decreases b.len(),
{
    if b.len() == 0 {
        0
    } else {
        b[0] as nat + 256 * le_value(b.drop_first())
    }
}

/// `n` fits in `width` bytes.
pub open spec fn fits(n: nat, width: nat) -> bool
    decreases width,
{
    if width == 0 {
        n == 0
    } else {
        fits(n / 256, (width - 1) as nat)
    }
}

pub proof fn lemma_le_bytes(n: nat, width: nat)
    ensures
        le_bytes(n, width).len() == width,
        fits(n, width) ==> le_value(le_bytes(n, width)) == n,
    decreases width,
{
    if width > 0 {
        lemma_le_bytes(n / 256, (width - 1) as nat);
        assert(le_bytes(n, width).drop_first() =~= le_bytes(n / 256, (width - 1) as nat));
    }
}

pub proof fn lemma_fits_u32(n: u32)
    ensures
        fits(n as nat, 4),
{
    reveal_with_fuel(fits, 5);
}

pub proof fn lemma_fits_u64(n: u64)
    ensures
        fits(n as nat, 8),
{
    reveal_with_fuel(fits, 9);
}

pub open spec fn bool_bytes(v: bool) -> Seq<u8> {
    if v {
        seq![1u8]
    } else {
        seq![0u8]
    }
}

pub open spec fn blob_bytes(v: Seq<u8>) -> Seq<u8> {
    le_bytes(v.len(), 8) + v
}

pub open spec fn text_bytes(v: Seq<char>) -> Seq<u8> {
    blob_bytes(utf8::encode_utf8(v))
}

pub open spec fn option_bytes(v: Option<Seq<char>>) -> Seq<u8> {
    match v {
        None => seq![0u8],
        Some(t) => seq![1u8] + text_bytes(t),
    }
}

pub open spec fn time_bytes(v: (int, int)) -> Seq<u8> {
    text_bytes(clock::time_text(v.0, v.1))
}

/// A number at the start of `b`, and what follows it.
pub open spec fn take_number(b: Seq<u8>, width: nat) -> Option<(nat, Seq<u8>)> {
    if b.len() < width {
        None
    } else {
        Some((le_value(b.take(width as int)), b.skip(width as int)))
    }
}

pub open spec fn take_u32(b: Seq<u8>) -> Option<(u32, Seq<u8>)> {
    match take_number(b, 4) {
        None => None,
        Some((n, b)) => Some((n as u32, b)),
    }
}

pub open spec fn take_u64(b: Seq<u8>) -> Option<(u64, Seq<u8>)> {
    match take_number(b, 8) {
        None => None,
        Some((n, b)) => Some((n as u64, b)),
    }
}

pub open spec fn take_bool(b: Seq<u8>) -> Option<(bool, Seq<u8>)> {
    if b.len() == 0 || b[0] > 1 {
        None
    } else {
        Some((b[0] == 1, b.skip(1)))
    }
}

/// The `n` bytes at the start of `b`, and what follows them.
pub open spec fn take_raw(b: Seq<u8>, n: nat) -> Option<(Seq<u8>, Seq<u8>)> {
    if b.len() < n {
        None
    } else {
        Some((b.take(n as int), b.skip(n as int)))
    }
}

/// A length and as many bytes at the start of `b`, and what follows them.
pub open spec fn take_blob(b: Seq<u8>) -> Option<(Seq<u8>, Seq<u8>)> {
    match take_number(b, 8) {
        None => None,
        Some((n, b)) => take_raw(b, n),
    }
}

pub open spec fn take_id(b: Seq<u8>) -> Option<(Seq<u8>, Seq<u8>)> {
    match take_blob(b) {
        None => None,
        Some((v, b)) => if v.len() == 16 {
            Some((v, b))
        } else {
            None
        },
    }
}

pub open spec fn take_text(b: Seq<u8>) -> Option<(Seq<char>, Seq<u8>)> {
    match take_blob(b) {
        None => None,
        Some((v, b)) => if utf8::valid_utf8(v) {
            Some((utf8::decode_utf8(v), b))
        } else {
            None
        },
    }
}

pub open spec fn take_option(b: Seq<u8>) -> Option<(Option<Seq<char>>, Seq<u8>)> {
    if b.len() == 0 || b[0] > 1 {
        None
    } else if b[0] == 0 {
        Some((None, b.skip(1)))
    } else {
        match take_text(b.skip(1)) {
            None => None,
            Some((t, b)) => Some((Some(t), b)),
        }
    }
}

pub open spec fn take_time(b: Seq<u8>) -> Option<((int, int), Seq<u8>)> {
    match take_text(b) {
        None => None,
        Some((s, b)) => match clock::text_time(s) {
            None => None,
            Some(t) => Some((t, b)),
        },
    }
}

/// `bincode::serialize` of a `u32`: its four bytes.
#[verifier::external_body]
pub(crate) fn write_u32(v: u32) -> (res: Result<Vec<u8>, WireError>)
    ensures
        res is Ok,
        res->Ok_0@ == le_bytes(v as nat, 4),
{
    bincode::serialize(&v).map_err(|_| WireError::Malformed)
}

/// `bincode::serialize` of a `u64`: its eight bytes.
#[verifier::external_body]
pub(crate) fn write_u64(v: u64) -> (res: Result<Vec<u8>, WireError>)
    ensures
        res is Ok,
        res->Ok_0@ == le_bytes(v as nat, 8),
{
    bincode::serialize(&v).map_err(|_| WireError::Malformed)
}

/// `bincode::serialize` of a `bool`: a byte 0 or 1.
#[verifier::external_body]
pub(crate) fn write_bool(v: bool) -> (res: Result<Vec<u8>, WireError>)
    ensures
        res is Ok,
        res->Ok_0@ == bool_bytes(v),
{
    bincode::serialize(&v).map_err(|_| WireError::Malformed)
}

/// `bincode::serialize` of a `str`: its length in bytes, and its bytes.
#[verifier::external_body]
fn serialize_text(v: &str) -> (res: Result<Vec<u8>, WireError>)
    ensures
        res is Ok,
        res->Ok_0@ == text_bytes(v@),
{
    bincode::serialize(v).map_err(|_| WireError::Malformed)
}

/// `bincode::serialize` of an `Option<String>`: a byte 0, or a byte 1 and the
/// text.
#[verifier::external_body]
fn serialize_option(v: &Option<String>) -> (res: Result<Vec<u8>, WireError>)
    ensures
        res is Ok,
        res->Ok_0@ == option_bytes(text::option_text(*v)),
{
    bincode::serialize(v).map_err(|_| WireError::Malformed)
}

/// `bincode::serialize` of a `Vec<u8>`: its length, and its bytes.
#[verifier::external_body]
fn serialize_blob(v: &Vec<u8>) -> (res: Result<Vec<u8>, WireError>)
    ensures
        res is Ok,
        res->Ok_0@ == blob_bytes(v@),
{
    bincode::serialize(v).map_err(|_| WireError::Malformed)
}

/// `bincode::serialize` of a `[u8; 4]`: its bytes.
#[verifier::external_body]
pub(crate) fn write_token(v: &[u8; 4]) -> (res: Result<Vec<u8>, WireError>)
    ensures
        res is Ok,
        res->Ok_0@ == v@,
{
    bincode::serialize(v).map_err(|_| WireError::Malformed)
}

/// `bincode::serialize` of a `uuid::Uuid`: its length, which is 16, and its
/// bytes.
#[verifier::external_body]
pub(crate) fn write_id(v: &NodeId) -> (res: Result<Vec<u8>, WireError>)
    ensures
        res is Ok,
        res->Ok_0@ == blob_bytes(v@),
{
    bincode::serialize(&uuid::Uuid::from_bytes(v.bytes)).map_err(|_| WireError::Malformed)
}

/// `bincode::serialize` of a `blake3::Hash`: its bytes.
#[verifier::external_body]
pub(crate) fn write_digest(v: &Digest) -> (res: Result<Vec<u8>, WireError>)
    ensures
        res is Ok,
        res->Ok_0@ == v@,
{
    bincode::serialize(&blake3::Hash::from(v.bytes)).map_err(|_| WireError::Malformed)
}

/// `bincode::deserialize` of a `u32`: it needs four bytes, and reads no more.
#[verifier::external_body]
fn parse_u32(data: &[u8]) -> (res: Option<u32>)
    ensures
        res is Some == (data@.len() >= 4),
        res matches Some(v) ==> v == le_value(data@.take(4)),
{
    bincode::deserialize(data).ok()
}

/// `bincode::deserialize` of a `u64`: it needs eight bytes, and reads no more.
#[verifier::external_body]
fn parse_u64(data: &[u8]) -> (res: Option<u64>)
    ensures
        res is Some == (data@.len() >= 8),
        res matches Some(v) ==> v == le_value(data@.take(8)),
{
    bincode::deserialize(data).ok()
}

/// `bincode::deserialize` of a `bool`: it takes a byte 0 or 1, and reads no
/// more.
#[verifier::external_body]
fn parse_bool(data: &[u8]) -> (res: Option<bool>)
    ensures
        res is Some == (take_bool(data@) is Some),
        res matches Some(v) ==> v == take_bool(data@).unwrap().0,
{
    bincode::deserialize(data).ok()
}

/// `bincode::deserialize` of a `String`: a length, and as many bytes that are
/// UTF-8. It reads no more.
#[verifier::external_body]
fn parse_text(data: &[u8]) -> (res: Option<String>)
    ensures
        res is Some == (take_text(data@) is Some),
        res matches Some(v) ==> v@ == take_text(data@).unwrap().0,
{
    bincode::deserialize(data).ok()
}

/// `bincode::deserialize` of an `Option<String>`: a byte 0, or a byte 1 and a
/// text. It reads no more.
#[verifier::external_body]
fn parse_option(data: &[u8]) -> (res: Option<Option<String>>)
    ensures
        res is Some == (take_option(data@) is Some),
        res matches Some(v) ==> text::option_text(v) == take_option(data@).unwrap().0,
{
    bincode::deserialize(data).ok()
}

/// `bincode::deserialize` of a `Vec<u8>`: a length, and as many bytes. It reads
/// no more.
#[verifier::external_body]
fn parse_blob(data: &[u8]) -> (res: Option<Vec<u8>>)
    ensures
        res is Some == (take_blob(data@) is Some),
        res matches Some(v) ==> v@ == take_blob(data@).unwrap().0,
{
    bincode::deserialize(data).ok()
}

/// `bincode::deserialize` of a `[u8; 4]`: it needs four bytes, and reads no
/// more.
#[verifier::external_body]
fn parse_token(data: &[u8]) -> (res: Option<[u8; 4]>)
    ensures
        res is Some == (data@.len() >= 4),
        res matches Some(v) ==> v@ == data@.take(4),
{
    bincode::deserialize(data).ok()
}

/// `bincode::deserialize` of a `uuid::Uuid`: a length, which has to be 16, and
/// as many bytes. It reads no more.
#[verifier::external_body]
fn parse_id(data: &[u8]) -> (res: Option<NodeId>)
    ensures
        res is Some == (take_id(data@) is Some),
        res matches Some(v) ==> v@ == take_id(data@).unwrap().0,
{
    let id: uuid::Uuid = bincode::deserialize(data).ok()?;
    Some(NodeId { bytes: *id.as_bytes() })
}

/// `bincode::deserialize` of a `blake3::Hash`: it needs 32 bytes, and reads no
/// more.
#[verifier::external_body]
fn parse_digest(data: &[u8]) -> (res: Option<Digest>)
    ensures
        res is Some == (data@.len() >= 32),
        res matches Some(v) ==> v@ == data@.take(32),
{
    let hash: blake3::Hash = bincode::deserialize(data).ok()?;
    Some(Digest { bytes: *hash.as_bytes() })
}

/// What is left of `data` from `pos` on.
fn rest_of(data: &[u8], pos: usize) -> (res: &[u8])
    requires
        pos <= data@.len(),
    ensures
        res@ == data@.skip(pos as int),
        data@.len() <= usize::MAX,
{
    let rest = slice_subrange(data, pos, data.len());
    assert(rest@ =~= data@.skip(pos as int));
    rest
}

/// A reader at `pos` moved to `next` over what `take` takes.
pub open spec fn moves<T>(
    data: Seq<u8>,
    pos: usize,
    taken: Option<(T, Seq<u8>)>,
    got: Option<(T, usize)>,
) -> bool {
    match taken {
        None => got is None,
        Some((v, rest)) => got matches Some((w, next)) && w == v && pos <= next <= data.len()
            && rest == data.skip(next as int),
    }
}

pub(crate) fn read_u32(data: &[u8], pos: usize) -> (res: Option<(u32, usize)>)
    requires
        pos <= data@.len(),
    ensures
        moves(data@, pos, take_u32(data@.skip(pos as int)), res),
{
    let v = parse_u32(rest_of(data, pos))?;
    assert(data@.skip(pos as int).skip(4) =~= data@.skip(pos + 4));
    Some((v, pos + 4))
}

pub(crate) fn read_u64(data: &[u8], pos: usize) -> (res: Option<(u64, usize)>)
    requires
        pos <= data@.len(),
    ensures
        moves(data@, pos, take_u64(data@.skip(pos as int)), res),
{
    let v = parse_u64(rest_of(data, pos))?;
    assert(data@.skip(pos as int).skip(8) =~= data@.skip(pos + 8));
    Some((v, pos + 8))
}

pub(crate) fn read_bool(data: &[u8], pos: usize) -> (res: Option<(bool, usize)>)
    requires
        pos <= data@.len(),
    ensures
        moves(data@, pos, take_bool(data@.skip(pos as int)), res),
{
    let v = parse_bool(rest_of(data, pos))?;
    assert(data@.skip(pos as int).skip(1) =~= data@.skip(pos + 1));
    Some((v, pos + 1))
}

pub(crate) fn read_blob(data: &[u8], pos: usize) -> (res: Option<(Vec<u8>, usize)>)
    requires
        pos <= data@.len(),
    ensures
        moves(
            data@,
            pos,
            take_blob(data@.skip(pos as int)),
            match res {
                Some((v, p)) => Some((v@, p)),
                None => None,
            },
        ),
{
    let v = parse_blob(rest_of(data, pos))?;
    assert(data@.skip(pos as int).skip(8).skip(v@.len() as int) =~= data@.skip(
        pos + 8 + v@.len(),
    ));
    let next = pos + 8 + v.len();
    Some((v, next))
}

pub(crate) fn read_text(data: &[u8], pos: usize) -> (res: Option<(String, usize)>)
    requires
        pos <= data@.len(),
    ensures
        moves(
            data@,
            pos,
            take_text(data@.skip(pos as int)),
            match res {
                Some((v, p)) => Some((v@, p)),
                None => None,
            },
        ),
{
    let v = parse_text(rest_of(data, pos))?;
    let ghost b = data@.skip(pos as int);
    let ghost blob = take_blob(b).unwrap().0;
    proof {
        utf8::decode_utf8_encode_utf8(blob);
        assert(b.skip(8).skip(blob.len() as int) =~= data@.skip(pos + 8 + blob.len()));
    }
    let next = pos + 8 + v.as_str().len();
    Some((v, next))
}

pub(crate) fn read_option(data: &[u8], pos: usize) -> (res: Option<(Option<String>, usize)>)
    requires
        pos <= data@.len(),
    ensures
        moves(
            data@,
            pos,
            take_option(data@.skip(pos as int)),
            match res {
                Some((v, p)) => Some((text::option_text(v), p)),
                None => None,
            },
        ),
{
    let v = parse_option(rest_of(data, pos))?;
    let ghost b = data@.skip(pos as int);
    assert(b.skip(1) =~= data@.skip(pos + 1));
    match v {
        None => Some((None, pos + 1)),
        Some(t) => {
            let ghost blob = take_blob(b.skip(1)).unwrap().0;
            proof {
                utf8::decode_utf8_encode_utf8(blob);
                assert(b.skip(1).skip(8).skip(blob.len() as int) =~= data@.skip(
                    pos + 9 + blob.len(),
                ));
            }
            let next = pos + 9 + t.as_str().len();
            Some((Some(t), next))
        },
    }
}

pub(crate) fn read_token(data: &[u8], pos: usize) -> (res: Option<([u8; 4], usize)>)
    requires
        pos <= data@.len(),
    ensures
        moves(
            data@,
            pos,
            take_raw(data@.skip(pos as int), 4),
            match res {
                Some((v, p)) => Some((v@, p)),
                None => None,
            },
        ),
{
    let v = parse_token(rest_of(data, pos))?;
    assert(data@.skip(pos as int).skip(4) =~= data@.skip(pos + 4));
    Some((v, pos + 4))
}

pub(crate) fn read_id(data: &[u8], pos: usize) -> (res: Option<(NodeId, usize)>)
    requires
        pos <= data@.len(),
    ensures
        moves(
            data@,
            pos,
            take_id(data@.skip(pos as int)),
            match res {
                Some((v, p)) => Some((v@, p)),
                None => None,
            },
        ),
{
    let v = parse_id(rest_of(data, pos))?;
    assert(data@.skip(pos as int).skip(8).skip(16) =~= data@.skip(pos + 24));
    Some((v, pos + 24))
}

pub(crate) fn read_digest(data: &[u8], pos: usize) -> (res: Option<(Digest, usize)>)
    requires
        pos <= data@.len(),
    ensures
        moves(
            data@,
            pos,
            take_raw(data@.skip(pos as int), 32),
            match res {
                Some((v, p)) => Some((v@, p)),
                None => None,
            },
        ),
{
    let v = parse_digest(rest_of(data, pos))?;
    assert(data@.skip(pos as int).skip(32) =~= data@.skip(pos + 32));
    Some((v, pos + 32))
}

pub(crate) fn read_time(data: &[u8], pos: usize) -> (res: Option<(Timestamp, usize)>)
    requires
        pos <= data@.len(),
    ensures
        moves(
            data@,
            pos,
            take_time(data@.skip(pos as int)),
            match res {
                Some((v, p)) => Some((v@, p)),
                None => None,
            },
        ),
{
    let (s, next) = read_text(data, pos)?;
    let t = Timestamp::parse(&s)?;
    Some((t, next))
}

/// The bytes of a text, whose length they hold.
pub(crate) fn write_text(v: &str) -> (res: Result<Vec<u8>, WireError>)
    ensures
        res is Ok,
        res->Ok_0@ == text_bytes(v@),
        utf8::encode_utf8(v@).len() <= u64::MAX,
{
    let res = serialize_text(v)?;
    assert(res.len() <= usize::MAX);
    Ok(res)
}

/// The bytes of an optional text, whose length they hold.
pub(crate) fn write_option(v: &Option<String>) -> (res: Result<Vec<u8>, WireError>)
    ensures
        res is Ok,
        res->Ok_0@ == option_bytes(text::option_text(*v)),
        text::option_text(*v) matches Some(t) ==> utf8::encode_utf8(t).len() <= u64::MAX,
{
    let res = serialize_option(v)?;
    assert(res.len() <= usize::MAX);
    Ok(res)
}

/// The bytes of a byte vector, whose length they hold.
pub(crate) fn write_blob(v: &Vec<u8>) -> (res: Result<Vec<u8>, WireError>)
    ensures
        res is Ok,
        res->Ok_0@ == blob_bytes(v@),
        v@.len() <= u64::MAX,
{
    let res = serialize_blob(v)?;
    assert(res.len() <= usize::MAX);
    Ok(res)
}

pub(crate) fn write_time(v: &Timestamp) -> (res: Result<Vec<u8>, WireError>)
    ensures
        res is Ok,
        res->Ok_0@ == time_bytes(v@),
        clock::text_time(clock::time_text(v@.0, v@.1)) == Some(v@),
        utf8::encode_utf8(clock::time_text(v@.0, v@.1)).len() <= u64::MAX,
{
    write_text(&v.text())
}

/// Reading a number back.
pub proof fn number_reads_back(n: nat, width: nat, rest: Seq<u8>)
    requires
        fits(n, width),
    ensures
        take_number(le_bytes(n, width) + rest, width) == Some((n, rest)),
{
    lemma_le_bytes(n, width);
    let b = le_bytes(n, width) + rest;
    assert(b.take(width as int) =~= le_bytes(n, width));
    assert(b.skip(width as int) =~= rest);
}

pub proof fn u32_reads_back(n: u32, rest: Seq<u8>)
    ensures
        take_u32(le_bytes(n as nat, 4) + rest) == Some((n, rest)),
{
    lemma_fits_u32(n);
    number_reads_back(n as nat, 4, rest);
}

pub proof fn u64_reads_back(n: u64, rest: Seq<u8>)
    ensures
        take_u64(le_bytes(n as nat, 8) + rest) == Some((n, rest)),
{
    lemma_fits_u64(n);
    number_reads_back(n as nat, 8, rest);
}

pub proof fn bool_reads_back(v: bool, rest: Seq<u8>)
    ensures
        take_bool(bool_bytes(v) + rest) == Some((v, rest)),
{
    assert((bool_bytes(v) + rest).skip(1) =~= rest);
}

pub proof fn raw_reads_back(v: Seq<u8>, rest: Seq<u8>)
    ensures
        take_raw(v + rest, v.len()) == Some((v, rest)),
{
    assert((v + rest).take(v.len() as int) =~= v);
    assert((v + rest).skip(v.len() as int) =~= rest);
}

pub proof fn blob_reads_back(v: Seq<u8>, rest: Seq<u8>)
    requires
        v.len() <= u64::MAX,
    ensures
        take_blob(blob_bytes(v) + rest) == Some((v, rest)),
{
    lemma_fits_u64(v.len() as u64);
    number_reads_back(v.len(), 8, v + rest);
    assert(blob_bytes(v) + rest =~= le_bytes(v.len(), 8) + (v + rest));
    raw_reads_back(v, rest);
}

pub proof fn text_reads_back(v: Seq<char>, rest: Seq<u8>)
    requires
        utf8::encode_utf8(v).len() <= u64::MAX,
    ensures
        take_text(text_bytes(v) + rest) == Some((v, rest)),
{
    utf8::encode_utf8_valid_utf8(v);
    utf8::encode_utf8_decode_utf8(v);
    blob_reads_back(utf8::encode_utf8(v), rest);
}

pub proof fn option_reads_back(v: Option<Seq<char>>, rest: Seq<u8>)
    requires
        v matches Some(t) ==> utf8::encode_utf8(t).len() <= u64::MAX,
    ensures
        take_option(option_bytes(v) + rest) == Some((v, rest)),
{
    let b = option_bytes(v) + rest;
    match v {
        None => {
            assert(b.skip(1) =~= rest);
        },
        Some(t) => {
            assert(b.skip(1) =~= text_bytes(t) + rest);
            text_reads_back(t, rest);
        },
    }
}

pub proof fn time_reads_back(v: (int, int), rest: Seq<u8>)
    requires
        clock::text_time(clock::time_text(v.0, v.1)) == Some(v),
        utf8::encode_utf8(clock::time_text(v.0, v.1)).len() <= u64::MAX,
    ensures
        take_time(time_bytes(v) + rest) == Some((v, rest)),
{
    text_reads_back(clock::time_text(v.0, v.1), rest);
}

/// A number is written with its lowest byte first.
pub proof fn lowest_bytes_come_first(v: u32, w: u64)
    ensures
        ({
            let b = le_bytes(v as nat, 4);
            b.len() == 4 && v == b[0] + 0x100 * b[1] + 0x1_0000 * b[2] + 0x100_0000 * b[3]
        }),
        ({
            let b = le_bytes(w as nat, 8);
            b.len() == 8 && w == b[0] + 0x100 * b[1] + 0x1_0000 * b[2] + 0x100_0000 * b[3]
                + 0x1_0000_0000 * (b[4] + 0x100 * b[5] + 0x1_0000 * b[6] + 0x100_0000 * b[7])
        }),
{
    reveal_with_fuel(le_bytes, 9);
}

/// A text is written as the length of its UTF-8 and that; an option as a byte
/// that tells whether something follows.
pub proof fn lengths_come_before_texts(s: Seq<char>, v: Seq<u8>)
    ensures
        text_bytes(s).skip(8) == utf8::encode_utf8(s),
        text_bytes(s).take(8) == le_bytes(utf8::encode_utf8(s).len(), 8),
        blob_bytes(v).skip(8) == v,
        blob_bytes(v).take(8) == le_bytes(v.len(), 8),
        option_bytes(None).len() == 1 && option_bytes(None)[0] == 0,
        option_bytes(Some(s))[0] == 1 && option_bytes(Some(s)).skip(1) == text_bytes(s),
        bool_bytes(true).len() == 1 && bool_bytes(true)[0] == 1,
        bool_bytes(false).len() == 1 && bool_bytes(false)[0] == 0,
{
    lemma_le_bytes(utf8::encode_utf8(s).len(), 8);
    lemma_le_bytes(v.len(), 8);
    assert(text_bytes(s).skip(8) =~= utf8::encode_utf8(s));
    assert(text_bytes(s).take(8) =~= le_bytes(utf8::encode_utf8(s).len(), 8));
    assert(blob_bytes(v).skip(8) =~= v);
    assert(blob_bytes(v).take(8) =~= le_bytes(v.len(), 8));
    assert(option_bytes(Some(s)).skip(1) =~= text_bytes(s));
}

} // verus!
