//! BLAKE3 digests of content.

use vstd::prelude::*;

verus! {

/// A BLAKE3 digest.
#[derive(Debug, Clone, Copy)]
pub struct Digest {
    pub bytes: [u8; 32],
}

impl View for Digest {
    type V = Seq<u8>;

    open spec fn view(&self) -> Seq<u8> {
        self.bytes@
    }
}

/// The digest that stands for no content: the one of a directory, or of a
/// file that could not be read.
pub open spec fn zero_digest() -> Seq<u8> {
    Seq::new(32, |i: int| 0u8)
}

/// Two byte arrays hold the same bytes.
pub fn same_bytes(a: &[u8], b: &[u8]) -> (res: bool)
    ensures
        res == (a@ == b@),
{
    if a.len() != b.len() {
        return false;
    }
    let mut i: usize = 0;
    while i < a.len()
        invariant
            i <= a@.len(),
            a@.len() == b@.len(),
            a@.take(i as int) == b@.take(i as int),
        decreases a@.len() - i,
    {
        if a[i] != b[i] {
            return false;
        }
        assert(a@.take(i + 1) =~= a@.take(i as int).push(a@[i as int]));
        assert(b@.take(i + 1) =~= b@.take(i as int).push(b@[i as int]));
        i += 1;
    }
    assert(a@.take(i as int) =~= a@);
    assert(b@.take(i as int) =~= b@);
    true
}

impl Digest {
    /// The digest that stands for no content.
    pub fn zero() -> (res: Digest)
        ensures
            res@ == zero_digest(),
    {
        let res = Digest { bytes: [0; 32] };
        assert(res@ =~= zero_digest());
        res
    }

    /// The digest of `data`.
    pub fn of(data: &[u8]) -> (res: Digest)
        ensures
            res@ == blake3_digest(data@),
    {
        Digest { bytes: blake3_hash(data) }
    }

    /// Whether two digests are one.
    pub fn same(&self, other: &Digest) -> (res: bool)
        ensures
            res == (self@ == other@),
    {
        same_bytes(self.bytes.as_slice(), other.bytes.as_slice())
    }
}

/// The BLAKE3 digest of `data`.
pub uninterp spec fn blake3_digest(data: Seq<u8>) -> Seq<u8>;

/// `blake3::hash`: the digest of the bytes, which depends on nothing else.
#[verifier::external_body]
fn blake3_hash(data: &[u8]) -> (res: [u8; 32])
    ensures
        res@ == blake3_digest(data@),
{
    *blake3::hash(data).as_bytes()
}

/// The incremental hasher of the crate `blake3`.
#[verifier::external_type_specification]
#[verifier::external_body]
pub struct ExHasher(blake3::Hasher);

/// The bytes that a hasher has taken in.
pub uninterp spec fn absorbed(hasher: blake3::Hasher) -> Seq<u8>;

/// The hasher computes plain digests: it was given no key, no context and no
/// offset.
pub uninterp spec fn is_plain(hasher: blake3::Hasher) -> bool;

/// `blake3::Hasher::new`: a plain hasher that has taken in nothing.
#[verifier::external_body]
fn hasher_new() -> (res: blake3::Hasher)
    ensures
        absorbed(res) == Seq::<u8>::empty(),
        is_plain(res),
{
    blake3::Hasher::new()
}

/// `blake3::Hasher::update`: a plain hasher takes in the bytes, after those that
/// it has, and stays plain. (One with an offset panics on too many bytes.)
#[verifier::external_body]
fn hasher_update(hasher: &mut blake3::Hasher, data: &[u8])
    requires
        is_plain(*old(hasher)),
    ensures
        absorbed(*final(hasher)) == absorbed(*old(hasher)) + data@,
        is_plain(*final(hasher)),
{
    hasher.update(data);
}

/// `blake3::Hasher::finalize`: of a plain hasher, the digest of the bytes that
/// it has taken in, the same that `blake3::hash` gives for them at once.
#[verifier::external_body]
fn hasher_finalize(hasher: &blake3::Hasher) -> (res: [u8; 32])
    requires
        is_plain(*hasher),
    ensures
        res@ == blake3_digest(absorbed(*hasher)),
{
    *hasher.finalize().as_bytes()
}

/// The digest of content that comes piece by piece.
pub struct ContentHasher {
    hasher: blake3::Hasher,
}

impl View for ContentHasher {
    type V = Seq<u8>;

    /// The content so far.
    closed spec fn view(&self) -> Seq<u8> {
        absorbed(self.hasher)
    }
}

impl ContentHasher {
    #[verifier::type_invariant]
    spec fn type_inv(self) -> bool {
        is_plain(self.hasher)
    }

    pub fn new() -> (res: ContentHasher)
        ensures
            res@ == Seq::<u8>::empty(),
    {
        ContentHasher { hasher: hasher_new() }
    }

    /// Takes in the next piece of the content.
    pub fn update(&mut self, piece: &[u8])
        ensures
            final(self)@ == old(self)@ + piece@,
    {
        proof {
            use_type_invariant(&*self);
        }
        let mut hasher = hasher_new();
        std::mem::swap(&mut hasher, &mut self.hasher);
        hasher_update(&mut hasher, piece);
        self.hasher = hasher;
    }

    /// The digest of the content so far.
    pub fn finish(&self) -> (res: Digest)
        ensures
            res@ == blake3_digest(self@),
    {
        proof {
            use_type_invariant(self);
        }
        Digest { bytes: hasher_finalize(&self.hasher) }
    }
}

/// A digest of content that came piece by piece is that of the content as a
/// whole, wherever it was cut.
pub proof fn pieces_give_the_digest_of_the_whole(
    fresh: ContentHasher,
    first: &mut ContentHasher,
    second: &mut ContentHasher,
    done: &ContentHasher,
    p: &[u8],
    q: &[u8],
    whole: &[u8],
    d: Digest,
    e: Digest,
    same: bool,
)
    requires
        call_ensures(ContentHasher::new, (), fresh),
        old(first)@ == fresh@,
        call_ensures(ContentHasher::update, (first, p), ()),
        old(second)@ == final(first)@,
        call_ensures(ContentHasher::update, (second, q), ()),
        done@ == final(second)@,
        call_ensures(ContentHasher::finish, (done,), d),
        whole@ == p@ + q@,
        call_ensures(Digest::of, (whole,), e),
        call_ensures(Digest::same, (&d, &e), same),
    ensures
        same,
        d.bytes@ == e.bytes@,
{
    assert(done@ =~= whole@);
}

/// One more piece makes the digest that of the content so far with the piece
/// behind it.
pub proof fn pieces_are_taken_in_order(
    hasher: &mut ContentHasher,
    piece: &[u8],
    done: &ContentHasher,
    whole: &[u8],
    d: Digest,
    e: Digest,
)
    requires
        call_ensures(ContentHasher::update, (hasher, piece), ()),
        done@ == final(hasher)@,
        call_ensures(ContentHasher::finish, (done,), d),
        whole@ == old(hasher)@ + piece@,
        call_ensures(Digest::of, (whole,), e),
    ensures
        d.bytes@ == e.bytes@,
{
}

/// Two digests are one if and only if they agree in each of their bytes.
pub proof fn every_byte_of_a_digest_counts(a: &Digest, b: &Digest, same: bool)
    requires
        call_ensures(Digest::same, (a, b), same),
    ensures
        same <==> forall|i: int| 0 <= i < 32 ==> a.bytes@[i] == b.bytes@[i],
{
    if forall|i: int| 0 <= i < 32 ==> a.bytes@[i] == b.bytes@[i] {
        assert(a.bytes@ =~= b.bytes@);
    }
}

/// The digest that stands for no content is all zeros.
pub proof fn no_content_is_all_zeros(d: Digest, i: int)
    requires
        call_ensures(Digest::zero, (), d),
        0 <= i < 32,
    ensures
        d.bytes@[i] == 0,
{
    assert(d.bytes@[i] == zero_digest()[i]);
}

/// Bytes are the same if there are as many and each is the same.
pub proof fn same_bytes_agree_one_by_one(a: &[u8], b: &[u8], res: bool)
    requires
        call_ensures(same_bytes, (a, b), res),
    ensures
        res <==> a@.len() == b@.len() && forall|i: int| 0 <= i < a@.len() ==> a@[i] == b@[i],
{
    if a@.len() == b@.len() && forall|i: int| 0 <= i < a@.len() ==> a@[i] == b@[i] {
        assert(a@ =~= b@);
    }
}

} // verus!
