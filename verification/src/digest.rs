//! The digest by which a converted recording is held against its source.

use vstd::prelude::*;

verus! {

/// The hasher of the `sha2` crate, carried by value.
#[verifier::external_type_specification]
#[verifier::external_body]
pub struct ExSha256(sha2::Sha256);

/// The bytes that a hasher has been given so far.
pub uninterp spec fn hashed(hasher: sha2::Sha256) -> Seq<u8>;

/// The SHA-256 digest of bytes.
pub uninterp spec fn sha256(data: Seq<u8>) -> Seq<u8>;

/// A hasher that was given nothing.
///
/// Calls `sha2::Sha256::new`. Claimed: it has been given no byte.
#[verifier::external_body]
fn new_hasher() -> (hasher: sha2::Sha256)
    ensures
        hashed(hasher) == Seq::<u8>::empty(),
{
    sha2::Digest::new()
}

/// Gives a hasher more bytes.
///
/// Calls `update` of the `sha2` crate. Claimed: the bytes come behind those it was
/// given before.
#[verifier::external_body]
fn hash_more(hasher: &mut sha2::Sha256, data: &[u8])
    requires
        hashed(*old(hasher)).len() + data@.len() <= u64::MAX,
    ensures
        hashed(*final(hasher)) == hashed(*old(hasher)) + data@,
{
    sha2::Digest::update(hasher, data)
}

/// The digest of what a hasher was given.
///
/// Calls `finalize` of the `sha2` crate. Claimed: the digest depends on those bytes
/// alone. That no two recordings share one is left unsaid.
#[verifier::external_body]
fn finish_hash(hasher: sha2::Sha256) -> (digest: [u8; 32])
    ensures
        digest@ == sha256(hashed(hasher)),
{
    sha2::Digest::finalize(hasher).into()
}

/// A digest of audio that comes piece by piece.
pub struct AudioDigest {
    hasher: sha2::Sha256,
}

impl View for AudioDigest {
    type V = Seq<u8>;

    closed spec fn view(&self) -> Seq<u8> {
        hashed(self.hasher)
    }
}

impl AudioDigest {
    pub fn new() -> (digest: AudioDigest)
        ensures
            digest@ == Seq::<u8>::empty(),
    {
        AudioDigest { hasher: new_hasher() }
    }

    pub fn update(&mut self, piece: &[u8])
        requires
            old(self)@.len() + piece@.len() <= u64::MAX,
        ensures
            final(self)@ == old(self)@ + piece@,
    {
        hash_more(&mut self.hasher, piece);
    }

    /// The digest of everything that came.
    pub fn finish(self) -> (digest: [u8; 32])
        ensures
            digest@ == sha256(self@),
    {
        finish_hash(self.hasher)
    }
}

/// The bytes of the first `upto` pieces, in order.
pub open spec fn all_bytes(pieces: Seq<Vec<u8>>, upto: int) -> Seq<u8>
    decreases upto,
{
    if upto <= 0 {
        Seq::empty()
    } else {
        all_bytes(pieces, upto - 1) + pieces[upto - 1]@
    }
}

pub proof fn lemma_fewer_bytes(pieces: Seq<Vec<u8>>, fewer: int, upto: int)
    requires
        0 <= fewer <= upto <= pieces.len(),
    ensures
        all_bytes(pieces, fewer).len() <= all_bytes(pieces, upto).len(),
    decreases upto,
{
    if fewer < upto {
        lemma_fewer_bytes(pieces, fewer, upto - 1);
    }
}

/// The digest of audio, whichever pieces it was read in.
pub fn digest_of(pieces: &Vec<Vec<u8>>) -> (digest: [u8; 32])
    requires
        all_bytes(pieces@, pieces@.len() as int).len() <= u64::MAX,
    ensures
        digest@ == sha256(all_bytes(pieces@, pieces@.len() as int)),
{
    let mut digest = AudioDigest::new();
    let mut index: usize = 0;
    while index < pieces.len()
        invariant
            index <= pieces@.len(),
            all_bytes(pieces@, pieces@.len() as int).len() <= u64::MAX,
            digest@ == all_bytes(pieces@, index as int),
        decreases pieces@.len() - index,
    {
        proof {
            lemma_fewer_bytes(pieces@, index + 1, pieces@.len() as int);
        }
        digest.update(pieces[index].as_slice());
        index += 1;
    }
    digest.finish()
}

/// Whether two digests are the same.
pub fn same_digest(a: &[u8; 32], b: &[u8; 32]) -> (same: bool)
    ensures
        same == (a@ == b@),
{
    let mut index: usize = 0;
    while index < 32
        invariant
            index <= 32,
            forall|i: int| 0 <= i < index ==> a@[i] == b@[i],
        decreases 32 - index,
    {
        if a[index] != b[index] {
            assert(a@[index as int] != b@[index as int]);
            return false;
        }
        index += 1;
    }
    assert(a@ =~= b@);
    true
}

/// The bytes of audio are those of its pieces, one after the other: how it was parted changes
/// nothing.
pub proof fn parting_changes_nothing(left: Seq<Vec<u8>>, right: Seq<Vec<u8>>)
    ensures
        all_bytes(left + right, (left.len() + right.len()) as int) == all_bytes(
            left,
            left.len() as int,
        ) + all_bytes(right, right.len() as int),
        left.len() == 1 ==> all_bytes(left, 1) == left[0]@,
    decreases right.len(),
{
    let whole = left + right;
    if left.len() == 1 {
        assert(all_bytes(left, 1) == all_bytes(left, 0) + left[0]@);
        assert(all_bytes(left, 1) =~= left[0]@);
    }
    if right.len() == 0 {
        assert(whole =~= left);
        assert(all_bytes(left, left.len() as int) + all_bytes(right, 0) =~= all_bytes(
            left,
            left.len() as int,
        ));
    } else {
        let shorter = right.drop_last();
        parting_changes_nothing(left, shorter);
        lemma_same_bytes(left + shorter, whole, (left.len() + shorter.len()) as int);
        lemma_same_bytes(shorter, right, shorter.len() as int);
        assert(whole[(left.len() + shorter.len()) as int] == right[right.len() - 1]);
        assert(all_bytes(whole, whole.len() as int) =~= all_bytes(left, left.len() as int)
            + all_bytes(right, right.len() as int));
    }
}

proof fn lemma_same_bytes(pieces: Seq<Vec<u8>>, more: Seq<Vec<u8>>, upto: int)
    requires
        0 <= upto <= pieces.len() <= more.len(),
        forall|i: int| 0 <= i < pieces.len() ==> pieces[i] == #[trigger] more[i],
    ensures
        all_bytes(pieces, upto) == all_bytes(more, upto),
    decreases upto,
{
    if upto > 0 {
        lemma_same_bytes(pieces, more, upto - 1);
        assert(pieces[upto - 1] == more[upto - 1]);
    }
}

} // verus!
