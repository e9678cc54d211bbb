//! The plain values that the store is about: hashes, paths and branches.
use vstd::prelude::*;

verus! {

/// A 256-bit hash.
pub type B256 = [u8; 32];

/// A 256-bit unsigned integer, as its 32 bytes, most significant first.
pub type U256 = [u8; 32];

/// An account address.
pub type Address = [u8; 20];

/// The longest path there is: one nibble for each half-byte of a hash.
pub const MAX_NIBBLES: usize = 64;

/// The bytes of an optional hash.
pub open spec fn hash_view(hash: Option<B256>) -> Option<Seq<u8>> {
    match hash {
        Some(h) => Some(h@),
        None => None,
    }
}

/// The bytes of a list of hashes.
pub open spec fn hashes_view(hashes: Seq<B256>) -> Seq<Seq<u8>> {
    Seq::new(hashes.len(), |i: int| hashes[i]@)
}

/// Whether `nibbles` can be a path: at most [`MAX_NIBBLES`] values under 16.
pub open spec fn valid_path(nibbles: Seq<u8>) -> bool {
    &&& nibbles.len() <= MAX_NIBBLES
    &&& forall|i: int| 0 <= i < nibbles.len() ==> nibbles[i] < 16
}

/// The low four bits of each byte.
pub open spec fn low_nibbles(bytes: Seq<u8>) -> Seq<u8> {
    Seq::new(bytes.len(), |i: int| (bytes[i] % 16) as u8)
}

/// A path into a trie: a sequence of nibbles, one to a byte.
#[derive(Debug, PartialEq, Eq, Hash)]
pub struct Nibbles {
    nibbles: Vec<u8>,
}

impl View for Nibbles {
    type V = Seq<u8>;

    closed spec fn view(&self) -> Seq<u8> {
        self.nibbles@
    }
}

impl Nibbles {
    #[verifier::type_invariant]
    spec fn is_path(self) -> bool {
        valid_path(self.nibbles@)
    }

    /// The empty path, which leads to the root.
    pub fn new() -> (r: Self)
        ensures
            r@ == Seq::<u8>::empty(),
    {
        Self { nibbles: Vec::new() }
    }

    /// The path made of the low four bits of each byte.
    pub fn from_nibbles_unchecked(bytes: &[u8]) -> (r: Self)
        requires
            bytes@.len() <= MAX_NIBBLES,
        ensures
            r@.len() == bytes@.len(),
            forall|i: int| 0 <= i < bytes@.len() ==> #[trigger] r@[i] == bytes@[i] % 16,
            r@ == low_nibbles(bytes@),
            valid_path(r@),
    {
        let mut nibbles: Vec<u8> = Vec::new();
        let mut i: usize = 0;
        while i < bytes.len()
            invariant
                i <= bytes@.len(),
                bytes@.len() <= MAX_NIBBLES,
                nibbles@ =~= low_nibbles(bytes@).take(i as int),
            decreases bytes@.len() - i,
        {
            nibbles.push(bytes[i] % 16);
            i += 1;
        }
        assert(nibbles@ =~= low_nibbles(bytes@));
        Self { nibbles }
    }

    /// The number of nibbles.
    pub fn len(&self) -> (r: usize)
        ensures
            r == self@.len(),
            valid_path(self@),
    {
        proof {
            use_type_invariant(&*self);
        }
        self.nibbles.len()
    }

    /// Whether this is the empty path.
    pub fn is_empty(&self) -> (r: bool)
        ensures
            r == (self@.len() == 0),
    {
        self.nibbles.len() == 0
    }

    /// The nibbles, one to a byte.
    pub fn as_slice(&self) -> (r: &[u8])
        ensures
            r@ == self@,
            valid_path(self@),
    {
        proof {
            use_type_invariant(&*self);
        }
        self.nibbles.as_slice()
    }

    /// The nibbles, one to a byte, as a vector of their own.
    pub fn to_vec(&self) -> (r: Vec<u8>)
        ensures
            r@ == self@,
            valid_path(self@),
    {
        proof {
            use_type_invariant(&*self);
        }
        copy_bytes(self.nibbles.as_slice())
    }
}

impl Clone for Nibbles {
    fn clone(&self) -> (r: Self)
        ensures
            r@ == self@,
    {
        proof {
            use_type_invariant(&*self);
        }
        Self { nibbles: copy_bytes(self.nibbles.as_slice()) }
    }
}

impl Default for Nibbles {
    fn default() -> (r: Self)
        ensures
            r@ == Seq::<u8>::empty(),
    {
        Self::new()
    }
}

/// A copy of a byte slice.
pub fn copy_bytes(bytes: &[u8]) -> (r: Vec<u8>)
    ensures
        r@ == bytes@,
{
    let mut out: Vec<u8> = Vec::new();
    append_bytes(&mut out, bytes);
    out
}

/// Puts `bytes` at the end of `out`.
pub fn append_bytes(out: &mut Vec<u8>, bytes: &[u8])
    ensures
        final(out)@ == old(out)@ + bytes@,
{
    let ghost start = out@;
    let mut i: usize = 0;
    while i < bytes.len()
        invariant
            i <= bytes@.len(),
            out@ =~= start + bytes@.take(i as int),
        decreases bytes@.len() - i,
    {
        out.push(bytes[i]);
        i += 1;
    }
    assert(bytes@.take(bytes@.len() as int) =~= bytes@);
}

/// The hash that the first 32 bytes of `bytes` make, with zeros for what is
/// missing.
pub open spec fn padded_hash(bytes: Seq<u8>) -> Seq<u8> {
    Seq::new(
        32,
        |i: int|
            if i < bytes.len() {
                bytes[i]
            } else {
                0u8
            },
    )
}

/// The hash that the first 32 bytes of `bytes` make, with zeros for what is
/// missing.
pub fn hash_from_bytes(bytes: &[u8]) -> (r: B256)
    ensures
        forall|i: int|
            0 <= i < 32 ==> #[trigger] r@[i] == (if i < bytes@.len() {
                bytes@[i]
            } else {
                0u8
            }),
        r@ == padded_hash(bytes@),
        bytes@.len() == 32 ==> r@ == bytes@,
{
    let mut hash: B256 = [0u8; 32];
    let mut i: usize = 0;
    while i < 32 && i < bytes.len()
        invariant
            i <= 32,
            i <= bytes@.len(),
            forall|j: int| 0 <= j < i ==> hash@[j] == bytes@[j],
            forall|j: int| i <= j < 32 ==> hash@[j] == 0,
        decreases 32 - i,
    {
        hash[i] = bytes[i];
        i += 1;
    }
    assert(hash@ =~= padded_hash(bytes@));
    assert(bytes@.len() == 32 ==> hash@ =~= bytes@);
    hash
}

/// The bytes of an optional hash are its own, and those of a list of hashes are those of each, in
/// order.
pub proof fn law_hash_bytes(hash: B256, hashes: Seq<B256>)
    ensures
        hash_view(Some(hash)) == Some(hash@),
        hash_view(None) is None,
        hashes_view(hashes).len() == hashes.len(),
        forall|i: int| 0 <= i < hashes.len() ==> #[trigger] hashes_view(hashes)[i] == hashes[i]@,
{
}

/// A path is made of at most 64 values under 16, and any such values are one. Taking the low four
/// bits of each byte leaves them as they are, and always gives values under 16.
pub proof fn law_paths_are_nibbles(nibbles: Seq<u8>)
    ensures
        valid_path(nibbles) <==> nibbles.len() <= 64 && forall|i: int|
            0 <= i < nibbles.len() ==> #[trigger] nibbles[i] < 16,
        low_nibbles(nibbles).len() == nibbles.len(),
        forall|i: int|
            0 <= i < nibbles.len() ==> #[trigger] low_nibbles(nibbles)[i] == nibbles[i] % 16,
        valid_path(nibbles) ==> low_nibbles(nibbles) == nibbles,
{
    if valid_path(nibbles) {
        assert(low_nibbles(nibbles) =~= nibbles);
    }
}

/// A hash of 32 bytes or more is its first 32 bytes, and one of fewer has zeros behind them.
pub proof fn law_padded_hash(bytes: Seq<u8>)
    ensures
        padded_hash(bytes).len() == 32,
        bytes.len() >= 32 ==> padded_hash(bytes) == bytes.take(32),
        bytes.len() < 32 ==> padded_hash(bytes) == bytes + Seq::new(
            (32 - bytes.len()) as nat,
            |i: int| 0u8,
        ),
{
    if bytes.len() >= 32 {
        assert(padded_hash(bytes) =~= bytes.take(32));
    } else {
        assert(padded_hash(bytes) =~= bytes + Seq::new((32 - bytes.len()) as nat, |i: int| 0u8));
    }
}

} // verus!
