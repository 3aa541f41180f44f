//! Fixed-length, validated byte identifiers: 20-byte addresses and 32-byte
//! hashes. A value of either type always holds exactly the right number of
//! bytes; the only way to build one from raw input is through a constructor
//! that rejects every other length.

use vstd::prelude::*;

verus! {

/// Number of bytes in an address identifier.
pub const ADDRESS_LEN: usize = 20;

/// Number of bytes in a hash identifier (and in a log topic).
pub const HASH_LEN: usize = 32;

/// A raw 20-byte address. No further interpretation is given to the bytes.
#[derive(Debug)]
pub struct Address {
    bytes: Vec<u8>,
}

/// A raw 32-byte hash. Also used for log topics.
#[derive(Debug)]
pub struct Hash {
    bytes: Vec<u8>,
}

impl Clone for Address {
    fn clone(&self) -> (r: Self)
        ensures
            r@ == self@,
    {
        proof {
            use_type_invariant(self);
        }
        Address { bytes: vstd::slice::slice_to_vec(self.bytes.as_slice()) }
    }
}

impl Clone for Hash {
    fn clone(&self) -> (r: Self)
        ensures
            r@ == self@,
    {
        proof {
            use_type_invariant(self);
        }
        Hash { bytes: vstd::slice::slice_to_vec(self.bytes.as_slice()) }
    }
}

impl View for Address {
    type V = Seq<u8>;

    closed spec fn view(&self) -> Seq<u8> {
        self.bytes@
    }
}

impl View for Hash {
    type V = Seq<u8>;

    closed spec fn view(&self) -> Seq<u8> {
        self.bytes@
    }
}

impl Address {
    #[verifier::type_invariant]
    spec fn len_inv(self) -> bool {
        self.bytes@.len() == ADDRESS_LEN
    }

    /// Validating constructor: accepts exactly 20 bytes, rejects every other
    /// length.
    pub fn from_bytes(bytes: Vec<u8>) -> (r: Option<Address>)
        ensures
            match r {
                Some(a) => bytes@.len() == ADDRESS_LEN && a@ == bytes@,
                None => bytes@.len() != ADDRESS_LEN,
            },
    {
        if bytes.len() == ADDRESS_LEN {
            Some(Address { bytes })
        } else {
            None
        }
    }

    /// The underlying bytes; always exactly 20 of them.
    pub fn bytes(&self) -> (r: &Vec<u8>)
        ensures
            r@ == self@,
            r@.len() == ADDRESS_LEN,
    {
        proof {
            use_type_invariant(self);
        }
        &self.bytes
    }
}

impl Hash {
    #[verifier::type_invariant]
    spec fn len_inv(self) -> bool {
        self.bytes@.len() == HASH_LEN
    }

    /// Validating constructor: accepts exactly 32 bytes, rejects every other
    /// length.
    pub fn from_bytes(bytes: Vec<u8>) -> (r: Option<Hash>)
        ensures
            match r {
                Some(h) => bytes@.len() == HASH_LEN && h@ == bytes@,
                None => bytes@.len() != HASH_LEN,
            },
    {
        if bytes.len() == HASH_LEN {
            Some(Hash { bytes })
        } else {
            None
        }
    }

    /// The underlying bytes; always exactly 32 of them.
    pub fn bytes(&self) -> (r: &Vec<u8>)
        ensures
            r@ == self@,
            r@.len() == HASH_LEN,
    {
        proof {
            use_type_invariant(self);
        }
        &self.bytes
    }
}

/// Byte-sequence equality, element by element.
pub fn bytes_eq(a: &[u8], b: &[u8]) -> (r: bool)
    ensures
        r == (a@ == b@),
{
    if a.len() != b.len() {
        proof {
            assert(a@.len() != b@.len());
        }
        return false;
    }
    let mut i: usize = 0;
    while i < a.len()
        invariant
            0 <= i <= a@.len(),
            a@.len() == b@.len(),
            forall|j: int| 0 <= j < i ==> a@[j] == b@[j],
        decreases a@.len() - i,
    {
        if a[i] != b[i] {
            return false;
        }
        i += 1;
    }
    proof {
        assert(a@ =~= b@);
    }
    true
}

} // verus!
