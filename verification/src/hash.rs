//! 32-byte SHA-256 hashes.
use vstd::prelude::*;
use crate::bytes::bytes32_eq;
use crate::crypto::{sha256, sha256_spec, hex_encode, hex_lower, hex_decode, hex_decode_spec};
use crate::text::{decimal, u64_to_decimal};

verus! {

broadcast use vstd::array::group_array_axioms;

/// A 32-byte hash (SHA-256).
#[derive(Clone, Copy, Debug, Hash)]
pub struct Hash(pub [u8; 32]);

impl PartialEq for Hash {
    fn eq(&self, other: &Self) -> (r: bool) {
        bytes32_eq(&self.0, &other.0)
    }
}

impl Eq for Hash {}

impl vstd::std_specs::cmp::PartialEqSpecImpl for Hash {
    open spec fn obeys_eq_spec() -> bool {
        true
    }

    open spec fn eq_spec(&self, other: &Hash) -> bool {
        *self == *other
    }
}

/// The all-zero hash (the default value).
pub open spec fn zero_hash() -> Hash {
    Hash(vstd::array::spec_array_fill_for_copy_type::<u8, 32>(0u8))
}

impl Default for Hash {
    fn default() -> (r: Hash)
        ensures
            r == zero_hash(),
    {
        Hash([0u8; 32])
    }
}

impl Hash {
    /// Wraps the given bytes.
    pub fn new(bytes: [u8; 32]) -> (r: Hash)
        ensures
            r == Hash(bytes),
    {
        Hash(bytes)
    }

    /// The all-zero hash.
    pub fn zero() -> (r: Hash)
        ensures
            r == zero_hash(),
    {
        Hash([0u8; 32])
    }

    /// SHA-256 of `data`.
    pub fn hash(data: &[u8]) -> (r: Hash)
        ensures
            r.0@ == sha256_spec(data@),
    {
        Hash(sha256(data))
    }

    /// Lower-case hex text of the 32 bytes.
    pub fn to_hex(&self) -> (r: String)
        ensures
            r@ == hex_lower(self.0@),
    {
        hex_encode(&self.0)
    }

    /// Parses a hex string of exactly 32 bytes.
    pub fn from_hex(s: &str) -> (r: Result<Hash, String>)
        ensures
            r is Ok <==> (hex_decode_spec(s@) is Some && hex_decode_spec(s@).unwrap().len() == 32),
            r matches Ok(h) ==> h.0@ == hex_decode_spec(s@).unwrap(),
            hex_decode_spec(s@) is None ==> (r matches Err(m) && m@.len() >= 13 && m@.subrange(0, 13) == "Invalid hex: "@),
            hex_decode_spec(s@) is Some && hex_decode_spec(s@).unwrap().len() != 32 ==> (r matches Err(m)
                && m@ == "Invalid length: "@ + decimal(hex_decode_spec(s@).unwrap().len()) + " (expected 32)"@),
    {
        let bytes = match hex_decode(s) {
            Ok(b) => b,
            Err(e) => {
                let mut m = String::from_str("Invalid hex: ");
                m.append(e.as_str());
                proof {
                    reveal_strlit("Invalid hex: ");
                }
                assert(m@.subrange(0, 13) =~= "Invalid hex: "@);
                return Err(m);
            },
        };
        if bytes.len() != 32 {
            let mut m = String::from_str("Invalid length: ");
            m.append(u64_to_decimal(bytes.len() as u64).as_str());
            m.append(" (expected 32)");
            return Err(m);
        }
        let mut out = [0u8; 32];
        let mut i: usize = 0;
        while i < 32
            invariant
                i <= 32,
                bytes@.len() == 32,
                forall|j: int| 0 <= j < i ==> out@[j] == bytes@[j],
            decreases 32 - i,
        {
            out[i] = bytes[i];
            i += 1;
        }
        assert(out@ =~= bytes@);
        Ok(Hash(out))
    }
}

} // verus!
