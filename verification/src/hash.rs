//! The digest type and the keyed hash that produces it.

use vstd::prelude::*;

verus! {

/// The bytes that BLAKE2b, keyed with `key`, returns for `input`.
///
/// The hash's value on given bytes is left unspecified here: everything the
/// library proves holds for every function this name could denote.
pub uninterp spec fn blake2_of(key: Seq<u8>, input: Seq<u8>) -> Seq<u8>;

/// The fixed domain-separation key under which every digest of this library
/// is computed (the ASCII bytes of `"a key"`).
///
/// All digests in a deployment share this one constant; changing it would
/// make new digests incomparable with previously computed ones.
pub open spec fn hash_key() -> Seq<u8> {
    seq![97u8, 32u8, 107u8, 101u8, 121u8]
}

/// The executable counterpart of [`hash_key`].
fn key_bytes() -> (r: Vec<u8>)
    ensures
        r@ == hash_key(),
{
    let mut r: Vec<u8> = Vec::new();
    r.push(97u8);
    r.push(32u8);
    r.push(107u8);
    r.push(101u8);
    r.push(121u8);
    proof {
        assert(r@ =~= hash_key());
    }
    r
}

/// Relies on `blake2_rfc::blake2b::blake2b`: a keyed BLAKE2b hash whose
/// result is a function of the requested length, the key and the input bytes
/// alone; with the length fixed at 64 it returns 64 bytes, and it panics only
/// when the key is longer than 64 bytes.
#[verifier::external_body]
fn blake2b_digest(key: &[u8], input: &[u8]) -> (r: Vec<u8>)
    requires
        key@.len() <= 64,
    ensures
        r@ == blake2_of(key@, input@),
        r@.len() == 64,
{
    blake2_rfc::blake2b::blake2b(64, key, input).as_bytes().to_vec()
}

/// Relies on `String::push`, which std documents as appending the given
/// character to the end of the string.
pub assume_specification[ String::push ](s: &mut String, ch: char)
    ensures
        final(s)@ == old(s)@.push(ch),
;

/// A 64-byte BLAKE2b digest of a byte string.
///
/// Equality is exact byte-wise comparison; a value carries no identity beyond
/// its bytes.
#[derive(Copy, Clone, Debug)]
pub struct Blake2 {
    pub bytes: [u8; 64],
}

impl View for Blake2 {
    type V = Seq<u8>;

    open spec fn view(&self) -> Seq<u8> {
        self.bytes@
    }
}

impl PartialEq for Blake2 {
    fn eq(&self, other: &Blake2) -> (r: bool) {
        let mut i: usize = 0;
        while i < 64
            invariant
                i <= 64,
                forall|j: int| 0 <= j < i ==> self.bytes@[j] == other.bytes@[j],
            decreases 64 - i,
        {
            if self.bytes[i] != other.bytes[i] {
                return false;
            }
            i = i + 1;
        }
        proof {
            assert(self.bytes@ =~= other.bytes@);
        }
        true
    }
}

impl Eq for Blake2 {}

impl vstd::std_specs::cmp::PartialEqSpecImpl for Blake2 {
    open spec fn obeys_eq_spec() -> bool {
        true
    }

    open spec fn eq_spec(&self, other: &Blake2) -> bool {
        self.bytes@ == other.bytes@
    }
}

impl Blake2 {
    /// Hash `obj` under the library's fixed key.
    ///
    /// Deterministic and total: equal inputs always yield equal digests.
    pub fn new(obj: &[u8]) -> (r: Blake2)
        ensures
            r@ == blake2_of(hash_key(), obj@),
    {
        let key = key_bytes();
        let digest = blake2b_digest(key.as_slice(), obj);
        Blake2 { bytes: into_64bytes(digest.as_slice()) }
    }

    /// Upper-case hexadecimal rendering of the digest, two characters per
    /// byte, for diagnostics only: comparison is `==` on the bytes.
    pub fn to_hex(&self) -> (r: String)
        ensures
            r@.len() == 128,
            forall|i: int|
                0 <= i < 64 ==> #[trigger] r@[2 * i] == hex_digit(self.bytes@[i] / 16)
                    && r@[2 * i + 1] == hex_digit(self.bytes@[i] % 16),
    {
        let mut r = String::new();
        let mut i: usize = 0;
        while i < 64
            invariant
                i <= 64,
                r@.len() == 2 * i,
                forall|j: int|
                    0 <= j < i ==> #[trigger] r@[2 * j] == hex_digit(self.bytes@[j] / 16)
                        && r@[2 * j + 1] == hex_digit(self.bytes@[j] % 16),
            decreases 64 - i,
        {
            let b = self.bytes[i];
            let ghost r0 = r@;
            r.push(hex_digit_char(b / 16));
            r.push(hex_digit_char(b % 16));
            proof {
                assert(r@ == r0.push(hex_digit(b / 16)).push(hex_digit(b % 16)));
                assert(r@[2 * (i as int)] == hex_digit(self.bytes@[i as int] / 16));
                assert(r@[2 * (i as int) + 1] == hex_digit(self.bytes@[i as int] % 16));
                assert(forall|j: int| 0 <= j < 2 * i ==> r@[j] == r0[j]);
            }
            i = i + 1;
        }
        r
    }
}

/// The upper-case hexadecimal character for a value below 16.
pub open spec fn hex_digit(n: u8) -> char {
    if n < 10 {
        (n + 48) as char
    } else {
        (n + 55) as char
    }
}

/// The executable counterpart of [`hex_digit`].
fn hex_digit_char(n: u8) -> (r: char)
    requires
        n < 16,
    ensures
        r == hex_digit(n),
{
    if n < 10 {
        (n + 48) as char
    } else {
        (n + 55) as char
    }
}

/// Copy a slice of exactly 64 bytes into a fixed 64-byte array.
///
/// A digest must never be built from a byte string of any other length, so a
/// caller has to establish the length first.
pub fn into_64bytes(slice: &[u8]) -> (r: [u8; 64])
    requires
        slice@.len() == 64,
    ensures
        r@ == slice@,
{
    let mut array = [0u8; 64];
    let mut i: usize = 0;
    while i < 64
        invariant
            slice@.len() == 64,
            i <= 64,
            forall|j: int| 0 <= j < i ==> array@[j] == slice@[j],
        decreases 64 - i,
    {
        array[i] = slice[i];
        i = i + 1;
    }
    proof {
        assert(array@ =~= slice@);
    }
    array
}

} // verus!
