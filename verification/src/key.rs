//! Keys for the hash table.
//!
//! A key type must offer a deterministic hash and an equality test. Both are
//! pinned at the specification level: the hash is a `spec` function of the
//! key's abstract view alone, so equal keys always hash identically, and the
//! executable equality test must agree with equality of views.
//!
//! The executable hashes run through `std`'s `DefaultHasher`, whose behaviour
//! `vstd` specifies: `finish` is a deterministic function of the sequence of
//! byte strings written to the hasher.

use std::collections::hash_map::DefaultHasher;
use std::hash::Hasher;
use vstd::prelude::*;

verus! {

use vstd::bytes::spec_u64_to_le_bytes;
use vstd::bytes::u64_to_le_bytes;
use vstd::std_specs::hash::DefaultHasherAdditionalSpecFns;
use vstd::string::StringSliceAdditionalSpecFns;
use vstd::utf8::encode_utf8;

/// A key usable in the hash table.
///
/// `view_hash` gives the hash of a key as a function of the key's abstract
/// view alone, which makes hashing deterministic and consistent across keys
/// that are equal in the model. `hash_code` computes that hash; `key_eq`
/// decides equality of views.
pub trait TableKey: View + Sized {
    /// The hash of a key, determined by the key's abstract view alone.
    spec fn view_hash(vk: Self::V) -> u64;

    /// Computes the hash of this key.
    fn hash_code(&self) -> (h: u64)
        ensures
            h == Self::view_hash(self@),
    ;

    /// Decides whether two keys are equal, in the sense of their views.
    fn key_eq(&self, other: &Self) -> (b: bool)
        ensures
            b == (self@ == other@),
    ;
}

/// The hash of a `u64`: its eight little-endian bytes, written to a fresh
/// `DefaultHasher` as one block.
pub open spec fn spec_hash_u64(x: u64) -> u64 {
    DefaultHasher::spec_finish(seq![spec_u64_to_le_bytes(x)])
}

/// The hash of a character sequence: its UTF-8 encoding, written to a fresh
/// `DefaultHasher` as one block.
pub open spec fn spec_hash_chars(s: Seq<char>) -> u64 {
    DefaultHasher::spec_finish(seq![encode_utf8(s)])
}

fn hash_u64(x: u64) -> (h: u64)
    ensures
        h == spec_hash_u64(x),
{
    let bytes = u64_to_le_bytes(x);
    let mut hasher = DefaultHasher::new();
    hasher.write(bytes.as_slice());
    hasher.finish()
}

fn hash_str(s: &str) -> (h: u64)
    ensures
        h == spec_hash_chars(s@),
{
    let bytes = s.as_bytes();
    let mut hasher = DefaultHasher::new();
    hasher.write(bytes);
    hasher.finish()
}

/// Decides equality of two string slices by comparing their UTF-8 bytes.
fn str_eq(a: &str, b: &str) -> (r: bool)
    ensures
        r == (a@ == b@),
{
    proof {
        if a@ == b@ {
            assert(a.spec_bytes() == b.spec_bytes());
        }
    }
    let ab = a.as_bytes();
    let bb = b.as_bytes();
    if ab.len() != bb.len() {
        return false;
    }
    let n = ab.len();
    let mut i: usize = 0;
    while i < n
        invariant
            i <= n,
            n == ab@.len(),
            n == bb@.len(),
            ab@ == a.spec_bytes(),
            bb@ == b.spec_bytes(),
            forall|j: int| 0 <= j < i ==> ab@[j] == bb@[j],
        decreases n - i,
    {
        let x = *vstd::slice::slice_index_get(ab, i);
        let y = *vstd::slice::slice_index_get(bb, i);
        if x != y {
            return false;
        }
        i += 1;
    }
    proof {
        assert(a.spec_bytes() =~= b.spec_bytes());
        vstd::utf8::encode_utf8_decode_utf8(a@);
        vstd::utf8::encode_utf8_decode_utf8(b@);
    }
    true
}

impl TableKey for u64 {
    open spec fn view_hash(vk: u64) -> u64 {
        spec_hash_u64(vk)
    }

    fn hash_code(&self) -> (h: u64) {
        hash_u64(*self)
    }

    fn key_eq(&self, other: &Self) -> (b: bool) {
        *self == *other
    }
}

impl TableKey for u32 {
    open spec fn view_hash(vk: u32) -> u64 {
        spec_hash_u64(vk as u64)
    }

    fn hash_code(&self) -> (h: u64) {
        hash_u64(*self as u64)
    }

    fn key_eq(&self, other: &Self) -> (b: bool) {
        *self == *other
    }
}

impl TableKey for u16 {
    open spec fn view_hash(vk: u16) -> u64 {
        spec_hash_u64(vk as u64)
    }

    fn hash_code(&self) -> (h: u64) {
        hash_u64(*self as u64)
    }

    fn key_eq(&self, other: &Self) -> (b: bool) {
        *self == *other
    }
}

impl TableKey for u8 {
    open spec fn view_hash(vk: u8) -> u64 {
        spec_hash_u64(vk as u64)
    }

    fn hash_code(&self) -> (h: u64) {
        hash_u64(*self as u64)
    }

    fn key_eq(&self, other: &Self) -> (b: bool) {
        *self == *other
    }
}

impl TableKey for usize {
    open spec fn view_hash(vk: usize) -> u64 {
        spec_hash_u64(vk as u64)
    }

    fn hash_code(&self) -> (h: u64) {
        hash_u64(*self as u64)
    }

    fn key_eq(&self, other: &Self) -> (b: bool) {
        *self == *other
    }
}

impl TableKey for i32 {
    open spec fn view_hash(vk: i32) -> u64 {
        spec_hash_u64((vk + 0x8000_0000) as u64)
    }

    fn hash_code(&self) -> (h: u64) {
        let w: i64 = (*self as i64) + 0x8000_0000;
        hash_u64(w as u64)
    }

    fn key_eq(&self, other: &Self) -> (b: bool) {
        *self == *other
    }
}

impl TableKey for i64 {
    open spec fn view_hash(vk: i64) -> u64 {
        spec_hash_u64((vk as int + 0x8000_0000_0000_0000) as u64)
    }

    fn hash_code(&self) -> (h: u64) {
        let w: u64 = if *self >= 0 {
            (*self as u64) + 0x8000_0000_0000_0000
        } else {
            // A negative value v maps to v + 2^63, computed without leaving i64.
            ((*self + 0x4000_0000_0000_0000) + 0x4000_0000_0000_0000) as u64
        };
        hash_u64(w)
    }

    fn key_eq(&self, other: &Self) -> (b: bool) {
        *self == *other
    }
}

impl<'a> TableKey for &'a str {
    open spec fn view_hash(vk: Seq<char>) -> u64 {
        spec_hash_chars(vk)
    }

    fn hash_code(&self) -> (h: u64) {
        hash_str(*self)
    }

    fn key_eq(&self, other: &Self) -> (b: bool) {
        str_eq(*self, *other)
    }
}

impl TableKey for String {
    open spec fn view_hash(vk: Seq<char>) -> u64 {
        spec_hash_chars(vk)
    }

    fn hash_code(&self) -> (h: u64) {
        hash_str(self.as_str())
    }

    fn key_eq(&self, other: &Self) -> (b: bool) {
        str_eq(self.as_str(), other.as_str())
    }
}

} // verus!
