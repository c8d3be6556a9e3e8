use vstd::prelude::*;
use vstd::bytes::{spec_u32_from_le_bytes, spec_u32_to_le_bytes, u32_from_le_bytes, u32_to_le_bytes};
use vstd::slice::slice_subrange;
use crate::vector2::Vector2;

verus! {

/// Vector that is writable
///
/// A value made of `dim()` single precision channels, each stored as the
/// four little endian bytes of its bit pattern.
pub trait Vector: Copy + Sized {
    /// Number of channels.
    spec fn spec_dim() -> nat;

    /// The `4 * spec_dim()` bytes that stand for the value.
    spec fn spec_to_le_bytes(&self) -> Seq<u8>;

    /// The value read back from its `4 * spec_dim()` bytes.
    spec fn spec_from_le_bytes(bytes: Seq<u8>) -> Self;

    /// Number of channels; at least one, and few enough that the byte
    /// count of one value fits in a `u32`.
    fn dim() -> (d: usize)
        ensures
            d == Self::spec_dim(),
            0 < d,
            4 * d <= u32::MAX,
    ;

    fn to_le_bytes(&self) -> (r: Vec<u8>)
        ensures
            r@ == self.spec_to_le_bytes(),
    ;

    /// Reads a value from the first `4 * dim()` bytes.
    fn from_le_bytes(bytes: &[u8]) -> (r: Self)
        requires
            bytes@.len() >= 4 * Self::spec_dim(),
        ensures
            r == Self::spec_from_le_bytes(bytes@.subrange(0, 4 * Self::spec_dim() as int)),
    ;

    /// At least one channel, and few enough that the byte count of one value
    /// fits in a `u32`.
    proof fn lemma_dim_bounds()
        ensures
            0 < Self::spec_dim(),
            4 * Self::spec_dim() <= u32::MAX,
    ;

    /// Writing a value and reading the bytes back gives the value.
    proof fn lemma_le_bytes_roundtrip(v: Self)
        ensures
            v.spec_to_le_bytes().len() == 4 * Self::spec_dim(),
            Self::spec_from_le_bytes(v.spec_to_le_bytes()) == v,
    ;
}

/// One channel, held as the bit pattern of an `f32`.
impl Vector for u32 {
    open spec fn spec_dim() -> nat {
        1
    }

    open spec fn spec_to_le_bytes(&self) -> Seq<u8> {
        spec_u32_to_le_bytes(*self)
    }

    open spec fn spec_from_le_bytes(bytes: Seq<u8>) -> Self {
        spec_u32_from_le_bytes(bytes)
    }

    fn dim() -> (d: usize) {
        1
    }

    fn to_le_bytes(&self) -> (r: Vec<u8>) {
        u32_to_le_bytes(*self)
    }

    fn from_le_bytes(bytes: &[u8]) -> (r: Self) {
        u32_from_le_bytes(slice_subrange(bytes, 0, 4))
    }

    proof fn lemma_dim_bounds() {
    }

    proof fn lemma_le_bytes_roundtrip(v: Self) {
        vstd::bytes::lemma_auto_spec_u32_to_from_le_bytes();
        assert(spec_u32_to_le_bytes(v).len() == 4);
        assert(spec_u32_from_le_bytes(spec_u32_to_le_bytes(v)) == v);
    }
}

/// Two channels, `x` then `y`, each held as the bit pattern of an `f32`.
impl Vector for Vector2<u32> {
    open spec fn spec_dim() -> nat {
        2
    }

    open spec fn spec_to_le_bytes(&self) -> Seq<u8> {
        spec_u32_to_le_bytes(self.x) + spec_u32_to_le_bytes(self.y)
    }

    open spec fn spec_from_le_bytes(bytes: Seq<u8>) -> Self {
        Vector2 {
            x: spec_u32_from_le_bytes(bytes.subrange(0, 4)),
            y: spec_u32_from_le_bytes(bytes.subrange(4, 8)),
        }
    }

    fn dim() -> (d: usize) {
        2
    }

    fn to_le_bytes(&self) -> (r: Vec<u8>) {
        let mut r = u32_to_le_bytes(self.x);
        let mut rest = u32_to_le_bytes(self.y);
        r.append(&mut rest);
        r
    }

    fn from_le_bytes(bytes: &[u8]) -> (r: Self) {
        let x = u32_from_le_bytes(slice_subrange(bytes, 0, 4));
        let y = u32_from_le_bytes(slice_subrange(bytes, 4, 8));
        proof {
            assert(bytes@.subrange(0, 8).subrange(0, 4) == bytes@.subrange(0, 4));
            assert(bytes@.subrange(0, 8).subrange(4, 8) == bytes@.subrange(4, 8));
        }
        Vector2 { x, y }
    }

    proof fn lemma_dim_bounds() {
    }

    proof fn lemma_le_bytes_roundtrip(v: Self) {
        vstd::bytes::lemma_auto_spec_u32_to_from_le_bytes();
        let b = v.spec_to_le_bytes();
        assert(b.subrange(0, 4) == spec_u32_to_le_bytes(v.x));
        assert(b.subrange(4, 8) == spec_u32_to_le_bytes(v.y));
    }
}

} // verus!
