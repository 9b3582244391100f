//! The mathematical model of the wire format: big-endian 16-bit fields,
//! null-terminated text fields, and the byte sequences they occupy.

use vstd::prelude::*;

verus! {

/// The 16-bit value carried by two wire bytes, high byte first.
pub open spec fn u16_be(hi: u8, lo: u8) -> u16 {
    (hi * 256 + lo) as u16
}

/// High wire byte of a 16-bit value.
pub open spec fn be_hi(v: u16) -> u8 {
    (v / 256) as u8
}

/// Low wire byte of a 16-bit value.
pub open spec fn be_lo(v: u16) -> u8 {
    (v % 256) as u8
}

/// The two wire bytes of a 16-bit value, high byte first.
pub open spec fn be_bytes(v: u16) -> Seq<u8> {
    seq![be_hi(v), be_lo(v)]
}

pub proof fn lemma_be_bytes_roundtrip(v: u16)
    ensures
        u16_be(be_hi(v), be_lo(v)) == v,
{
}

/// The bytes of an ASCII text field: one byte per character.
pub open spec fn str_bytes(s: Seq<char>) -> Seq<u8> {
    Seq::new(s.len(), |i: int| s[i] as u8)
}

/// An ASCII byte with any upper-case letter folded to lower case.
pub open spec fn lower(b: u8) -> u8 {
    if 65 <= b <= 90 {
        (b + 32) as u8
    } else {
        b
    }
}

/// The wire bytes of the one recognized transfer mode, `octet`.
pub open spec fn octet_bytes() -> Seq<u8> {
    seq![111u8, 99u8, 116u8, 101u8, 116u8]
}

/// Whether `b` spells `octet` without regard to ASCII case.
pub open spec fn is_octet_bytes(b: Seq<u8>) -> bool {
    b.len() == 5 && (forall|i: int| 0 <= i < 5 ==> lower(b[i]) == octet_bytes()[i])
}

/// Whether a null byte occurs anywhere in `b`.
pub open spec fn has_null(b: Seq<u8>) -> bool {
    exists|i: int| 0 <= i < b.len() && b[i] == 0u8
}

/// Index of the first null byte of `b` (meaningful only when `has_null(b)`).
pub open spec fn first_null(b: Seq<u8>) -> int
    decreases b.len(),
{
    if b.len() == 0 {
        0
    } else if b[0] == 0u8 {
        0
    } else {
        1 + first_null(b.skip(1))
    }
}

pub proof fn lemma_first_null(b: Seq<u8>)
    requires
        has_null(b),
    ensures
        0 <= first_null(b) < b.len(),
        b[first_null(b)] == 0u8,
        forall|i: int| 0 <= i < first_null(b) ==> b[i] != 0u8,
    decreases b.len(),
{
    if b.len() > 0 && b[0] != 0u8 {
        assert(has_null(b.skip(1))) by {
            let w: int = choose|i: int| 0 <= i < b.len() && b[i] == 0u8;
            assert(b.skip(1)[w - 1] == 0u8);
        }
        lemma_first_null(b.skip(1));
        assert forall|i: int| 0 <= i < first_null(b) implies b[i] != 0u8 by {
            if i > 0 {
                assert(b.skip(1)[i - 1] != 0u8);
            }
        }
    }
}

/// A sequence with no null byte followed by a null terminator puts its first
/// null exactly at the boundary, whatever follows the terminator.
pub proof fn lemma_first_null_of_terminated(body: Seq<u8>, tail: Seq<u8>)
    requires
        forall|i: int| 0 <= i < body.len() ==> body[i] != 0u8,
    ensures
        has_null(body + seq![0u8] + tail),
        first_null(body + seq![0u8] + tail) == body.len(),
    decreases body.len(),
{
    let whole = body + seq![0u8] + tail;
    assert(whole[body.len() as int] == 0u8);
    if body.len() == 0 {
        assert(whole[0] == 0u8);
    } else {
        assert(whole[0] == body[0]);
        lemma_first_null_of_terminated(body.skip(1), tail);
        assert(whole.skip(1) =~= body.skip(1) + seq![0u8] + tail);
    }
}

} // verus!
