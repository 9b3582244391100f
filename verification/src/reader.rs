//! A mechanism for progressively reading parts from a packet buffer: an
//! immutable byte slice and a read position, with bounds-checked extraction
//! of big-endian 16-bit fields, null-terminated strings, and the rest of the
//! buffer. No operation ever reads past the end of the buffer.

use vstd::prelude::*;

use crate::wire::{first_null, has_null, lemma_first_null, u16_be};

verus! {

/// What `String::from_utf8_lossy` decodes a byte sequence to.
pub uninterp spec fn lossy_decode(b: Seq<u8>) -> Seq<char>;

/// The text a wire text field decodes to: valid UTF-8 decodes to exactly its
/// characters, and anything else is decoded permissively rather than
/// rejected.
pub open spec fn text_of(b: Seq<u8>) -> Seq<char> {
    if vstd::utf8::valid_utf8(b) {
        vstd::utf8::decode_utf8(b)
    } else {
        lossy_decode(b)
    }
}

/// Relies on `String::from_utf8_lossy`: the result depends on the bytes
/// alone, and bytes that are valid UTF-8 decode to exactly their characters;
/// invalid sequences are replaced, not rejected.
#[verifier::external_body]
fn lossy_string(bytes: &[u8]) -> (r: String)
    ensures
        r@ == lossy_decode(bytes@),
        vstd::utf8::valid_utf8(bytes@) ==> r@ == vstd::utf8::decode_utf8(bytes@),
{
    String::from_utf8_lossy(bytes).into_owned()
}

#[derive(Debug, PartialEq, Eq, Structural)]
pub enum Error {
    NotEnoughData,
    StringNotTerminated,
}

#[allow(non_camel_case_types)]
#[derive(Debug)]
pub struct reader<'a> {
    buf: &'a [u8],
    pos: usize,
}

impl<'a> reader<'a> {
    /// The whole underlying buffer.
    pub closed spec fn bytes(self) -> Seq<u8> {
        self.buf@
    }

    /// The current read position.
    pub closed spec fn position(self) -> int {
        self.pos as int
    }

    /// The position never runs past the end of the buffer.
    pub open spec fn wf(self) -> bool {
        0 <= self.position() <= self.bytes().len() && self.bytes().len() <= usize::MAX
    }

    pub fn new(buf: &'a [u8]) -> (r: Self)
        ensures
            r.bytes() == buf@,
            r.position() == 0,
            r.wf(),
    {
        proof {
            assert(vstd::slice::spec_slice_len(buf) == buf@.len());
        }
        Self { buf: buf, pos: 0 }
    }

    pub fn len(&self) -> (n: usize)
        ensures
            n == self.bytes().len(),
    {
        self.buf.len()
    }

    pub fn rem(&self) -> (n: usize)
        requires
            self.wf(),
        ensures
            n == self.bytes().len() - self.position(),
    {
        self.buf.len() - self.pos
    }

    /// Reads two bytes in big-endian order and advances by two; fails with
    /// `NotEnoughData`, leaving the position unchanged, if fewer than two
    /// bytes remain.
    pub fn take_u16(&mut self) -> (r: Result<u16, Error>)
        requires
            old(self).wf(),
        ensures
            final(self).wf(),
            final(self).bytes() == old(self).bytes(),
            ({
                let b = old(self).bytes();
                let p = old(self).position();
                if b.len() - p >= 2 {
                    r == Ok::<u16, Error>(u16_be(b[p], b[p + 1])) && final(self).position() == p
                        + 2
                } else {
                    r == Err::<u16, Error>(Error::NotEnoughData) && final(self).position() == p
                }
            }),
    {
        if self.rem() >= 2 {
            let hi = *vstd::slice::slice_index_get(self.buf, self.pos);
            let lo = *vstd::slice::slice_index_get(self.buf, self.pos + 1);
            let value: u16 = (hi as u16) * 256 + (lo as u16);
            self.pos = self.pos + 2;
            Ok(value)
        } else {
            Err(Error::NotEnoughData)
        }
    }

    /// Scans forward for a null byte; returns the bytes strictly before it,
    /// decoded permissively, and advances past the null. Fails with
    /// `StringNotTerminated`, leaving the position unchanged, if no null byte
    /// remains.
    pub fn take_string(&mut self) -> (r: Result<String, Error>)
        requires
            old(self).wf(),
        ensures
            final(self).wf(),
            final(self).bytes() == old(self).bytes(),
            ({
                let rest = old(self).bytes().skip(old(self).position());
                if has_null(rest) {
                    (r matches Ok(s) && s@ == text_of(rest.take(first_null(rest))))
                        && final(self).position() == old(self).position() + first_null(rest) + 1
                } else {
                    r == Err::<String, Error>(Error::StringNotTerminated) && final(self).position()
                        == old(self).position()
                }
            }),
    {
        let ghost b = self.buf@;
        let ghost p0 = self.pos as int;
        let ghost rest = b.skip(p0);
        let mut cur: usize = self.pos;
        while cur < self.buf.len()
            invariant
                self.wf(),
                self.buf@ == b,
                b == old(self).bytes(),
                self.pos as int == p0,
                p0 == old(self).position(),
                rest == b.skip(p0),
                p0 <= cur as int <= b.len(),
                forall|i: int| p0 <= i < cur as int ==> b[i] != 0u8,
            decreases b.len() - cur as int,
        {
            if *vstd::slice::slice_index_get(self.buf, cur) == 0u8 {
                proof {
                    assert(rest[cur - p0] == 0u8);
                    assert(has_null(rest));
                    lemma_first_null(rest);
                    assert forall|j: int| 0 <= j < cur - p0 implies rest[j] != 0u8 by {
                        assert(b[p0 + j] != 0u8);
                    }
                    assert(first_null(rest) == cur - p0);
                    assert(rest.take(cur - p0) =~= b.subrange(p0, cur as int));
                }
                let bytes = vstd::slice::slice_subrange(self.buf, self.pos, cur);
                let s = lossy_string(bytes);
                self.pos = cur + 1;
                return Ok(s);
            }
            cur = cur + 1;
        }
        proof {
            assert forall|i: int| 0 <= i < rest.len() implies rest[i] != 0u8 by {
                assert(b[p0 + i] != 0u8);
            }
        }
        Err(Error::StringNotTerminated)
    }

    /// Returns all remaining bytes as a borrowed slice and advances to the
    /// end of the buffer; an empty slice is a valid result.
    pub fn take_all(&mut self) -> (r: Result<&'a [u8], Error>)
        requires
            old(self).wf(),
        ensures
            final(self).wf(),
            final(self).bytes() == old(self).bytes(),
            final(self).position() == old(self).bytes().len(),
            r matches Ok(s) && s@ == old(self).bytes().skip(old(self).position()),
    {
        let ghost p0 = self.pos as int;
        let res = vstd::slice::slice_subrange(self.buf, self.pos, self.buf.len());
        self.pos = self.buf.len();
        proof {
            assert(res@ =~= self.buf@.skip(p0));
        }
        Ok(res)
    }
}

} // verus!
