//! A mechanism for progressively writing parts into a packet buffer: an
//! owned byte buffer of fixed capacity and a write position, with
//! bounds-checked insertion of big-endian 16-bit fields, null-terminated
//! strings (with validation), and raw byte slices. A failed operation leaves
//! both the buffer and the position unchanged.

use vstd::prelude::*;

use crate::wire::{be_hi, be_lo, has_null, str_bytes};

verus! {

#[derive(Debug, PartialEq, Eq, Structural)]
pub enum Error {
    NotEnoughSpace,
    StringNotASCII,
    StringContainsNull,
}

#[allow(non_camel_case_types)]
#[derive(Debug)]
pub struct writer {
    pub buf: Vec<u8>,
    pub pos: usize,
}

impl writer {
    /// The position never runs past the end of the buffer.
    pub open spec fn wf(self) -> bool {
        self.pos <= self.buf@.len() && self.buf@.len() <= usize::MAX
    }

    pub fn new(buf: Vec<u8>) -> (r: Self)
        ensures
            r.buf@ == buf@,
            r.pos == 0,
            r.wf(),
    {
        proof {
            assert(vstd::std_specs::vec::spec_vec_len(&buf) == buf@.len());
        }
        Self { buf: buf, pos: 0 }
    }

    pub fn len(&self) -> (n: usize)
        ensures
            n == self.buf@.len(),
    {
        self.buf.len()
    }

    pub fn rem(&self) -> (n: usize)
        requires
            self.wf(),
        ensures
            n == self.buf@.len() - self.pos,
    {
        self.buf.len() - self.pos
    }

    /// Writes two bytes in big-endian order and advances by two; fails with
    /// `NotEnoughSpace`, changing nothing, if fewer than two bytes remain.
    pub fn put_u16(&mut self, value: u16) -> (r: Result<(), Error>)
        requires
            old(self).wf(),
        ensures
            final(self).wf(),
            ({
                let b = old(self).buf@;
                let p = old(self).pos as int;
                let two = b.update(p, be_hi(value)).update(p + 1, be_lo(value));
                if b.len() - p >= 2 {
                    r == Ok::<(), Error>(()) && final(self).buf@ == two && final(self).pos == p + 2
                } else {
                    r == Err::<(), Error>(Error::NotEnoughSpace) && final(self).buf@ == b
                        && final(self).pos == old(self).pos
                }
            }),
    {
        if self.rem() >= 2 {
            let hi: u8 = (value / 256) as u8;
            let lo: u8 = (value % 256) as u8;
            let ghost b = self.buf@;
            let ghost p = self.pos as int;
            self.buf[self.pos] = hi;
            self.buf[self.pos + 1] = lo;
            self.pos = self.pos + 2;
            proof {
                assert(self.buf@ =~= b.update(p, be_hi(value)).update(p + 1, be_lo(value)));
            }
            Ok(())
        } else {
            Err(Error::NotEnoughSpace)
        }
    }

    /// Copies a raw slice and advances by its length; fails with
    /// `NotEnoughSpace`, changing nothing, if the slice does not fit in the
    /// remaining space.
    pub fn put_bytes(&mut self, bytes: &[u8]) -> (r: Result<(), Error>)
        requires
            old(self).wf(),
        ensures
            final(self).wf(),
            ({
                let b = old(self).buf@;
                let p = old(self).pos as int;
                let put = b.take(p) + bytes@ + b.skip(p + bytes@.len());
                if p + bytes@.len() <= b.len() {
                    r == Ok::<(), Error>(()) && final(self).buf@ == put && final(self).pos == p
                        + bytes@.len()
                } else {
                    r == Err::<(), Error>(Error::NotEnoughSpace) && final(self).buf@ == b
                        && final(self).pos == old(self).pos
                }
            }),
    {
        if bytes.len() > self.rem() {
            Err(Error::NotEnoughSpace)
        } else {
            let ghost b = self.buf@;
            let ghost p = self.pos as int;
            let mut i: usize = 0;
            while i < bytes.len()
                invariant
                    self.wf(),
                    self.pos as int == p,
                    i <= bytes@.len(),
                    p + bytes@.len() <= b.len(),
                    self.buf@.len() == b.len(),
                    forall|j: int|
                        0 <= j < b.len() && !(p <= j < p + i) ==> self.buf@[j] == b[j],
                    forall|j: int| 0 <= j < i ==> self.buf@[p + j] == bytes@[j],
                decreases bytes@.len() - i,
            {
                self.buf[self.pos + i] = *vstd::slice::slice_index_get(bytes, i);
                i = i + 1;
            }
            self.pos = self.pos + i;
            proof {
                assert(self.buf@ =~= b.take(p) + bytes@ + b.skip(p + bytes@.len()));
            }
            Ok(())
        }
    }

    /// Writes the text's bytes followed by a single null terminator and
    /// advances past it. Fails with `StringNotASCII` if any character is
    /// outside 7-bit ASCII, with `StringContainsNull` if the text already
    /// contains a null byte, and with `NotEnoughSpace` if there is no room
    /// for the text plus its terminator; a failure changes nothing.
    pub fn put_string(&mut self, value: &str) -> (r: Result<(), Error>)
        requires
            old(self).wf(),
        ensures
            final(self).wf(),
            ({
                let b = old(self).buf@;
                let p = old(self).pos as int;
                let sb = str_bytes(value@);
                let unchanged = final(self).buf@ == b && final(self).pos == old(self).pos;
                if !vstd::utf8::is_ascii_chars(value@) {
                    r == Err::<(), Error>(Error::StringNotASCII) && unchanged
                } else if has_null(sb) {
                    r == Err::<(), Error>(Error::StringContainsNull) && unchanged
                } else if p + sb.len() + 1 > b.len() {
                    r == Err::<(), Error>(Error::NotEnoughSpace) && unchanged
                } else {
                    r == Ok::<(), Error>(()) && final(self).buf@ == b.take(p) + sb + seq![0u8]
                        + b.skip(p + sb.len() + 1) && final(self).pos == p + sb.len() + 1
                }
            }),
    {
        broadcast use vstd::string::is_ascii_spec_bytes;

        if value.is_ascii() {
            let bytes = value.as_bytes();
            proof {
                assert(bytes@ =~= str_bytes(value@));
            }
            let mut i: usize = 0;
            while i < bytes.len()
                invariant
                    self.wf(),
                    self.buf@ == old(self).buf@,
                    self.pos == old(self).pos,
                    vstd::utf8::is_ascii_chars(value@),
                    bytes@ == str_bytes(value@),
                    i <= bytes@.len(),
                    forall|j: int| 0 <= j < i ==> bytes@[j] != 0u8,
                decreases bytes@.len() - i,
            {
                if *vstd::slice::slice_index_get(bytes, i) == 0u8 {
                    return Err(Error::StringContainsNull);
                }
                i = i + 1;
            }
            if bytes.len() >= self.rem() {
                Err(Error::NotEnoughSpace)
            } else {
                let ghost b = self.buf@;
                let ghost p = self.pos as int;
                let put = self.put_bytes(bytes);
                proof {
                    assert(put is Ok);
                }
                self.buf[self.pos] = 0u8;
                self.pos = self.pos + 1;
                proof {
                    assert(self.buf@ =~= b.take(p) + str_bytes(value@) + seq![0u8] + b.skip(
                        p + str_bytes(value@).len() + 1,
                    ));
                }
                Ok(())
            }
        } else {
            Err(Error::StringNotASCII)
        }
    }
}

} // verus!
