//! Bounded big-endian byte reader and writer.
//!
//! All multi-byte integers on the wire are big-endian.  The writer wraps a
//! fixed-size buffer and never grows it: a write that does not fit fails with
//! `TooLarge` and leaves the writer unchanged.  The reader walks a buffer
//! with a cursor: a read past the end fails with `TooSmall` and leaves the
//! reader unchanged.

use vstd::prelude::*;

verus! {

/// Why encoding a packet failed.
#[derive(Debug, Clone, Copy, PartialEq, Eq, Structural)]
pub enum PacketEncodingError {
    /// Not enough space in the destination buffer.
    TooLarge,
    /// The data does not validate (a string with an interior zero byte).
    Invalid,
}

/// Why decoding a packet failed.
#[derive(Debug, Clone, Copy, PartialEq, Eq, Structural)]
pub enum PacketDecodingError {
    /// More bytes were needed than were given.
    TooSmall,
    /// Unknown channel or tag, a malformed string, or a bad boolean.
    Invalid,
    /// The datagram's CRC does not match its contents.
    ChecksumMismatch,
}

/// The big-endian bytes of a `u16`.
pub open spec fn spec_be_u16(v: u16) -> Seq<u8> {
    seq![((v >> 8) & 0xff) as u8, (v & 0xff) as u8]
}

/// The big-endian bytes of a `u32`.
pub open spec fn spec_be_u32(v: u32) -> Seq<u8> {
    seq![
        ((v >> 24) & 0xff) as u8,
        ((v >> 16) & 0xff) as u8,
        ((v >> 8) & 0xff) as u8,
        (v & 0xff) as u8,
    ]
}

/// The big-endian bytes of a `u64`.
pub open spec fn spec_be_u64(v: u64) -> Seq<u8> {
    seq![
        ((v >> 56) & 0xff) as u8,
        ((v >> 48) & 0xff) as u8,
        ((v >> 40) & 0xff) as u8,
        ((v >> 32) & 0xff) as u8,
        ((v >> 24) & 0xff) as u8,
        ((v >> 16) & 0xff) as u8,
        ((v >> 8) & 0xff) as u8,
        (v & 0xff) as u8,
    ]
}

/// The `u16` read back from two big-endian bytes.
pub open spec fn spec_u16_of_be(b0: u8, b1: u8) -> u16 {
    (((b0 as u16) << 8) | (b1 as u16)) as u16
}

/// The `u32` read back from four big-endian bytes.
pub open spec fn spec_u32_of_be(b0: u8, b1: u8, b2: u8, b3: u8) -> u32 {
    (((b0 as u32) << 24) | ((b1 as u32) << 16) | ((b2 as u32) << 8) | (b3 as u32)) as u32
}

/// The `u64` read back from eight big-endian bytes.
pub open spec fn spec_u64_of_be(
    b0: u8,
    b1: u8,
    b2: u8,
    b3: u8,
    b4: u8,
    b5: u8,
    b6: u8,
    b7: u8,
) -> u64 {
    (((b0 as u64) << 56) | ((b1 as u64) << 48) | ((b2 as u64) << 40) | ((b3 as u64) << 32)
        | ((b4 as u64) << 24) | ((b5 as u64) << 16) | ((b6 as u64) << 8) | (b7 as u64)) as u64
}

/// Reading back the big-endian bytes of a `u16` gives the value again.
pub proof fn lemma_be_u16_roundtrip(v: u16)
    ensures
        spec_u16_of_be(spec_be_u16(v)[0], spec_be_u16(v)[1]) == v,
{
    assert((((((v >> 8) & 0xff) as u8) as u16) << 8 | (((v & 0xff) as u8) as u16)) as u16 == v)
        by (bit_vector);
}

/// Reading back the big-endian bytes of a `u32` gives the value again.
pub proof fn lemma_be_u32_roundtrip(v: u32)
    ensures
        spec_u32_of_be(spec_be_u32(v)[0], spec_be_u32(v)[1], spec_be_u32(v)[2], spec_be_u32(v)[3])
            == v,
{
    assert(((((((v >> 24) & 0xff) as u8) as u32) << 24) | (((((v >> 16) & 0xff) as u8) as u32)
        << 16) | (((((v >> 8) & 0xff) as u8) as u32) << 8) | (((v & 0xff) as u8) as u32)) as u32
        == v) by (bit_vector);
}

/// Reading back the big-endian bytes of a `u64` gives the value again.
pub proof fn lemma_be_u64_roundtrip(v: u64)
    ensures
        spec_u64_of_be(
            spec_be_u64(v)[0],
            spec_be_u64(v)[1],
            spec_be_u64(v)[2],
            spec_be_u64(v)[3],
            spec_be_u64(v)[4],
            spec_be_u64(v)[5],
            spec_be_u64(v)[6],
            spec_be_u64(v)[7],
        ) == v,
{
    assert(((((((v >> 56) & 0xff) as u8) as u64) << 56) | (((((v >> 48) & 0xff) as u8) as u64)
        << 48) | (((((v >> 40) & 0xff) as u8) as u64) << 40) | (((((v >> 32) & 0xff) as u8) as u64)
        << 32) | (((((v >> 24) & 0xff) as u8) as u64) << 24) | (((((v >> 16) & 0xff) as u8) as u64)
        << 16) | (((((v >> 8) & 0xff) as u8) as u64) << 8) | (((v & 0xff) as u8) as u64)) as u64
        == v) by (bit_vector);
}

/// A bounded writer over a fixed-size buffer.  Writes never grow the buffer.
pub struct PacketWriter {
    buf: Vec<u8>,
    index: usize,
}

impl PacketWriter {
    /// The cursor never passes the end of the buffer.
    pub closed spec fn wf(&self) -> bool {
        self.index <= self.buf@.len()
    }

    /// The bytes written so far, in order.
    pub closed spec fn written_bytes(&self) -> Seq<u8> {
        self.buf@.take(self.index as int)
    }

    /// The fixed size of the destination buffer.
    pub closed spec fn total_size(&self) -> int {
        self.buf@.len() as int
    }

    /// Wraps a destination buffer; writing starts at its first byte.
    pub fn new(destination: Vec<u8>) -> (w: PacketWriter)
        ensures
            w.wf(),
            w.written_bytes() == Seq::<u8>::empty(),
            w.total_size() == destination@.len(),
    {
        let w = PacketWriter { buf: destination, index: 0 };
        proof {
            assert(w.written_bytes() =~= Seq::<u8>::empty());
        }
        w
    }

    /// How many bytes have been written.
    pub fn written(&self) -> (n: usize)
        requires
            self.wf(),
        ensures
            n == self.written_bytes().len(),
    {
        self.index
    }

    /// A well-formed writer never holds more written bytes than its buffer.
    pub proof fn lemma_written_le_total(&self)
        requires
            self.wf(),
        ensures
            self.written_bytes().len() <= self.total_size(),
    {
    }

    /// How much room is left.
    pub fn available(&self) -> (n: usize)
        requires
            self.wf(),
        ensures
            n == self.total_size() - self.written_bytes().len(),
    {
        self.buf.len() - self.index
    }

    /// Hands the buffer back; its prefix holds the written bytes.
    pub fn into_buffer(self) -> (b: Vec<u8>)
        requires
            self.wf(),
        ensures
            b@.len() == self.total_size(),
            b@.take(self.written_bytes().len() as int) == self.written_bytes(),
    {
        self.buf
    }

    /// Writes one byte.
    pub fn write_u8(&mut self, v: u8) -> (r: Result<(), PacketEncodingError>)
        requires
            old(self).wf(),
        ensures
            final(self).wf(),
            final(self).total_size() == old(self).total_size(),
            old(self).written_bytes().len() + 1 <= old(self).total_size() ==> r is Ok,
            r is Ok ==> final(self).written_bytes() == old(self).written_bytes().push(v),
            r is Err ==> r == Result::<(), PacketEncodingError>::Err(
                PacketEncodingError::TooLarge,
            ) && *final(self) == *old(self) && old(self).written_bytes().len() + 1 > old(
                self,
            ).total_size(),
    {
        if self.index < self.buf.len() {
            self.buf[self.index] = v;
            self.index = self.index + 1;
            proof {
                assert(self.written_bytes() =~= old(self).written_bytes().push(v));
            }
            Ok(())
        } else {
            Err(PacketEncodingError::TooLarge)
        }
    }

    /// Writes a `u16` as two big-endian bytes.
    pub fn write_u16(&mut self, v: u16) -> (r: Result<(), PacketEncodingError>)
        requires
            old(self).wf(),
        ensures
            final(self).wf(),
            final(self).total_size() == old(self).total_size(),
            old(self).written_bytes().len() + 2 <= old(self).total_size() ==> r is Ok,
            r is Ok ==> final(self).written_bytes() == old(self).written_bytes() + spec_be_u16(v),
            r is Err ==> r == Result::<(), PacketEncodingError>::Err(
                PacketEncodingError::TooLarge,
            ) && *final(self) == *old(self) && old(self).written_bytes().len() + 2 > old(
                self,
            ).total_size(),
    {
        if self.available() < 2 {
            return Err(PacketEncodingError::TooLarge);
        }
        let b0: u8 = ((v >> 8) & 0xff) as u8;
        let b1: u8 = (v & 0xff) as u8;
        let r0 = self.write_u8(b0);
        let r1 = self.write_u8(b1);
        proof {
            assert(self.written_bytes() =~= old(self).written_bytes() + spec_be_u16(v));
        }
        Ok(())
    }

    /// Writes a `u32` as four big-endian bytes.
    pub fn write_u32(&mut self, v: u32) -> (r: Result<(), PacketEncodingError>)
        requires
            old(self).wf(),
        ensures
            final(self).wf(),
            final(self).total_size() == old(self).total_size(),
            old(self).written_bytes().len() + 4 <= old(self).total_size() ==> r is Ok,
            r is Ok ==> final(self).written_bytes() == old(self).written_bytes() + spec_be_u32(v),
            r is Err ==> r == Result::<(), PacketEncodingError>::Err(
                PacketEncodingError::TooLarge,
            ) && *final(self) == *old(self) && old(self).written_bytes().len() + 4 > old(
                self,
            ).total_size(),
    {
        if self.available() < 4 {
            return Err(PacketEncodingError::TooLarge);
        }
        let b0: u8 = ((v >> 24) & 0xff) as u8;
        let b1: u8 = ((v >> 16) & 0xff) as u8;
        let b2: u8 = ((v >> 8) & 0xff) as u8;
        let b3: u8 = (v & 0xff) as u8;
        let r0 = self.write_u8(b0);
        let r1 = self.write_u8(b1);
        let r2 = self.write_u8(b2);
        let r3 = self.write_u8(b3);
        proof {
            assert(self.written_bytes() =~= old(self).written_bytes() + spec_be_u32(v));
        }
        Ok(())
    }

    /// Writes a `u64` as eight big-endian bytes.
    pub fn write_u64(&mut self, v: u64) -> (r: Result<(), PacketEncodingError>)
        requires
            old(self).wf(),
        ensures
            final(self).wf(),
            final(self).total_size() == old(self).total_size(),
            old(self).written_bytes().len() + 8 <= old(self).total_size() ==> r is Ok,
            r is Ok ==> final(self).written_bytes() == old(self).written_bytes() + spec_be_u64(v),
            r is Err ==> r == Result::<(), PacketEncodingError>::Err(
                PacketEncodingError::TooLarge,
            ) && *final(self) == *old(self) && old(self).written_bytes().len() + 8 > old(
                self,
            ).total_size(),
    {
        if self.available() < 8 {
            return Err(PacketEncodingError::TooLarge);
        }
        let b0: u8 = ((v >> 56) & 0xff) as u8;
        let b1: u8 = ((v >> 48) & 0xff) as u8;
        let b2: u8 = ((v >> 40) & 0xff) as u8;
        let b3: u8 = ((v >> 32) & 0xff) as u8;
        let b4: u8 = ((v >> 24) & 0xff) as u8;
        let b5: u8 = ((v >> 16) & 0xff) as u8;
        let b6: u8 = ((v >> 8) & 0xff) as u8;
        let b7: u8 = (v & 0xff) as u8;
        let r0 = self.write_u8(b0);
        let r1 = self.write_u8(b1);
        let r2 = self.write_u8(b2);
        let r3 = self.write_u8(b3);
        let r4 = self.write_u8(b4);
        let r5 = self.write_u8(b5);
        let r6 = self.write_u8(b6);
        let r7 = self.write_u8(b7);
        proof {
            assert(self.written_bytes() =~= old(self).written_bytes() + spec_be_u64(v));
        }
        Ok(())
    }

    /// Writes a channel number as a big-endian `i16` (two's complement).
    pub fn write_i16(&mut self, v: i16) -> (r: Result<(), PacketEncodingError>)
        requires
            old(self).wf(),
        ensures
            final(self).wf(),
            final(self).total_size() == old(self).total_size(),
            old(self).written_bytes().len() + 2 <= old(self).total_size() ==> r is Ok,
            r is Ok ==> final(self).written_bytes() == old(self).written_bytes() + spec_be_u16(
                v as u16,
            ),
            r is Err ==> r == Result::<(), PacketEncodingError>::Err(
                PacketEncodingError::TooLarge,
            ) && *final(self) == *old(self) && old(self).written_bytes().len() + 2 > old(
                self,
            ).total_size(),
    {
        self.write_u16(v as u16)
    }

    /// Writes all the given bytes, or nothing when they do not fit.
    pub fn write_bytes(&mut self, data: &Vec<u8>) -> (r: Result<(), PacketEncodingError>)
        requires
            old(self).wf(),
        ensures
            final(self).wf(),
            final(self).total_size() == old(self).total_size(),
            old(self).written_bytes().len() + data@.len() <= old(self).total_size() ==> r is Ok,
            r is Ok ==> final(self).written_bytes() == old(self).written_bytes() + data@,
            r is Err ==> r == Result::<(), PacketEncodingError>::Err(
                PacketEncodingError::TooLarge,
            ) && *final(self) == *old(self) && old(self).written_bytes().len() + data@.len() > old(
                self,
            ).total_size(),
    {
        if self.available() < data.len() {
            return Err(PacketEncodingError::TooLarge);
        }
        let mut i: usize = 0;
        while i < data.len()
            invariant
                i <= data@.len(),
                self.wf(),
                self.total_size() == old(self).total_size(),
                old(self).written_bytes().len() + data@.len() <= old(self).total_size(),
                self.written_bytes() == old(self).written_bytes() + data@.take(i as int),
            decreases data@.len() - i,
        {
            let r = self.write_u8(data[i]);
            proof {
                assert(self.written_bytes() =~= old(self).written_bytes() + data@.take(
                    i as int + 1,
                ));
            }
            i = i + 1;
        }
        proof {
            assert(data@.take(data@.len() as int) =~= data@);
        }
        Ok(())
    }
}

/// A cursor over a received buffer.
pub struct PacketReader {
    buf: Vec<u8>,
    index: usize,
}

impl PacketReader {
    /// The cursor never passes the end of the buffer.
    pub closed spec fn wf(&self) -> bool {
        self.index <= self.buf@.len()
    }

    /// The whole underlying buffer.
    pub closed spec fn data(&self) -> Seq<u8> {
        self.buf@
    }

    /// The bytes not yet consumed.
    pub closed spec fn remaining_bytes(&self) -> Seq<u8> {
        self.buf@.skip(self.index as int)
    }

    /// Wraps a source buffer; reading starts at its first byte.
    pub fn new(source: Vec<u8>) -> (rd: PacketReader)
        ensures
            rd.wf(),
            rd.data() == source@,
            rd.remaining_bytes() == source@,
    {
        let rd = PacketReader { buf: source, index: 0 };
        proof {
            assert(rd.remaining_bytes() =~= rd.buf@);
        }
        rd
    }

    /// How many bytes are left to read.
    pub fn available(&self) -> (n: usize)
        requires
            self.wf(),
        ensures
            n == self.remaining_bytes().len(),
    {
        self.buf.len() - self.index
    }

    /// How many bytes have been consumed.
    pub fn read_count(&self) -> (n: usize)
        requires
            self.wf(),
        ensures
            n == self.data().len() - self.remaining_bytes().len(),
    {
        self.index
    }

    /// Reads one byte.
    pub fn read_u8(&mut self) -> (r: Result<u8, PacketDecodingError>)
        requires
            old(self).wf(),
        ensures
            final(self).wf(),
            final(self).data() == old(self).data(),
            old(self).remaining_bytes().len() >= 1 ==> r == Result::<
                u8,
                PacketDecodingError,
            >::Ok(old(self).remaining_bytes()[0]) && final(self).remaining_bytes() == old(
                self,
            ).remaining_bytes().skip(1),
            old(self).remaining_bytes().len() == 0 ==> r == Result::<
                u8,
                PacketDecodingError,
            >::Err(PacketDecodingError::TooSmall) && *final(self) == *old(self),
    {
        if self.index < self.buf.len() {
            let b = self.buf[self.index];
            self.index = self.index + 1;
            proof {
                assert(self.remaining_bytes() =~= old(self).remaining_bytes().skip(1));
            }
            Ok(b)
        } else {
            Err(PacketDecodingError::TooSmall)
        }
    }

    /// Reads a big-endian `u16`, or fails leaving the reader unchanged.
    pub fn read_u16(&mut self) -> (r: Result<u16, PacketDecodingError>)
        requires
            old(self).wf(),
        ensures
            final(self).wf(),
            final(self).data() == old(self).data(),
            old(self).remaining_bytes().len() >= 2 ==> r == Result::<
                u16,
                PacketDecodingError,
            >::Ok(
                spec_u16_of_be(old(self).remaining_bytes()[0], old(self).remaining_bytes()[1]),
            ) && final(self).remaining_bytes() == old(self).remaining_bytes().skip(2),
            old(self).remaining_bytes().len() < 2 ==> r == Result::<
                u16,
                PacketDecodingError,
            >::Err(PacketDecodingError::TooSmall) && *final(self) == *old(self),
    {
        if self.available() < 2 {
            return Err(PacketDecodingError::TooSmall);
        }
        let b0 = match self.read_u8() {
            Ok(b) => b,
            Err(e) => { return Err(e) },
        };
        let b1 = match self.read_u8() {
            Ok(b) => b,
            Err(e) => { return Err(e) },
        };
        let v: u16 = ((b0 as u16) << 8) | (b1 as u16);
        proof {
            assert(self.remaining_bytes() =~= old(self).remaining_bytes().skip(2));
        }
        Ok(v)
    }

    /// Reads a big-endian `u32`, or fails leaving the reader unchanged.
    pub fn read_u32(&mut self) -> (r: Result<u32, PacketDecodingError>)
        requires
            old(self).wf(),
        ensures
            final(self).wf(),
            final(self).data() == old(self).data(),
            old(self).remaining_bytes().len() >= 4 ==> r == Result::<
                u32,
                PacketDecodingError,
            >::Ok(
                spec_u32_of_be(
                    old(self).remaining_bytes()[0],
                    old(self).remaining_bytes()[1],
                    old(self).remaining_bytes()[2],
                    old(self).remaining_bytes()[3],
                ),
            ) && final(self).remaining_bytes() == old(self).remaining_bytes().skip(4),
            old(self).remaining_bytes().len() < 4 ==> r == Result::<
                u32,
                PacketDecodingError,
            >::Err(PacketDecodingError::TooSmall) && *final(self) == *old(self),
    {
        if self.available() < 4 {
            return Err(PacketDecodingError::TooSmall);
        }
        let b0 = match self.read_u8() {
            Ok(b) => b,
            Err(e) => { return Err(e) },
        };
        let b1 = match self.read_u8() {
            Ok(b) => b,
            Err(e) => { return Err(e) },
        };
        let b2 = match self.read_u8() {
            Ok(b) => b,
            Err(e) => { return Err(e) },
        };
        let b3 = match self.read_u8() {
            Ok(b) => b,
            Err(e) => { return Err(e) },
        };
        let v: u32 = ((b0 as u32) << 24) | ((b1 as u32) << 16) | ((b2 as u32) << 8) | (b3 as u32);
        proof {
            assert(self.remaining_bytes() =~= old(self).remaining_bytes().skip(4));
        }
        Ok(v)
    }

    /// Reads a big-endian `u64`, or fails leaving the reader unchanged.
    pub fn read_u64(&mut self) -> (r: Result<u64, PacketDecodingError>)
        requires
            old(self).wf(),
        ensures
            final(self).wf(),
            final(self).data() == old(self).data(),
            old(self).remaining_bytes().len() >= 8 ==> r == Result::<
                u64,
                PacketDecodingError,
            >::Ok(
                spec_u64_of_be(
                    old(self).remaining_bytes()[0],
                    old(self).remaining_bytes()[1],
                    old(self).remaining_bytes()[2],
                    old(self).remaining_bytes()[3],
                    old(self).remaining_bytes()[4],
                    old(self).remaining_bytes()[5],
                    old(self).remaining_bytes()[6],
                    old(self).remaining_bytes()[7],
                ),
            ) && final(self).remaining_bytes() == old(self).remaining_bytes().skip(8),
            old(self).remaining_bytes().len() < 8 ==> r == Result::<
                u64,
                PacketDecodingError,
            >::Err(PacketDecodingError::TooSmall) && *final(self) == *old(self),
    {
        if self.available() < 8 {
            return Err(PacketDecodingError::TooSmall);
        }
        let hi = match self.read_u32() {
            Ok(b) => b,
            Err(e) => { return Err(e) },
        };
        let lo = match self.read_u32() {
            Ok(b) => b,
            Err(e) => { return Err(e) },
        };
        let v: u64 = ((hi as u64) << 32) | (lo as u64);
        proof {
            assert(self.remaining_bytes() =~= old(self).remaining_bytes().skip(8));
            let b = old(self).remaining_bytes();
            assert(((spec_u32_of_be(b[0], b[1], b[2], b[3]) as u64) << 32 | (spec_u32_of_be(
                b[4],
                b[5],
                b[6],
                b[7],
            ) as u64)) as u64 == spec_u64_of_be(
                b[0],
                b[1],
                b[2],
                b[3],
                b[4],
                b[5],
                b[6],
                b[7],
            )) by {
                lemma_u64_of_u32_halves(b[0], b[1], b[2], b[3], b[4], b[5], b[6], b[7]);
            }
        }
        Ok(v)
    }

    /// Reads a big-endian `i16` (two's complement).
    pub fn read_i16(&mut self) -> (r: Result<i16, PacketDecodingError>)
        requires
            old(self).wf(),
        ensures
            final(self).wf(),
            final(self).data() == old(self).data(),
            old(self).remaining_bytes().len() >= 2 ==> r == Result::<
                i16,
                PacketDecodingError,
            >::Ok(
                spec_u16_of_be(old(self).remaining_bytes()[0], old(self).remaining_bytes()[1])
                    as i16,
            ) && final(self).remaining_bytes() == old(self).remaining_bytes().skip(2),
            old(self).remaining_bytes().len() < 2 ==> r == Result::<
                i16,
                PacketDecodingError,
            >::Err(PacketDecodingError::TooSmall) && *final(self) == *old(self),
    {
        match self.read_u16() {
            Ok(v) => Ok(v as i16),
            Err(e) => Err(e),
        }
    }

    /// Reads a zero-terminated string: everything up to the first zero
    /// byte, consuming the terminator too.  The bytes must be well-formed
    /// UTF-8, else the string is malformed: `Invalid`.  Running out of
    /// bytes before a terminator is an underflow: `TooSmall`.  On failure
    /// nothing is consumed.
    pub fn read_string_bytes(&mut self) -> (r: Result<Vec<u8>, PacketDecodingError>)
        requires
            old(self).wf(),
        ensures
            final(self).wf(),
            final(self).data() == old(self).data(),
            match spec_find_nul(old(self).remaining_bytes()) {
                Some(i) => if spec_valid_utf8(old(self).remaining_bytes().take(i)) {
                    r matches Ok(s) && s@ == old(self).remaining_bytes().take(i)
                        && final(self).remaining_bytes() == old(self).remaining_bytes().skip(i + 1)
                } else {
                    r == Result::<Vec<u8>, PacketDecodingError>::Err(PacketDecodingError::Invalid)
                        && *final(self) == *old(self)
                },
                None => r == Result::<Vec<u8>, PacketDecodingError>::Err(
                    PacketDecodingError::TooSmall,
                ) && *final(self) == *old(self),
            },
    {
        let mut j: usize = self.index;
        while j < self.buf.len() && self.buf[j] != 0
            invariant
                self.wf(),
                self.index <= j <= self.buf@.len(),
                forall|k: int| self.index <= k < j ==> self.buf@[k] != 0,
            decreases self.buf@.len() - j,
        {
            j = j + 1;
        }
        if j == self.buf.len() {
            proof {
                lemma_find_nul_none(self.remaining_bytes());
            }
            return Err(PacketDecodingError::TooSmall);
        }
        proof {
            lemma_find_nul_found(self.remaining_bytes(), j - self.index);
        }
        let mut out: Vec<u8> = Vec::new();
        let mut i: usize = self.index;
        while i < j
            invariant
                self.wf(),
                self.buf@ == old(self).buf@,
                self.index <= i <= j <= self.buf@.len(),
                self.index == old(self).index,
                out@ == self.buf@.subrange(self.index as int, i as int),
            decreases j - i,
        {
            out.push(self.buf[i]);
            i = i + 1;
            proof {
                assert(out@ =~= self.buf@.subrange(self.index as int, i as int));
            }
        }
        proof {
            assert(out@ =~= old(self).remaining_bytes().take(j - old(self).index));
        }
        if !is_valid_utf8(&out) {
            return Err(PacketDecodingError::Invalid);
        }
        self.index = j + 1;
        proof {
            assert(self.remaining_bytes() =~= old(self).remaining_bytes().skip(
                j - old(self).index + 1,
            ));
        }
        Ok(out)
    }

    /// Consumes everything left and returns it.
    pub fn read_remaining(&mut self) -> (r: Vec<u8>)
        requires
            old(self).wf(),
        ensures
            final(self).wf(),
            final(self).data() == old(self).data(),
            r@ == old(self).remaining_bytes(),
            final(self).remaining_bytes().len() == 0,
    {
        let mut out: Vec<u8> = Vec::new();
        while self.index < self.buf.len()
            invariant
                self.wf(),
                self.buf@ == old(self).buf@,
                self.index >= old(self).index,
                out@ == self.buf@.subrange(old(self).index as int, self.index as int),
            decreases self.buf@.len() - self.index,
        {
            out.push(self.buf[self.index]);
            self.index = self.index + 1;
            proof {
                assert(out@ =~= self.buf@.subrange(old(self).index as int, self.index as int));
            }
        }
        proof {
            assert(out@ =~= old(self).remaining_bytes());
            assert(self.remaining_bytes().len() == 0);
        }
        out
    }
}

/// Position of the first zero byte, if any.
pub open spec fn spec_find_nul(b: Seq<u8>) -> Option<int>
    decreases b.len(),
{
    if b.len() == 0 {
        None
    } else if b[0] == 0 {
        Some(0)
    } else {
        match spec_find_nul(b.skip(1)) {
            Some(i) => Some(i + 1),
            None => None,
        }
    }
}

/// A zero byte preceded only by non-zero bytes is the first one.
pub proof fn lemma_find_nul_found(b: Seq<u8>, i: int)
    requires
        0 <= i < b.len(),
        b[i] == 0,
        forall|k: int| 0 <= k < i ==> b[k] != 0,
    ensures
        spec_find_nul(b) == Some(i),
    decreases i,
{
    if i == 0 {
    } else {
        lemma_find_nul_found(b.skip(1), i - 1);
    }
}

/// Without a zero byte nothing is found.
pub proof fn lemma_find_nul_none(b: Seq<u8>)
    requires
        forall|k: int| 0 <= k < b.len() ==> b[k] != 0,
    ensures
        spec_find_nul(b) is None,
    decreases b.len(),
{
    if b.len() > 0 {
        lemma_find_nul_none(b.skip(1));
    }
}

/// A UTF-8 continuation byte.
pub open spec fn spec_utf8_cont(b: u8) -> bool {
    0x80 <= b <= 0xBF
}

/// Whether the bytes are well-formed UTF-8, by the shortest-form encoding
/// table: one byte below 0x80; a two-byte lead in 0xC2..=0xDF; three-byte
/// leads 0xE0 (second byte 0xA0..=0xBF), 0xE1..=0xEC, 0xED (second byte
/// 0x80..=0x9F, excluding surrogates) and 0xEE..=0xEF; four-byte leads 0xF0
/// (second byte 0x90..=0xBF), 0xF1..=0xF3 and 0xF4 (second byte
/// 0x80..=0x8F, capping at U+10FFFF); every later byte of a sequence a
/// continuation byte.
pub open spec fn spec_valid_utf8(s: Seq<u8>) -> bool
    decreases s.len(),
{
    if s.len() == 0 {
        true
    } else {
        let b0 = s[0];
        if b0 < 0x80 {
            spec_valid_utf8(s.skip(1))
        } else if 0xC2 <= b0 && b0 <= 0xDF {
            s.len() >= 2 && spec_utf8_cont(s[1]) && spec_valid_utf8(s.skip(2))
        } else if b0 == 0xE0 {
            s.len() >= 3 && 0xA0 <= s[1] && s[1] <= 0xBF && spec_utf8_cont(s[2])
                && spec_valid_utf8(s.skip(3))
        } else if 0xE1 <= b0 && b0 <= 0xEC {
            s.len() >= 3 && spec_utf8_cont(s[1]) && spec_utf8_cont(s[2]) && spec_valid_utf8(
                s.skip(3),
            )
        } else if b0 == 0xED {
            s.len() >= 3 && 0x80 <= s[1] && s[1] <= 0x9F && spec_utf8_cont(s[2])
                && spec_valid_utf8(s.skip(3))
        } else if 0xEE <= b0 && b0 <= 0xEF {
            s.len() >= 3 && spec_utf8_cont(s[1]) && spec_utf8_cont(s[2]) && spec_valid_utf8(
                s.skip(3),
            )
        } else if b0 == 0xF0 {
            s.len() >= 4 && 0x90 <= s[1] && s[1] <= 0xBF && spec_utf8_cont(s[2]) && spec_utf8_cont(
                s[3],
            ) && spec_valid_utf8(s.skip(4))
        } else if 0xF1 <= b0 && b0 <= 0xF3 {
            s.len() >= 4 && spec_utf8_cont(s[1]) && spec_utf8_cont(s[2]) && spec_utf8_cont(s[3])
                && spec_valid_utf8(s.skip(4))
        } else if b0 == 0xF4 {
            s.len() >= 4 && 0x80 <= s[1] && s[1] <= 0x8F && spec_utf8_cont(s[2]) && spec_utf8_cont(
                s[3],
            ) && spec_valid_utf8(s.skip(4))
        } else {
            false
        }
    }
}

/// Whether the bytes are well-formed UTF-8.
pub fn is_valid_utf8(s: &Vec<u8>) -> (r: bool)
    ensures
        r == spec_valid_utf8(s@),
{
    let n = s.len();
    let mut i: usize = 0;
    proof {
        assert(s@.skip(0) =~= s@);
    }
    while i < n
        invariant
            i <= n,
            n == s@.len(),
            spec_valid_utf8(s@) == spec_valid_utf8(s@.skip(i as int)),
        decreases n - i,
    {
        let ghost rest = s@.skip(i as int);
        proof {
            assert(rest.len() == n - i);
            assert(forall|k: int| 0 <= k < rest.len() ==> rest[k] == s@[i + k]);
        }
        let b0 = s[i];
        let width: usize = if b0 < 0x80 {
            1
        } else if 0xC2 <= b0 && b0 <= 0xDF {
            if n - i < 2 || !(0x80 <= s[i + 1] && s[i + 1] <= 0xBF) {
                return false;
            }
            2
        } else if b0 == 0xE0 {
            if n - i < 3 || !(0xA0 <= s[i + 1] && s[i + 1] <= 0xBF) || !(0x80 <= s[i + 2] && s[i
                + 2] <= 0xBF) {
                return false;
            }
            3
        } else if (0xE1 <= b0 && b0 <= 0xEC) || (0xEE <= b0 && b0 <= 0xEF) {
            if n - i < 3 || !(0x80 <= s[i + 1] && s[i + 1] <= 0xBF) || !(0x80 <= s[i + 2] && s[i
                + 2] <= 0xBF) {
                return false;
            }
            3
        } else if b0 == 0xED {
            if n - i < 3 || !(0x80 <= s[i + 1] && s[i + 1] <= 0x9F) || !(0x80 <= s[i + 2] && s[i
                + 2] <= 0xBF) {
                return false;
            }
            3
        } else if b0 == 0xF0 {
            if n - i < 4 || !(0x90 <= s[i + 1] && s[i + 1] <= 0xBF) || !(0x80 <= s[i + 2] && s[i
                + 2] <= 0xBF) || !(0x80 <= s[i + 3] && s[i + 3] <= 0xBF) {
                return false;
            }
            4
        } else if 0xF1 <= b0 && b0 <= 0xF3 {
            if n - i < 4 || !(0x80 <= s[i + 1] && s[i + 1] <= 0xBF) || !(0x80 <= s[i + 2] && s[i
                + 2] <= 0xBF) || !(0x80 <= s[i + 3] && s[i + 3] <= 0xBF) {
                return false;
            }
            4
        } else if b0 == 0xF4 {
            if n - i < 4 || !(0x80 <= s[i + 1] && s[i + 1] <= 0x8F) || !(0x80 <= s[i + 2] && s[i
                + 2] <= 0xBF) || !(0x80 <= s[i + 3] && s[i + 3] <= 0xBF) {
                return false;
            }
            4
        } else {
            return false;
        };
        proof {
            assert(rest.skip(width as int) =~= s@.skip(i + width));
        }
        i = i + width;
    }
    proof {
        assert(s@.skip(n as int) =~= Seq::<u8>::empty());
    }
    true
}

/// A `u64` is its two `u32` halves shifted together.
proof fn lemma_u64_of_u32_halves(b0: u8, b1: u8, b2: u8, b3: u8, b4: u8, b5: u8, b6: u8, b7: u8)
    ensures
        ((spec_u32_of_be(b0, b1, b2, b3) as u64) << 32 | (spec_u32_of_be(b4, b5, b6, b7) as u64))
            as u64 == spec_u64_of_be(b0, b1, b2, b3, b4, b5, b6, b7),
{
    assert(((((((b0 as u32) << 24) | ((b1 as u32) << 16) | ((b2 as u32) << 8) | (b3 as u32)) as u32
        as u64) << 32) | ((((b4 as u32) << 24) | ((b5 as u32) << 16) | ((b6 as u32) << 8) | (
    b7 as u32)) as u32 as u64)) as u64 == (((b0 as u64) << 56) | ((b1 as u64) << 48) | ((
    b2 as u64) << 40) | ((b3 as u64) << 32) | ((b4 as u64) << 24) | ((b5 as u64) << 16) | ((
    b6 as u64) << 8) | (b7 as u64)) as u64) by (bit_vector);
}

} // verus!
