//! The binary stream reader: an in-memory byte source with a cursor and a
//! bit carry, offering byte-level and bit-level decoding primitives.

use vstd::prelude::*;

use std::rc::Rc;

use vstd::arithmetic::power2::pow2;

use crate::errors::KError;
use crate::errors::KResult;

verus! {

/// Relies on `Rc::clone`: the returned handle shares the same vector as the
/// argument, so both views are equal.
#[verifier::external_body]
fn rc_clone_bytes(rc: &Rc<Vec<u8>>) -> (r: Rc<Vec<u8>>)
    ensures
        r@ == rc@,
{
    Rc::clone(rc)
}

/// Relies on `Rc::as_ref`: borrowing the shared vector yields the vector the
/// handle points at.
#[verifier::external_body]
fn rc_bytes(rc: &Rc<Vec<u8>>) -> (r: &Vec<u8>)
    ensures
        r@ == rc@,
{
    rc.as_ref()
}

/// How many bytes a bit read of `n` bits must fetch when `carried` bits are
/// already held: none when the carry suffices, else enough whole bytes to
/// cover the missing bits.
pub open spec fn bytes_needed(n: int, carried: int) -> int {
    if n <= carried {
        0
    } else {
        (n - carried - 1) / 8 + 1
    }
}

/// `2^k` as a machine word.
fn pow2_u64(k: usize) -> (r: u64)
    requires
        k < 64,
    ensures
        r as nat == pow2(k as nat),
        r >= 1,
{
    proof {
        vstd::arithmetic::power2::lemma_pow2_pos(k as nat);
        vstd::bits::lemma_u64_pow2_no_overflow(k as nat);
        vstd::bits::lemma_u64_shl_is_mul(1u64, k as u64);
    }
    1u64 << (k as u64)
}

/// Cursor state of a reader: a byte position plus the bit carry left over
/// from the last unaligned bit read.
#[derive(Debug)]
pub struct ReaderState {
    pos: usize,
    bits: u64,
    bits_left: usize,
}

/// An in-memory byte source with a cursor and a bit carry. Clones share the
/// same underlying bytes but carry an independent cursor.
#[derive(Debug)]
pub struct BytesReader {
    state: ReaderState,
    data: Rc<Vec<u8>>,
}

impl BytesReader {
    /// The bytes of the source.
    pub closed spec fn src(&self) -> Seq<u8> {
        self.data@
    }

    /// The cursor's byte offset.
    pub closed spec fn posn(&self) -> int {
        self.state.pos as int
    }

    /// Value of the bits carried over from the last unaligned bit read.
    pub closed spec fn carry(&self) -> nat {
        self.state.bits as nat
    }

    /// How many bits are carried over.
    pub closed spec fn carry_len(&self) -> nat {
        self.state.bits_left as nat
    }

    /// How many bytes are left between the cursor and the end of the source.
    pub open spec fn avail(&self) -> int {
        self.src().len() - self.posn()
    }

    /// The cursor's position counted in bits: carried bits sit just before
    /// the byte at `posn`.
    pub open spec fn bit_pos(&self) -> int {
        8 * self.posn() - self.carry_len()
    }

    /// Well-formedness: the cursor stays inside the source and the carry
    /// holds fewer than eight bits.
    pub open spec fn wf(&self) -> bool {
        &&& self.posn() <= self.src().len()
        &&& self.carry_len() < 8
        &&& self.carry() < pow2(self.carry_len())
        &&& self.carry_len() <= 8 * self.posn()
    }

    /// The carry holds exactly the stream bits between `bit_pos` and the
    /// byte boundary, in big-endian bit order.
    pub open spec fn carry_matches_be(&self) -> bool {
        self.carry() == crate::bitvals::bits_be(self.src(), self.bit_pos(), self.carry_len())
    }

    /// The carry holds exactly the stream bits between `bit_pos` and the
    /// byte boundary, in little-endian bit order.
    pub open spec fn carry_matches_le(&self) -> bool {
        self.carry() == crate::bitvals::bits_le(self.src(), self.bit_pos(), self.carry_len())
    }

    /// A reader over the given bytes, with the cursor at the start.
    pub fn from(bytes: Vec<u8>) -> (r: BytesReader)
        ensures
            r.src() == bytes@,
            r.posn() == 0,
            r.carry() == 0,
            r.carry_len() == 0,
            r.wf(),
    {
        let r = BytesReader { state: ReaderState { pos: 0, bits: 0, bits_left: 0 }, data: Rc::new(
            bytes,
        ) };
        proof {
            vstd::arithmetic::power2::lemma2_to64();
        }
        r
    }

    /// A second handle on the same bytes. The cursor and the bit carry are
    /// copied, and move independently afterwards.
    pub fn clone(&self) -> (r: BytesReader)
        ensures
            r.src() == self.src(),
            r.posn() == self.posn(),
            r.carry() == self.carry(),
            r.carry_len() == self.carry_len(),
            self.wf() ==> r.wf(),
    {
        BytesReader {
            state: ReaderState {
                pos: self.state.pos,
                bits: self.state.bits,
                bits_left: self.state.bits_left,
            },
            data: rc_clone_bytes(&self.data),
        }
    }

    /// Total length of the source in bytes.
    pub fn size(&self) -> (r: usize)
        ensures
            r == self.src().len(),
    {
        rc_bytes(&self.data).len()
    }

    /// The cursor's byte offset.
    pub fn pos(&self) -> (r: usize)
        ensures
            r == self.posn(),
    {
        self.state.pos
    }

    /// True when the cursor is at the end of the source and no carried bits
    /// remain.
    pub fn is_eof(&self) -> (r: bool)
        requires
            self.wf(),
        ensures
            r == (self.posn() == self.src().len() && self.carry_len() == 0),
    {
        if self.state.bits_left > 0 {
            return false;
        }
        self.state.pos >= rc_bytes(&self.data).len()
    }

    /// Discard any carried bits, so the next read starts at the byte under
    /// the cursor.
    pub fn align_to_byte(&mut self)
        ensures
            final(self).src() == old(self).src(),
            final(self).posn() == old(self).posn(),
            final(self).carry() == 0,
            final(self).carry_len() == 0,
            old(self).wf() ==> final(self).wf(),
    {
        self.state.bits = 0;
        self.state.bits_left = 0;
        proof {
            vstd::arithmetic::power2::lemma2_to64();
        }
    }

    /// Move the cursor to the given byte offset, discarding any carried
    /// bits. Fails, leaving the reader unchanged, when the offset lies past
    /// the end of the source.
    pub fn seek(&mut self, position: usize) -> (r: KResult<()>)
        requires
            old(self).wf(),
        ensures
            final(self).wf(),
            final(self).src() == old(self).src(),
            position <= old(self).src().len() ==> {
                &&& r is Ok
                &&& final(self).posn() == position
                &&& final(self).carry() == 0
                &&& final(self).carry_len() == 0
            },
            position > old(self).src().len() ==> {
                &&& r == KResult::<()>::Err(
                    KError::Eof { requested: position, available: old(self).src().len() as usize },
                )
                &&& *final(self) == *old(self)
            },
    {
        let size = rc_bytes(&self.data).len();
        if position > size {
            return Err(KError::Eof { requested: position, available: size });
        }
        self.align_to_byte();
        self.state.pos = position;
        Ok(())
    }

    /// Read `len` bytes starting at the byte under the cursor, leaving the
    /// carry as it is. Fails, leaving the reader unchanged, when fewer than
    /// `len` bytes remain.
    pub fn read_bytes_not_aligned(&mut self, len: usize) -> (r: KResult<Vec<u8>>)
        requires
            old(self).wf(),
        ensures
            final(self).wf(),
            final(self).src() == old(self).src(),
            final(self).carry() == old(self).carry(),
            final(self).carry_len() == old(self).carry_len(),
            len <= old(self).avail() ==> {
                &&& r matches Ok(v) && v@ == old(self).src().subrange(
                    old(self).posn(),
                    old(self).posn() + len,
                )
                &&& final(self).posn() == old(self).posn() + len
            },
            len > old(self).avail() ==> {
                &&& r == KResult::<Vec<u8>>::Err(
                    KError::Eof { requested: len, available: old(self).avail() as usize },
                )
                &&& final(self).posn() == old(self).posn()
            },
    {
        let avail = rc_bytes(&self.data).len() - self.state.pos;
        if len > avail {
            return Err(KError::Eof { requested: len, available: avail });
        }
        let mut buf: Vec<u8> = Vec::new();
        let mut i: usize = 0;
        while i < len
            invariant
                i <= len,
                len <= self.avail(),
                self.posn() + len <= usize::MAX,
                self == old(self),
                buf@ =~= self.src().subrange(self.posn(), self.posn() + i),
            decreases len - i,
        {
            let d = rc_bytes(&self.data);
            buf.push(d[self.state.pos + i]);
            i = i + 1;
            proof {
                assert(buf@ =~= self.src().subrange(self.posn(), self.posn() + i));
            }
        }
        self.state.pos = self.state.pos + len;
        Ok(buf)
    }

    /// Read `len` bytes, first discarding any carried bits. Fails, with the
    /// cursor unmoved but the carry discarded, when fewer than `len` bytes
    /// remain.
    pub fn read_bytes(&mut self, len: usize) -> (r: KResult<Vec<u8>>)
        requires
            old(self).wf(),
        ensures
            final(self).wf(),
            final(self).src() == old(self).src(),
            final(self).carry() == 0,
            final(self).carry_len() == 0,
            len <= old(self).avail() ==> {
                &&& r matches Ok(v) && v@ == old(self).src().subrange(
                    old(self).posn(),
                    old(self).posn() + len,
                )
                &&& final(self).posn() == old(self).posn() + len
            },
            len > old(self).avail() ==> {
                &&& r == KResult::<Vec<u8>>::Err(
                    KError::Eof { requested: len, available: old(self).avail() as usize },
                )
                &&& final(self).posn() == old(self).posn()
            },
    {
        self.align_to_byte();
        self.read_bytes_not_aligned(len)
    }

    /// Read every byte from the cursor to the end of the source, first
    /// discarding any carried bits. Always succeeds.
    pub fn read_bytes_full(&mut self) -> (r: KResult<Vec<u8>>)
        requires
            old(self).wf(),
        ensures
            final(self).wf(),
            final(self).src() == old(self).src(),
            final(self).carry() == 0,
            final(self).carry_len() == 0,
            final(self).posn() == final(self).src().len(),
            r matches Ok(v) && v@ == old(self).src().subrange(
                old(self).posn(),
                old(self).src().len() as int,
            ),
    {
        self.align_to_byte();
        let len = rc_bytes(&self.data).len() - self.state.pos;
        self.read_bytes_not_aligned(len)
    }

    /// Scan forward for the terminator byte, first discarding any carried
    /// bits. When the terminator occurs, the bytes before it are returned
    /// (including it when `include_term` is set) and the cursor stops just before
    /// or just after it, as `consume` says. When it does not occur, the
    /// cursor stops at the end of the source, and the scanned bytes are
    /// returned unless `eos_error` asks for a failure.
    pub fn read_bytes_term(&mut self, term: u8, include_term: bool, consume: bool, eos_error: bool) -> (r:
        KResult<Vec<u8>>)
        requires
            old(self).wf(),
        ensures
            final(self).wf(),
            final(self).src() == old(self).src(),
            final(self).carry() == 0,
            final(self).carry_len() == 0,
            ({
                let rest = old(self).src().subrange(old(self).posn(), old(self).src().len() as int);
                match crate::bytesops::find_byte(rest, term) {
                    Some(i) => {
                        &&& r matches Ok(v) && v@ == rest.subrange(
                            0,
                            i + (if include_term {
                                1int
                            } else {
                                0int
                            }),
                        )
                        &&& final(self).posn() == old(self).posn() + i + (if consume {
                            1int
                        } else {
                            0int
                        })
                    },
                    None => {
                        &&& final(self).posn() == old(self).src().len()
                        &&& if eos_error {
                            r == KResult::<Vec<u8>>::Err(KError::NoTerminatorFound)
                        } else {
                            r matches Ok(v) && v@ == rest
                        }
                    },
                }
            }),
    {
        self.align_to_byte();
        let size = rc_bytes(&self.data).len();
        let ghost start = self.posn();
        let ghost rest = self.src().subrange(start, self.src().len() as int);
        let mut buf: Vec<u8> = Vec::new();
        while self.state.pos < size
            invariant
                old(self).wf(),
                start == old(self).posn(),
                rest == old(self).src().subrange(start, old(self).src().len() as int),
                self.wf(),
                self.src() == old(self).src(),
                self.carry() == 0,
                self.carry_len() == 0,
                start <= self.posn() <= self.src().len(),
                size == self.src().len(),
                buf@ =~= self.src().subrange(start, self.posn()),
                forall|j: int| start <= j < self.posn() ==> self.src()[j] != term,
            decreases size - self.posn(),
        {
            let d = rc_bytes(&self.data);
            let c = d[self.state.pos];
            self.state.pos = self.state.pos + 1;
            if c == term {
                let ghost i = self.posn() - 1 - start;
                proof {
                    assert(rest[i] == term);
                    assert(forall|j: int| 0 <= j < i ==> rest[j] == self.src()[start + j]);
                    crate::bytesops::lemma_find_byte_at(rest, term, i);
                }
                if include_term {
                    buf.push(c);
                    proof {
                        assert(buf@ =~= rest.subrange(0, i + 1));
                    }
                } else {
                    proof {
                        assert(buf@ =~= rest.subrange(0, i));
                    }
                }
                if !consume {
                    self.state.pos = self.state.pos - 1;
                }
                return Ok(buf);
            }
            buf.push(c);
        }
        proof {
            assert(forall|j: int| 0 <= j < rest.len() ==> rest[j] == self.src()[start + j]);
            crate::bytesops::lemma_find_byte_none(rest, term);
            assert(buf@ =~= rest);
        }
        if eos_error {
            return Err(KError::NoTerminatorFound);
        }
        Ok(buf)
    }

    /// Read `k` bytes and combine them into an unsigned integer, first byte
    /// most significant.
    fn read_uint_be(&mut self, k: usize) -> (r: KResult<u64>)
        requires
            old(self).wf(),
            1 <= k <= 8,
        ensures
            final(self).wf(),
            final(self).src() == old(self).src(),
            final(self).carry() == 0,
            final(self).carry_len() == 0,
            k <= old(self).avail() ==> {
                &&& r matches Ok(v) && v as nat == crate::bitvals::be_val(
                    old(self).src().subrange(old(self).posn(), old(self).posn() + k),
                )
                &&& final(self).posn() == old(self).posn() + k
            },
            k > old(self).avail() ==> {
                &&& r == KResult::<u64>::Err(
                    KError::Eof { requested: k, available: old(self).avail() as usize },
                )
                &&& final(self).posn() == old(self).posn()
            },
    {
        match self.read_bytes(k) {
            Ok(buf) => {
                let mut acc: u64 = 0;
                let mut i: usize = 0;
                while i < k
                    invariant
                        buf@.len() == k <= 8,
                        i <= k,
                        acc as nat == crate::bitvals::be_val(buf@.subrange(0, i as int)),
                    decreases k - i,
                {
                    proof {
                        crate::bitvals::lemma_be_val_bound(buf@.subrange(0, i as int));
                        vstd::arithmetic::power2::lemma_pow2_adds((8 * i) as nat, 8);
                        vstd::arithmetic::power2::lemma2_to64();
                        vstd::arithmetic::power2::lemma2_to64_rest();
                        if 8 * i + 8 < 64 {
                            vstd::arithmetic::power2::lemma_pow2_strictly_increases(
                                (8 * i + 8) as nat,
                                64,
                            );
                        }
                    }
                    acc = acc * 256 + (buf[i] as u64);
                    proof {
                        assert(buf@.subrange(0, i + 1).drop_last() =~= buf@.subrange(0, i as int));
                        assert(buf@.subrange(0, i + 1).last() == buf@[i as int]);
                    }
                    i = i + 1;
                }
                proof {
                    assert(buf@.subrange(0, k as int) =~= buf@);
                }
                Ok(acc)
            },
            Err(e) => Err(e),
        }
    }

    /// Read `k` bytes and combine them into an unsigned integer, first byte
    /// least significant.
    fn read_uint_le(&mut self, k: usize) -> (r: KResult<u64>)
        requires
            old(self).wf(),
            1 <= k <= 8,
        ensures
            final(self).wf(),
            final(self).src() == old(self).src(),
            final(self).carry() == 0,
            final(self).carry_len() == 0,
            k <= old(self).avail() ==> {
                &&& r matches Ok(v) && v as nat == crate::bitvals::le_val(
                    old(self).src().subrange(old(self).posn(), old(self).posn() + k),
                )
                &&& final(self).posn() == old(self).posn() + k
            },
            k > old(self).avail() ==> {
                &&& r == KResult::<u64>::Err(
                    KError::Eof { requested: k, available: old(self).avail() as usize },
                )
                &&& final(self).posn() == old(self).posn()
            },
    {
        match self.read_bytes(k) {
            Ok(buf) => {
                let mut acc: u64 = 0;
                let mut i: usize = k;
                while i > 0
                    invariant
                        buf@.len() == k <= 8,
                        i <= k,
                        acc as nat == crate::bitvals::le_val(buf@.subrange(i as int, k as int)),
                    decreases i,
                {
                    proof {
                        crate::bitvals::lemma_le_val_bound(buf@.subrange(i as int, k as int));
                        vstd::arithmetic::power2::lemma_pow2_adds((8 * (k - i)) as nat, 8);
                        vstd::arithmetic::power2::lemma2_to64();
                        vstd::arithmetic::power2::lemma2_to64_rest();
                        if 8 * (k - i) + 8 < 64 {
                            vstd::arithmetic::power2::lemma_pow2_strictly_increases(
                                (8 * (k - i) + 8) as nat,
                                64,
                            );
                        }
                    }
                    acc = acc * 256 + (buf[i - 1] as u64);
                    proof {
                        assert(buf@.subrange(i - 1, k as int).subrange(
                            1,
                            buf@.subrange(i - 1, k as int).len() as int,
                        ) =~= buf@.subrange(i as int, k as int));
                        assert(buf@.subrange(i - 1, k as int)[0] == buf@[i - 1]);
                    }
                    i = i - 1;
                }
                proof {
                    assert(buf@.subrange(0, k as int) =~= buf@);
                }
                Ok(acc)
            },
            Err(e) => Err(e),
        }
    }

    /// Read one unsigned byte.
    pub fn read_u1(&mut self) -> (r: KResult<u8>)
        requires
            old(self).wf(),
        ensures
            final(self).wf(),
            final(self).src() == old(self).src(),
            final(self).carry() == 0,
            final(self).carry_len() == 0,
            1 <= old(self).avail() ==> {
                &&& r matches Ok(v) && v == old(self).src()[old(self).posn()]
                &&& final(self).posn() == old(self).posn() + 1
            },
            old(self).avail() < 1 ==> {
                &&& r == KResult::<u8>::Err(
                    KError::Eof { requested: 1, available: old(self).avail() as usize },
                )
                &&& final(self).posn() == old(self).posn()
            },
    {
        match self.read_uint_be(1) {
            Ok(x) => {
                proof {
                    let sub = old(self).src().subrange(old(self).posn(), old(self).posn() + 1);
                    assert(sub.drop_last() =~= Seq::<u8>::empty());
                    assert(crate::bitvals::be_val(Seq::<u8>::empty()) == 0);
                    assert(crate::bitvals::be_val(sub) == sub.last());
                    assert(sub.last() == old(self).src()[old(self).posn()]);
                }
                Ok(x as u8)
            },
            Err(e) => Err(e),
        }
    }

    /// Read one signed byte (two's complement).
    pub fn read_s1(&mut self) -> (r: KResult<i8>)
        requires
            old(self).wf(),
        ensures
            final(self).wf(),
            final(self).src() == old(self).src(),
            final(self).carry() == 0,
            final(self).carry_len() == 0,
            1 <= old(self).avail() ==> {
                &&& r matches Ok(v) && v == old(self).src()[old(self).posn()] as i8
                &&& final(self).posn() == old(self).posn() + 1
            },
            old(self).avail() < 1 ==> {
                &&& r == KResult::<i8>::Err(
                    KError::Eof { requested: 1, available: old(self).avail() as usize },
                )
                &&& final(self).posn() == old(self).posn()
            },
    {
        match self.read_uint_be(1) {
            Ok(x) => {
                proof {
                    let sub = old(self).src().subrange(old(self).posn(), old(self).posn() + 1);
                    assert(sub.drop_last() =~= Seq::<u8>::empty());
                    assert(crate::bitvals::be_val(Seq::<u8>::empty()) == 0);
                    assert(crate::bitvals::be_val(sub) == sub.last());
                    assert(sub.last() == old(self).src()[old(self).posn()]);
                }
                Ok(x as u8 as i8)
            },
            Err(e) => Err(e),
        }
    }

    /// Read one unsigned 2-byte big-endian integer.
    pub fn read_u2be(&mut self) -> (r: KResult<u16>)
        requires
            old(self).wf(),
        ensures
            final(self).wf(),
            final(self).src() == old(self).src(),
            final(self).carry() == 0,
            final(self).carry_len() == 0,
            2 <= old(self).avail() ==> {
                &&& r matches Ok(v) && v as nat == crate::bitvals::be_val(
                    old(self).src().subrange(old(self).posn(), old(self).posn() + 2),
                )
                &&& final(self).posn() == old(self).posn() + 2
            },
            2 > old(self).avail() ==> {
                &&& r == KResult::<u16>::Err(
                    KError::Eof { requested: 2, available: old(self).avail() as usize },
                )
                &&& final(self).posn() == old(self).posn()
            },
    {
        match self.read_uint_be(2) {
            Ok(x) => {
                proof {
                    crate::bitvals::lemma_be_val_bound(
                        old(self).src().subrange(old(self).posn(), old(self).posn() + 2),
                    );
                    vstd::arithmetic::power2::lemma2_to64();
                }
                Ok(x as u16)
            },
            Err(e) => Err(e),
        }
    }

    /// Read one signed 2-byte big-endian integer (two's complement).
    pub fn read_s2be(&mut self) -> (r: KResult<i16>)
        requires
            old(self).wf(),
        ensures
            final(self).wf(),
            final(self).src() == old(self).src(),
            final(self).carry() == 0,
            final(self).carry_len() == 0,
            2 <= old(self).avail() ==> {
                &&& r matches Ok(v) && v == crate::bitvals::be_val(
                    old(self).src().subrange(old(self).posn(), old(self).posn() + 2),
                ) as u16 as i16
                &&& final(self).posn() == old(self).posn() + 2
            },
            2 > old(self).avail() ==> {
                &&& r == KResult::<i16>::Err(
                    KError::Eof { requested: 2, available: old(self).avail() as usize },
                )
                &&& final(self).posn() == old(self).posn()
            },
    {
        match self.read_uint_be(2) {
            Ok(x) => {
                proof {
                    crate::bitvals::lemma_be_val_bound(
                        old(self).src().subrange(old(self).posn(), old(self).posn() + 2),
                    );
                    vstd::arithmetic::power2::lemma2_to64();
                }
                Ok(x as u16 as i16)
            },
            Err(e) => Err(e),
        }
    }

    /// Read one unsigned 4-byte big-endian integer.
    pub fn read_u4be(&mut self) -> (r: KResult<u32>)
        requires
            old(self).wf(),
        ensures
            final(self).wf(),
            final(self).src() == old(self).src(),
            final(self).carry() == 0,
            final(self).carry_len() == 0,
            4 <= old(self).avail() ==> {
                &&& r matches Ok(v) && v as nat == crate::bitvals::be_val(
                    old(self).src().subrange(old(self).posn(), old(self).posn() + 4),
                )
                &&& final(self).posn() == old(self).posn() + 4
            },
            4 > old(self).avail() ==> {
                &&& r == KResult::<u32>::Err(
                    KError::Eof { requested: 4, available: old(self).avail() as usize },
                )
                &&& final(self).posn() == old(self).posn()
            },
    {
        match self.read_uint_be(4) {
            Ok(x) => {
                proof {
                    crate::bitvals::lemma_be_val_bound(
                        old(self).src().subrange(old(self).posn(), old(self).posn() + 4),
                    );
                    vstd::arithmetic::power2::lemma2_to64();
                }
                Ok(x as u32)
            },
            Err(e) => Err(e),
        }
    }

    /// Read one signed 4-byte big-endian integer (two's complement).
    pub fn read_s4be(&mut self) -> (r: KResult<i32>)
        requires
            old(self).wf(),
        ensures
            final(self).wf(),
            final(self).src() == old(self).src(),
            final(self).carry() == 0,
            final(self).carry_len() == 0,
            4 <= old(self).avail() ==> {
                &&& r matches Ok(v) && v == crate::bitvals::be_val(
                    old(self).src().subrange(old(self).posn(), old(self).posn() + 4),
                ) as u32 as i32
                &&& final(self).posn() == old(self).posn() + 4
            },
            4 > old(self).avail() ==> {
                &&& r == KResult::<i32>::Err(
                    KError::Eof { requested: 4, available: old(self).avail() as usize },
                )
                &&& final(self).posn() == old(self).posn()
            },
    {
        match self.read_uint_be(4) {
            Ok(x) => {
                proof {
                    crate::bitvals::lemma_be_val_bound(
                        old(self).src().subrange(old(self).posn(), old(self).posn() + 4),
                    );
                    vstd::arithmetic::power2::lemma2_to64();
                }
                Ok(x as u32 as i32)
            },
            Err(e) => Err(e),
        }
    }

    /// Read one unsigned 8-byte big-endian integer.
    pub fn read_u8be(&mut self) -> (r: KResult<u64>)
        requires
            old(self).wf(),
        ensures
            final(self).wf(),
            final(self).src() == old(self).src(),
            final(self).carry() == 0,
            final(self).carry_len() == 0,
            8 <= old(self).avail() ==> {
                &&& r matches Ok(v) && v as nat == crate::bitvals::be_val(
                    old(self).src().subrange(old(self).posn(), old(self).posn() + 8),
                )
                &&& final(self).posn() == old(self).posn() + 8
            },
            8 > old(self).avail() ==> {
                &&& r == KResult::<u64>::Err(
                    KError::Eof { requested: 8, available: old(self).avail() as usize },
                )
                &&& final(self).posn() == old(self).posn()
            },
    {
        match self.read_uint_be(8) {
            Ok(x) => {
                proof {
                    crate::bitvals::lemma_be_val_bound(
                        old(self).src().subrange(old(self).posn(), old(self).posn() + 8),
                    );
                    vstd::arithmetic::power2::lemma2_to64();
                }
                Ok(x)
            },
            Err(e) => Err(e),
        }
    }

    /// Read one signed 8-byte big-endian integer (two's complement).
    pub fn read_s8be(&mut self) -> (r: KResult<i64>)
        requires
            old(self).wf(),
        ensures
            final(self).wf(),
            final(self).src() == old(self).src(),
            final(self).carry() == 0,
            final(self).carry_len() == 0,
            8 <= old(self).avail() ==> {
                &&& r matches Ok(v) && v == crate::bitvals::be_val(
                    old(self).src().subrange(old(self).posn(), old(self).posn() + 8),
                ) as u64 as i64
                &&& final(self).posn() == old(self).posn() + 8
            },
            8 > old(self).avail() ==> {
                &&& r == KResult::<i64>::Err(
                    KError::Eof { requested: 8, available: old(self).avail() as usize },
                )
                &&& final(self).posn() == old(self).posn()
            },
    {
        match self.read_uint_be(8) {
            Ok(x) => {
                proof {
                    crate::bitvals::lemma_be_val_bound(
                        old(self).src().subrange(old(self).posn(), old(self).posn() + 8),
                    );
                    vstd::arithmetic::power2::lemma2_to64();
                }
                Ok(x as i64)
            },
            Err(e) => Err(e),
        }
    }

    /// Read one unsigned 2-byte little-endian integer.
    pub fn read_u2le(&mut self) -> (r: KResult<u16>)
        requires
            old(self).wf(),
        ensures
            final(self).wf(),
            final(self).src() == old(self).src(),
            final(self).carry() == 0,
            final(self).carry_len() == 0,
            2 <= old(self).avail() ==> {
                &&& r matches Ok(v) && v as nat == crate::bitvals::le_val(
                    old(self).src().subrange(old(self).posn(), old(self).posn() + 2),
                )
                &&& final(self).posn() == old(self).posn() + 2
            },
            2 > old(self).avail() ==> {
                &&& r == KResult::<u16>::Err(
                    KError::Eof { requested: 2, available: old(self).avail() as usize },
                )
                &&& final(self).posn() == old(self).posn()
            },
    {
        match self.read_uint_le(2) {
            Ok(x) => {
                proof {
                    crate::bitvals::lemma_le_val_bound(
                        old(self).src().subrange(old(self).posn(), old(self).posn() + 2),
                    );
                    vstd::arithmetic::power2::lemma2_to64();
                }
                Ok(x as u16)
            },
            Err(e) => Err(e),
        }
    }

    /// Read one signed 2-byte little-endian integer (two's complement).
    pub fn read_s2le(&mut self) -> (r: KResult<i16>)
        requires
            old(self).wf(),
        ensures
            final(self).wf(),
            final(self).src() == old(self).src(),
            final(self).carry() == 0,
            final(self).carry_len() == 0,
            2 <= old(self).avail() ==> {
                &&& r matches Ok(v) && v == crate::bitvals::le_val(
                    old(self).src().subrange(old(self).posn(), old(self).posn() + 2),
                ) as u16 as i16
                &&& final(self).posn() == old(self).posn() + 2
            },
            2 > old(self).avail() ==> {
                &&& r == KResult::<i16>::Err(
                    KError::Eof { requested: 2, available: old(self).avail() as usize },
                )
                &&& final(self).posn() == old(self).posn()
            },
    {
        match self.read_uint_le(2) {
            Ok(x) => {
                proof {
                    crate::bitvals::lemma_le_val_bound(
                        old(self).src().subrange(old(self).posn(), old(self).posn() + 2),
                    );
                    vstd::arithmetic::power2::lemma2_to64();
                }
                Ok(x as u16 as i16)
            },
            Err(e) => Err(e),
        }
    }

    /// Read one unsigned 4-byte little-endian integer.
    pub fn read_u4le(&mut self) -> (r: KResult<u32>)
        requires
            old(self).wf(),
        ensures
            final(self).wf(),
            final(self).src() == old(self).src(),
            final(self).carry() == 0,
            final(self).carry_len() == 0,
            4 <= old(self).avail() ==> {
                &&& r matches Ok(v) && v as nat == crate::bitvals::le_val(
                    old(self).src().subrange(old(self).posn(), old(self).posn() + 4),
                )
                &&& final(self).posn() == old(self).posn() + 4
            },
            4 > old(self).avail() ==> {
                &&& r == KResult::<u32>::Err(
                    KError::Eof { requested: 4, available: old(self).avail() as usize },
                )
                &&& final(self).posn() == old(self).posn()
            },
    {
        match self.read_uint_le(4) {
            Ok(x) => {
                proof {
                    crate::bitvals::lemma_le_val_bound(
                        old(self).src().subrange(old(self).posn(), old(self).posn() + 4),
                    );
                    vstd::arithmetic::power2::lemma2_to64();
                }
                Ok(x as u32)
            },
            Err(e) => Err(e),
        }
    }

    /// Read one signed 4-byte little-endian integer (two's complement).
    pub fn read_s4le(&mut self) -> (r: KResult<i32>)
        requires
            old(self).wf(),
        ensures
            final(self).wf(),
            final(self).src() == old(self).src(),
            final(self).carry() == 0,
            final(self).carry_len() == 0,
            4 <= old(self).avail() ==> {
                &&& r matches Ok(v) && v == crate::bitvals::le_val(
                    old(self).src().subrange(old(self).posn(), old(self).posn() + 4),
                ) as u32 as i32
                &&& final(self).posn() == old(self).posn() + 4
            },
            4 > old(self).avail() ==> {
                &&& r == KResult::<i32>::Err(
                    KError::Eof { requested: 4, available: old(self).avail() as usize },
                )
                &&& final(self).posn() == old(self).posn()
            },
    {
        match self.read_uint_le(4) {
            Ok(x) => {
                proof {
                    crate::bitvals::lemma_le_val_bound(
                        old(self).src().subrange(old(self).posn(), old(self).posn() + 4),
                    );
                    vstd::arithmetic::power2::lemma2_to64();
                }
                Ok(x as u32 as i32)
            },
            Err(e) => Err(e),
        }
    }

    /// Read one unsigned 8-byte little-endian integer.
    pub fn read_u8le(&mut self) -> (r: KResult<u64>)
        requires
            old(self).wf(),
        ensures
            final(self).wf(),
            final(self).src() == old(self).src(),
            final(self).carry() == 0,
            final(self).carry_len() == 0,
            8 <= old(self).avail() ==> {
                &&& r matches Ok(v) && v as nat == crate::bitvals::le_val(
                    old(self).src().subrange(old(self).posn(), old(self).posn() + 8),
                )
                &&& final(self).posn() == old(self).posn() + 8
            },
            8 > old(self).avail() ==> {
                &&& r == KResult::<u64>::Err(
                    KError::Eof { requested: 8, available: old(self).avail() as usize },
                )
                &&& final(self).posn() == old(self).posn()
            },
    {
        match self.read_uint_le(8) {
            Ok(x) => {
                proof {
                    crate::bitvals::lemma_le_val_bound(
                        old(self).src().subrange(old(self).posn(), old(self).posn() + 8),
                    );
                    vstd::arithmetic::power2::lemma2_to64();
                }
                Ok(x)
            },
            Err(e) => Err(e),
        }
    }

    /// Read one signed 8-byte little-endian integer (two's complement).
    pub fn read_s8le(&mut self) -> (r: KResult<i64>)
        requires
            old(self).wf(),
        ensures
            final(self).wf(),
            final(self).src() == old(self).src(),
            final(self).carry() == 0,
            final(self).carry_len() == 0,
            8 <= old(self).avail() ==> {
                &&& r matches Ok(v) && v == crate::bitvals::le_val(
                    old(self).src().subrange(old(self).posn(), old(self).posn() + 8),
                ) as u64 as i64
                &&& final(self).posn() == old(self).posn() + 8
            },
            8 > old(self).avail() ==> {
                &&& r == KResult::<i64>::Err(
                    KError::Eof { requested: 8, available: old(self).avail() as usize },
                )
                &&& final(self).posn() == old(self).posn()
            },
    {
        match self.read_uint_le(8) {
            Ok(x) => {
                proof {
                    crate::bitvals::lemma_le_val_bound(
                        old(self).src().subrange(old(self).posn(), old(self).posn() + 8),
                    );
                    vstd::arithmetic::power2::lemma2_to64();
                }
                Ok(x as i64)
            },
            Err(e) => Err(e),
        }
    }

    /// Read exactly `n` bits (up to 64), big-endian bit order: carried bits
    /// come first, newly fetched bytes are taken most significant bit first,
    /// and the low leftover bits of the last byte become the new carry. On
    /// failure the reader is left unchanged.
    pub fn read_bits_int_be(&mut self, n: usize) -> (r: KResult<u64>)
        requires
            old(self).wf(),
        ensures
            final(self).wf(),
            final(self).src() == old(self).src(),
            n > 64 ==> (r == KResult::<u64>::Err(KError::ReadBitsTooLarge { requested: n })
                && *final(self) == *old(self)),
            n <= 64 && bytes_needed(n as int, old(self).carry_len() as int) > old(self).avail()
                ==> (r == KResult::<u64>::Err(
                KError::Eof {
                    requested: bytes_needed(n as int, old(self).carry_len() as int) as usize,
                    available: old(self).avail() as usize,
                },
            ) && *final(self) == *old(self)),
            n <= 64 && bytes_needed(n as int, old(self).carry_len() as int) <= old(self).avail()
                ==> ({
                let c = old(self).carry_len() as int;
                let need = bytes_needed(n as int, c);
                &&& final(self).posn() == old(self).posn() + need
                &&& final(self).carry_len() == 8 * need + c - n
                &&& (if n <= c {
                    &&& r matches Ok(v) && v as nat == old(self).carry() / pow2((c - n) as nat)
                    &&& final(self).carry() == old(self).carry() % pow2((c - n) as nat)
                } else {
                    &&& r matches Ok(v) && v as nat == old(self).carry() * pow2((n - c) as nat)
                        + crate::bitvals::bits_be(
                        old(self).src(),
                        8 * old(self).posn(),
                        (n - c) as nat,
                    )
                    &&& final(self).carry() == crate::bitvals::bits_be(
                        old(self).src(),
                        8 * old(self).posn() + (n - c),
                        (8 * need - (n - c)) as nat,
                    )
                })
                &&& (old(self).carry_matches_be() ==> {
                    &&& r matches Ok(v) && v as nat == crate::bitvals::bits_be(
                        old(self).src(),
                        old(self).bit_pos(),
                        n as nat,
                    )
                    &&& final(self).carry_matches_be()
                    &&& final(self).bit_pos() == old(self).bit_pos() + n
                })
            }),
    {
        if n > 64 {
            return Err(KError::ReadBitsTooLarge { requested: n });
        }
        let c = self.state.bits_left;
        let ghost bp = self.bit_pos();
        if n <= c {
            let keep = c - n;
            let p_keep = pow2_u64(keep);
            let res = self.state.bits / p_keep;
            let new_carry = self.state.bits % p_keep;
            proof {
                if old(self).carry_matches_be() {
                    let src = self.src();
                    crate::bitvals::lemma_bits_be_split(src, bp, n as nat, keep as nat);
                    crate::bitvals::lemma_bits_be_bound(src, bp + n, keep as nat);
                    vstd::arithmetic::div_mod::lemma_fundamental_div_mod_converse(
                        self.carry() as int,
                        pow2(keep as nat) as int,
                        crate::bitvals::bits_be(src, bp, n as nat) as int,
                        crate::bitvals::bits_be(src, bp + n, keep as nat) as int,
                    );
                }
            }
            self.state.bits = new_carry;
            self.state.bits_left = keep;
            Ok(res)
        } else {
            let bits_needed = n - c;
            let byte_count = (bits_needed - 1) / 8 + 1;
            let size = rc_bytes(&self.data).len();
            let avail = size - self.state.pos;
            if byte_count > avail {
                return Err(KError::Eof { requested: byte_count, available: avail });
            }
            let start = self.state.pos;
            let mut acc: u64 = 0;
            let mut i: usize = 0;
            while i < byte_count
                invariant
                    self == old(self),
                    self.wf(),
                    i <= byte_count <= 8,
                    start == self.posn(),
                    start + byte_count <= self.src().len(),
                    start + byte_count <= usize::MAX,
                    acc as nat == crate::bitvals::be_val(
                        self.src().subrange(start as int, start + i),
                    ),
                decreases byte_count - i,
            {
                proof {
                    crate::bitvals::lemma_be_val_bound(
                        self.src().subrange(start as int, start + i),
                    );
                    vstd::arithmetic::power2::lemma_pow2_adds((8 * i) as nat, 8);
                    vstd::arithmetic::power2::lemma2_to64();
                    vstd::arithmetic::power2::lemma2_to64_rest();
                    if 8 * i + 8 < 64 {
                        vstd::arithmetic::power2::lemma_pow2_strictly_increases(
                            (8 * i + 8) as nat,
                            64,
                        );
                    }
                }
                let d = rc_bytes(&self.data);
                acc = acc * 256 + (d[start + i] as u64);
                proof {
                    let sub = self.src().subrange(start as int, start + i + 1);
                    assert(sub.drop_last() =~= self.src().subrange(start as int, start + i));
                    assert(sub.last() == self.src()[start + i]);
                }
                i = i + 1;
            }
            let leftover = byte_count * 8 - bits_needed;
            let p_left = pow2_u64(leftover);
            let res_low = acc / p_left;
            let new_carry = acc % p_left;
            let ghost src = self.src();
            proof {
                vstd::arithmetic::power2::lemma2_to64();
                crate::bitvals::lemma_be_val_is_bits(src, start as int, byte_count as nat);
                crate::bitvals::lemma_bits_be_split(
                    src,
                    8 * start,
                    bits_needed as nat,
                    leftover as nat,
                );
                crate::bitvals::lemma_bits_be_bound(
                    src,
                    8 * start + bits_needed,
                    leftover as nat,
                );
                crate::bitvals::lemma_bits_be_bound(src, 8 * start, bits_needed as nat);
                vstd::arithmetic::div_mod::lemma_fundamental_div_mod_converse(
                    acc as int,
                    pow2(leftover as nat) as int,
                    crate::bitvals::bits_be(src, 8 * start, bits_needed as nat) as int,
                    crate::bitvals::bits_be(src, 8 * start + bits_needed, leftover as nat) as int,
                );
            }
            let res: u64 = if c == 0 {
                res_low
            } else {
                let p_bn = pow2_u64(bits_needed);
                proof {
                    let pc = pow2(c as nat);
                    let pbn = pow2(bits_needed as nat);
                    vstd::arithmetic::power2::lemma_pow2_adds(c as nat, bits_needed as nat);
                    vstd::arithmetic::power2::lemma2_to64();
                    if n < 64 {
                        vstd::arithmetic::power2::lemma_pow2_strictly_increases(n as nat, 64);
                    }
                    assert(self.carry() * pbn <= (pc - 1) * pbn && (pc - 1) * pbn == pc * pbn
                        - pbn) by (nonlinear_arith)
                        requires
                            self.carry() < pc,
                            0 < pbn,
                    ;
                }
                self.state.bits * p_bn + res_low
            };
            proof {
                if old(self).carry_matches_be() {
                    crate::bitvals::lemma_bits_be_split(src, bp, c as nat, bits_needed as nat);
                }
            }
            self.state.bits = new_carry;
            self.state.bits_left = leftover;
            self.state.pos = start + byte_count;
            Ok(res)
        }
    }

    /// Read exactly `n` bits (up to 64), little-endian bit order: carried
    /// bits come first as the least significant part, newly fetched bytes
    /// are taken least significant bit first, and the high leftover bits of
    /// the last byte become the new carry. On failure the reader is left
    /// unchanged.
    pub fn read_bits_int_le(&mut self, n: usize) -> (r: KResult<u64>)
        requires
            old(self).wf(),
        ensures
            final(self).wf(),
            final(self).src() == old(self).src(),
            n > 64 ==> (r == KResult::<u64>::Err(KError::ReadBitsTooLarge { requested: n })
                && *final(self) == *old(self)),
            n <= 64 && bytes_needed(n as int, old(self).carry_len() as int) > old(self).avail()
                ==> (r == KResult::<u64>::Err(
                KError::Eof {
                    requested: bytes_needed(n as int, old(self).carry_len() as int) as usize,
                    available: old(self).avail() as usize,
                },
            ) && *final(self) == *old(self)),
            n <= 64 && bytes_needed(n as int, old(self).carry_len() as int) <= old(self).avail()
                ==> ({
                let c = old(self).carry_len() as int;
                let need = bytes_needed(n as int, c);
                &&& final(self).posn() == old(self).posn() + need
                &&& final(self).carry_len() == 8 * need + c - n
                &&& (if n <= c {
                    &&& r matches Ok(v) && v as nat == old(self).carry() % pow2(n as nat)
                    &&& final(self).carry() == old(self).carry() / pow2(n as nat)
                } else {
                    &&& r matches Ok(v) && v as nat == old(self).carry() + crate::bitvals::bits_le(
                        old(self).src(),
                        8 * old(self).posn(),
                        (n - c) as nat,
                    ) * pow2(c as nat)
                    &&& final(self).carry() == crate::bitvals::bits_le(
                        old(self).src(),
                        8 * old(self).posn() + (n - c),
                        (8 * need - (n - c)) as nat,
                    )
                })
                &&& (old(self).carry_matches_le() ==> {
                    &&& r matches Ok(v) && v as nat == crate::bitvals::bits_le(
                        old(self).src(),
                        old(self).bit_pos(),
                        n as nat,
                    )
                    &&& final(self).carry_matches_le()
                    &&& final(self).bit_pos() == old(self).bit_pos() + n
                })
            }),
    {
        if n > 64 {
            return Err(KError::ReadBitsTooLarge { requested: n });
        }
        let c = self.state.bits_left;
        let ghost bp = self.bit_pos();
        if n <= c {
            let p_n = pow2_u64(n);
            let res = self.state.bits % p_n;
            let new_carry = self.state.bits / p_n;
            proof {
                vstd::arithmetic::power2::lemma_pow2_adds(n as nat, (c - n) as nat);
                vstd::arithmetic::div_mod::lemma_multiply_divide_lt(
                    self.carry() as int,
                    pow2(n as nat) as int,
                    pow2((c - n) as nat) as int,
                );
                if old(self).carry_matches_le() {
                    let src = self.src();
                    crate::bitvals::lemma_bits_le_split(src, bp, n as nat, (c - n) as nat);
                    crate::bitvals::lemma_bits_le_bound(src, bp, n as nat);
                    vstd::arithmetic::mul::lemma_mul_is_commutative(
                        pow2(n as nat) as int,
                        crate::bitvals::bits_le(src, bp + n, (c - n) as nat) as int,
                    );
                    vstd::arithmetic::div_mod::lemma_fundamental_div_mod_converse(
                        self.carry() as int,
                        pow2(n as nat) as int,
                        crate::bitvals::bits_le(src, bp + n, (c - n) as nat) as int,
                        crate::bitvals::bits_le(src, bp, n as nat) as int,
                    );
                }
            }
            self.state.bits = new_carry;
            self.state.bits_left = c - n;
            Ok(res)
        } else {
            let bits_needed = n - c;
            let byte_count = (bits_needed - 1) / 8 + 1;
            let size = rc_bytes(&self.data).len();
            let avail = size - self.state.pos;
            if byte_count > avail {
                return Err(KError::Eof { requested: byte_count, available: avail });
            }
            let start = self.state.pos;
            let mut acc: u64 = 0;
            let mut i: usize = byte_count;
            while i > 0
                invariant
                    self == old(self),
                    self.wf(),
                    i <= byte_count <= 8,
                    start == self.posn(),
                    start + byte_count <= self.src().len(),
                    start + byte_count <= usize::MAX,
                    acc as nat == crate::bitvals::le_val(
                        self.src().subrange(start + i, start + byte_count),
                    ),
                decreases i,
            {
                proof {
                    crate::bitvals::lemma_le_val_bound(
                        self.src().subrange(start + i, start + byte_count),
                    );
                    vstd::arithmetic::power2::lemma_pow2_adds((8 * (byte_count - i)) as nat, 8);
                    vstd::arithmetic::power2::lemma2_to64();
                    vstd::arithmetic::power2::lemma2_to64_rest();
                    if 8 * (byte_count - i) + 8 < 64 {
                        vstd::arithmetic::power2::lemma_pow2_strictly_increases(
                            (8 * (byte_count - i) + 8) as nat,
                            64,
                        );
                    }
                }
                let d = rc_bytes(&self.data);
                acc = acc * 256 + (d[start + i - 1] as u64);
                proof {
                    let sub = self.src().subrange(start + i - 1, start + byte_count);
                    assert(sub.subrange(1, sub.len() as int) =~= self.src().subrange(
                        start + i,
                        start + byte_count,
                    ));
                    assert(sub[0] == self.src()[start + i - 1]);
                }
                i = i - 1;
            }
            let leftover = byte_count * 8 - bits_needed;
            let ghost src = self.src();
            proof {
                vstd::arithmetic::power2::lemma2_to64();
                assert(src.subrange(start as int, start + byte_count) =~= src.subrange(
                    start + 0,
                    start + byte_count,
                ));
                crate::bitvals::lemma_le_val_is_bits(src, start as int, byte_count as nat);
                crate::bitvals::lemma_bits_le_split(
                    src,
                    8 * start,
                    bits_needed as nat,
                    leftover as nat,
                );
                crate::bitvals::lemma_bits_le_bound(src, 8 * start, bits_needed as nat);
                crate::bitvals::lemma_bits_le_bound(
                    src,
                    8 * start + bits_needed,
                    leftover as nat,
                );
            }
            let new_carry: u64;
            let low: u64;
            if bits_needed >= 64 {
                new_carry = 0;
                low = acc;
                proof {
                    assert(crate::bitvals::bits_le(src, 8 * start + bits_needed, leftover as nat)
                        == 0);
                    assert(pow2(bits_needed as nat) * 0 == 0) by (nonlinear_arith);
                }
            } else {
                let p_bn = pow2_u64(bits_needed);
                new_carry = acc / p_bn;
                low = acc % p_bn;
                proof {
                    vstd::arithmetic::mul::lemma_mul_is_commutative(
                        pow2(bits_needed as nat) as int,
                        crate::bitvals::bits_le(src, 8 * start + bits_needed, leftover as nat)
                            as int,
                    );
                    vstd::arithmetic::div_mod::lemma_fundamental_div_mod_converse(
                        acc as int,
                        pow2(bits_needed as nat) as int,
                        crate::bitvals::bits_le(src, 8 * start + bits_needed, leftover as nat)
                            as int,
                        crate::bitvals::bits_le(src, 8 * start, bits_needed as nat) as int,
                    );
                }
            }
            let res: u64 = if c == 0 {
                low
            } else {
                let p_c = pow2_u64(c);
                proof {
                    let pc = pow2(c as nat);
                    let pbn = pow2(bits_needed as nat);
                    vstd::arithmetic::power2::lemma_pow2_adds(c as nat, bits_needed as nat);
                    if n < 64 {
                        vstd::arithmetic::power2::lemma_pow2_strictly_increases(n as nat, 64);
                    }
                    assert(low as nat * pc <= (pbn - 1) * pc && (pbn - 1) * pc == pc * pbn - pc)
                        by (nonlinear_arith)
                        requires
                            (low as nat) < pbn,
                            0 < pc,
                    ;
                }
                self.state.bits + low * p_c
            };
            proof {
                if old(self).carry_matches_le() {
                    crate::bitvals::lemma_bits_le_split(src, bp, c as nat, bits_needed as nat);
                    vstd::arithmetic::mul::lemma_mul_is_commutative(
                        pow2(c as nat) as int,
                        crate::bitvals::bits_le(src, bp + c, bits_needed as nat) as int,
                    );
                }
            }
            self.state.bits = new_carry;
            self.state.bits_left = leftover;
            self.state.pos = start + byte_count;
            Ok(res)
        }
    }

    /// Read as many bytes as the expected contents hold and compare. The
    /// bytes are consumed before the check, so the cursor is advanced even
    /// when the comparison fails; the failure then carries the bytes that
    /// were actually read.
    pub fn ensure_fixed_contents(&mut self, expected: &Vec<u8>) -> (r: KResult<Vec<u8>>)
        requires
            old(self).wf(),
        ensures
            final(self).wf(),
            final(self).src() == old(self).src(),
            final(self).carry() == 0,
            final(self).carry_len() == 0,
            expected@.len() <= old(self).avail() ==> {
                let actual = old(self).src().subrange(
                    old(self).posn(),
                    old(self).posn() + expected@.len(),
                );
                &&& final(self).posn() == old(self).posn() + expected@.len()
                &&& actual == expected@ ==> (r matches Ok(v) && v@ == expected@)
                &&& actual != expected@ ==> (r matches Err(e) && e matches KError::ValidationNotEqual{actual: a}
                    && a@ == actual)
            },
            expected@.len() > old(self).avail() ==> {
                &&& r == KResult::<Vec<u8>>::Err(
                    KError::Eof {
                        requested: expected@.len() as usize,
                        available: old(self).avail() as usize,
                    },
                )
                &&& final(self).posn() == old(self).posn()
            },
    {
        let len = expected.len();
        match self.read_bytes(len) {
            Ok(actual) => {
                if bytes_equal(&actual, expected) {
                    Ok(actual)
                } else {
                    Err(KError::ValidationNotEqual { actual })
                }
            },
            Err(e) => Err(e),
        }
    }
}

/// Byte-wise equality of two byte vectors.
fn bytes_equal(a: &Vec<u8>, b: &Vec<u8>) -> (r: bool)
    ensures
        r == (a@ == b@),
{
    if a.len() != b.len() {
        proof {
            assert(a@ != b@);
        }
        return false;
    }
    let mut i: usize = 0;
    while i < a.len()
        invariant
            i <= a@.len(),
            a@.len() == b@.len(),
            forall|j: int| 0 <= j < i ==> a@[j] == b@[j],
        decreases a@.len() - i,
    {
        if a[i] != b[i] {
            return false;
        }
        i = i + 1;
    }
    proof {
        assert(a@ =~= b@);
    }
    true
}

} // verus!
