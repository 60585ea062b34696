use crate::control::ExitError;
use crate::word::{be_value, Word};
use vstd::prelude::*;

verus! {

/// The smallest multiple of 32 that is at least `n`.
pub open spec fn ceil32(n: nat) -> nat {
    ((n + 31) / 32 * 32) as nat
}

/// `len` bytes of `src` from `off`, with zeros past its end.
pub open spec fn padded_slice(src: Seq<u8>, off: nat, len: nat) -> Seq<u8> {
    Seq::new(len, |i: int| if off + i < src.len() { src[off + i] } else { 0u8 })
}

/// `bytes` written over `mem` from `off`.
pub open spec fn overwrite(mem: Seq<u8>, off: int, bytes: Seq<u8>) -> Seq<u8> {
    mem.subrange(0, off) + bytes + mem.subrange(off + bytes.len(), mem.len() as int)
}

/// The length memory takes after the range `[off, off + len)` is touched.
pub open spec fn grown_len(cur: nat, off: nat, len: nat) -> nat {
    if len == 0 || ceil32(off + len) <= cur {
        cur
    } else {
        ceil32(off + len)
    }
}

/// `mem` after the range `[off, off + len)` is touched: zeros appended.
pub open spec fn grown(mem: Seq<u8>, off: nat, len: nat) -> Seq<u8> {
    mem + Seq::new((grown_len(mem.len(), off, len) - mem.len()) as nat, |i: int| 0u8)
}

/// Whether touching `[off, off + len)` stays within `limit`.
pub open spec fn range_fits(limit: nat, off: nat, len: nat) -> bool {
    len == 0 || ceil32(off + len) <= limit
}

/// Byte-addressable memory that grows in 32-byte steps; bytes never written
/// read as zero.
pub struct Memory {
    data: Vec<u8>,
    limit: usize,
}

impl View for Memory {
    type V = Seq<u8>;

    closed spec fn view(&self) -> Seq<u8> {
        self.data@
    }
}

impl Memory {
    pub closed spec fn spec_limit(&self) -> nat {
        self.limit as nat
    }

    pub open spec fn wf(&self) -> bool {
        &&& self@.len() % 32 == 0
        &&& self@.len() <= self.spec_limit()
    }

    pub fn new(limit: usize) -> (r: Memory)
        ensures
            r@ == Seq::<u8>::empty(),
            r.spec_limit() == limit,
            r.wf(),
    {
        Memory { data: Vec::new(), limit }
    }

    /// The current size in bytes, a multiple of 32.
    pub fn len(&self) -> (r: usize)
        ensures
            r == self@.len(),
    {
        self.data.len()
    }

    pub fn limit(&self) -> (r: usize)
        ensures
            r == self.spec_limit(),
    {
        self.limit
    }

    pub fn data(&self) -> (r: &Vec<u8>)
        ensures
            r@ == self@,
    {
        &self.data
    }

    /// Makes room for `[offset, offset + len)`, rounding up to 32 bytes and
    /// filling with zeros; nothing happens when `len` is zero.
    pub fn resize_offset(&mut self, offset: usize, len: usize) -> (r: Result<(), ExitError>)
        requires
            old(self).wf(),
        ensures
            final(self).wf(),
            final(self).spec_limit() == old(self).spec_limit(),
            r is Ok <==> range_fits(old(self).spec_limit(), offset as nat, len as nat),
            r is Err ==> r == Err::<(), ExitError>(ExitError::InvalidRange) && final(self)@ == old(
                self,
            )@,
            r is Ok ==> final(self)@ == grown(old(self)@, offset as nat, len as nat),
    {
        if len == 0 {
            assert(self.data@ =~= grown(self.data@, offset as nat, len as nat));
            return Ok(());
        }
        if offset > self.limit || len > self.limit - offset {
            return Err(ExitError::InvalidRange);
        }
        let end = offset + len;
        let rem = end % 32;
        let new_len: usize = if rem == 0 {
            end
        } else {
            if self.limit - end < 32 - rem {
                return Err(ExitError::InvalidRange);
            }
            end + (32 - rem)
        };
        assert(new_len == ceil32(end as nat));
        let ghost before = self.data@;
        while self.data.len() < new_len
            invariant
                self.limit == old(self).limit,
                new_len <= self.limit,
                before == old(self)@,
                self.data@.len() <= new_len || self.data@.len() == before.len(),
                self.data@.len() >= before.len(),
                self.data@.subrange(0, before.len() as int) == before,
                forall|i: int| before.len() <= i < self.data@.len() ==> self.data@[i] == 0u8,
            decreases new_len - self.data@.len(),
        {
            self.data.push(0);
        }
        assert(self.data@ =~= grown(before, offset as nat, len as nat));
        Ok(())
    }

    /// The 32 bytes from `offset` read as a big-endian word.
    pub fn load_word(&self, offset: usize) -> (r: Word)
        requires
            offset + 32 <= self@.len(),
        ensures
            r.val() == be_value(self@.subrange(offset as int, offset + 32)),
    {
        crate::word::word_from_bytes(self.data.as_slice(), offset)
    }

    /// Writes `bytes` from `offset`.
    pub fn set(&mut self, offset: usize, bytes: &Vec<u8>)
        requires
            offset + bytes@.len() <= old(self)@.len(),
        ensures
            final(self)@ == overwrite(old(self)@, offset as int, bytes@),
            final(self).spec_limit() == old(self).spec_limit(),
    {
        let n = self.data.len();
        let mut i: usize = 0;
        while i < bytes.len()
            invariant
                self.limit == old(self).limit,
                offset + bytes@.len() <= old(self)@.len(),
                n == old(self)@.len(),
                i <= bytes@.len(),
                self.data@.len() == old(self)@.len(),
                forall|k: int|
                    0 <= k < self.data@.len() ==> #[trigger] self.data@[k] == if offset <= k
                        < offset + i {
                        bytes@[k - offset]
                    } else {
                        old(self)@[k]
                    },
            decreases bytes@.len() - i,
        {
            self.data.set(offset + i, bytes[i]);
            i += 1;
        }
        assert(self.data@ =~= overwrite(old(self)@, offset as int, bytes@));
    }

    /// Writes `len` bytes of `src` from `src_offset` to `offset`, with zeros
    /// where `src` ends.
    pub fn copy_padded(&mut self, offset: usize, src: &[u8], src_offset: usize, len: usize)
        requires
            offset + len <= old(self)@.len(),
        ensures
            final(self)@ == overwrite(
                old(self)@,
                offset as int,
                padded_slice(src@, src_offset as nat, len as nat),
            ),
            final(self).spec_limit() == old(self).spec_limit(),
    {
        let ghost want = padded_slice(src@, src_offset as nat, len as nat);
        let n = self.data.len();
        let mut i: usize = 0;
        while i < len
            invariant
                self.limit == old(self).limit,
                offset + len <= old(self)@.len(),
                n == old(self)@.len(),
                i <= len,
                want == padded_slice(src@, src_offset as nat, len as nat),
                self.data@.len() == old(self)@.len(),
                forall|k: int|
                    0 <= k < self.data@.len() ==> #[trigger] self.data@[k] == if offset <= k
                        < offset + i {
                        want[k - offset]
                    } else {
                        old(self)@[k]
                    },
            decreases len - i,
        {
            let b: u8 = if src_offset < src.len() && i < src.len() - src_offset {
                src[src_offset + i]
            } else {
                0
            };
            self.data.set(offset + i, b);
            i += 1;
        }
        assert(self.data@ =~= overwrite(old(self)@, offset as int, want));
    }

    /// A copy of `[offset, offset + len)`.
    pub fn get(&self, offset: usize, len: usize) -> (r: Vec<u8>)
        requires
            offset + len <= self@.len(),
        ensures
            r@ == self@.subrange(offset as int, offset + len),
    {
        let n = self.data.len();
        let mut out: Vec<u8> = Vec::new();
        let mut i: usize = 0;
        while i < len
            invariant
                offset + len <= self@.len(),
                n == self@.len(),
                i <= len,
                out@ == self@.subrange(offset as int, offset + i),
            decreases len - i,
        {
            out.push(self.data[offset + i]);
            i += 1;
            assert(out@ =~= self@.subrange(offset as int, offset + i));
        }
        out
    }
}

} // verus!
