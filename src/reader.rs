//! An in-memory byte source with random access, for codecs that probe a stream.
use vstd::prelude::*;

verus! {

/// Where a seek is measured from, with the offset.
#[derive(Debug, Clone, Copy, PartialEq, Eq, Structural)]
pub enum SeekPos {
    Start(u64),
    End(i64),
    Current(i64),
}

/// A byte buffer read from a current position.
pub struct AudioReader {
    pos: usize,
    buf: Vec<u8>,
}

/// The position a seek aims at, from the buffer length and the current position.
pub open spec fn seek_target(len: nat, pos: nat, to: SeekPos) -> int {
    match to {
        SeekPos::Start(s) => s as int,
        SeekPos::End(e) => len + e,
        SeekPos::Current(c) => pos + c,
    }
}

impl AudioReader {
    /// The bytes.
    pub closed spec fn data(&self) -> Seq<u8> {
        self.buf@
    }

    /// The position the next read starts at.
    pub closed spec fn position(&self) -> nat {
        self.pos as nat
    }

    /// The position never passes the end of the bytes.
    pub closed spec fn wf(&self) -> bool {
        self.pos <= self.buf@.len()
    }

    pub fn new(buf: Vec<u8>) -> (r: AudioReader)
        ensures
            r.wf(),
            r.data() == buf@,
            r.position() == 0,
    {
        AudioReader { pos: 0, buf }
    }

    /// The number of bytes.
    pub fn byte_len(&self) -> (r: u64)
        ensures
            r as nat == self.data().len(),
    {
        self.buf.len() as u64
    }

    /// Moves the position; a target before the start or past the end fails and leaves the
    /// position as it was.
    pub fn seek(&mut self, to: SeekPos) -> (r: Option<u64>)
        requires
            old(self).wf(),
        ensures
            final(self).wf(),
            final(self).data() == old(self).data(),
            ({
                let t = seek_target(old(self).data().len(), old(self).position(), to);
                if 0 <= t <= old(self).data().len() {
                    r == Some(t as u64) && final(self).position() == t
                } else {
                    r is None && final(self).position() == old(self).position()
                }
            }),
    {
        let len = self.buf.len();
        let base: i128 = match to {
            SeekPos::Start(_) => 0,
            SeekPos::End(_) => len as i128,
            SeekPos::Current(_) => self.pos as i128,
        };
        let off: i128 = match to {
            SeekPos::Start(s) => s as i128,
            SeekPos::End(e) => e as i128,
            SeekPos::Current(c) => c as i128,
        };
        let target: i128 = base + off;
        if 0 <= target && target <= len as i128 {
            self.pos = target as usize;
            Some(target as u64)
        } else {
            None
        }
    }

    /// Copies bytes from the position on into `out`, as many as fit, and moves the position
    /// past them; at the end it copies none.
    pub fn read(&mut self, out: &mut [u8]) -> (r: usize)
        requires
            old(self).wf(),
        ensures
            final(self).wf(),
            final(self).data() == old(self).data(),
            r == if old(out)@.len() < old(self).data().len() - old(self).position() {
                old(out)@.len() as int
            } else {
                old(self).data().len() - old(self).position()
            },
            final(self).position() == old(self).position() + r,
            final(out)@.len() == old(out)@.len(),
            final(out)@.subrange(0, r as int) == old(self).data().subrange(
                old(self).position() as int,
                old(self).position() + r,
            ),
            final(out)@.subrange(r as int, old(out)@.len() as int) == old(out)@.subrange(
                r as int,
                old(out)@.len() as int,
            ),
    {
        let start = self.pos;
        let total = self.buf.len();
        let avail = total - start;
        let n = if out.len() < avail { out.len() } else { avail };
        let mut i: usize = 0;
        while i < n
            invariant
                n <= out@.len(),
                start + n <= total,
                total == self.buf@.len(),
                i <= n,
                out@.len() == old(out)@.len(),
                forall|j: int| 0 <= j < i ==> out@[j] == self.buf@[start + j],
                forall|j: int| n <= j < out@.len() ==> out@[j] == old(out)@[j],
            decreases n - i,
        {
            out[i] = self.buf[start + i];
            i = i + 1;
        }
        self.pos = start + n;
        assert(out@.subrange(0, n as int) =~= self.buf@.subrange(start as int, start + n));
        assert(out@.subrange(n as int, out@.len() as int) =~= old(out)@.subrange(
            n as int,
            old(out)@.len() as int,
        ));
        n
    }
}

} // verus!
