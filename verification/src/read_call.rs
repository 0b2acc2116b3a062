//! A buffer-filling call and its collect-side clamp.
//!
//! Staging reserves a payload region inside the call's own item (max-fit)
//! and embeds the region's offset and length in the argument words, since
//! pointers mean nothing across the trust boundary.  After the host has
//! executed the block, collection interprets the raw return word by the
//! call's own convention and copies the result back into the caller's real
//! buffer — never more than was staged, however large a length the host
//! claims.

use vstd::prelude::*;
use crate::block::Block;
use crate::cursor::ItemInfo;
use crate::item::{read_ret0, record_arg, record_num, record_ret, Kind};
use crate::stage::{align8, staged_arg, Error, Stage, StagedCall};

verus! {

/// The raw call number of the buffer-filling call.
pub const SYS_READ: u64 = 0;

/// A buffer-filling call: the host reads from descriptor `fd` and
/// collection moves the bytes into `buf`.
pub struct Read {
    pub fd: i32,
    pub buf: Vec<u8>,
}

impl Read {
    /// Stage this call: one syscall item whose payload region holds up to
    /// `buf.len()` bytes (max-fit), its offset and length placed in
    /// argument slots 1 and 2.
    pub fn stage(&self, st: &mut Stage) -> (r: Result<StagedCall, Error>)
        requires
            old(st).wf(),
        ensures
            final(st).wf(),
            r.is_err() <==> old(st).free_bytes() < 88,
            r matches Err(e) ==> e == Error::CapacityExceeded && *final(st) == *old(st),
            r matches Ok(sc) ==> ({
                let avail = old(st).free_bytes() - 88;
                let staged = if self.buf@.len() > avail {
                    avail
                } else {
                    self.buf@.len() as int
                };
                &&& sc.body == old(st).spec_head() + 16
                &&& sc.handle.offset == sc.body + 72
                &&& sc.handle.length == staged
                &&& sc.handle.length <= self.buf@.len()
                &&& sc.handle.offset + sc.handle.length <= final(st).mem().len() - 16
                &&& final(st).mem().len() == old(st).mem().len()
                &&& final(st).items() == old(st).items().push(
                    ItemInfo {
                        kind: Kind::Syscall,
                        offset: sc.body as int,
                        size: 72 + align8(staged),
                    },
                )
                &&& record_num(final(st).mem(), sc.body as int) == SYS_READ
                &&& record_arg(final(st).mem(), sc.body as int, 0) == self.fd as i64 as u64
                &&& record_arg(final(st).mem(), sc.body as int, 1) == sc.handle.offset as u64
                &&& record_arg(final(st).mem(), sc.body as int, 2) == sc.handle.length as u64
                &&& record_ret(final(st).mem(), sc.body as int, 0) == 0
                &&& forall|j: int|
                    0 <= j < old(st).spec_head() ==> final(st).mem()[j] == old(st).mem()[j]
            }),
    {
        let argv: [u64; 6] = [self.fd as i64 as u64, 0, 0, 0, 0, 0];
        proof {
            assert(argv[0] == self.fd as i64 as u64 && argv[1] == 0 && argv[2] == 0);
        }
        let r = st.stage_syscall(SYS_READ, argv, self.buf.len(), Some(1));
        match r {
            Ok(sc) => {
                proof {
                    assert(record_arg(st.mem(), sc.body as int, 0) == staged_arg(
                        argv,
                        Some(1),
                        sc.handle,
                        0,
                    ));
                    assert(record_arg(st.mem(), sc.body as int, 1) == staged_arg(
                        argv,
                        Some(1),
                        sc.handle,
                        1,
                    ));
                    assert(record_arg(st.mem(), sc.body as int, 2) == staged_arg(
                        argv,
                        Some(1),
                        sc.handle,
                        2,
                    ));
                }
                Ok(sc)
            },
            Err(e) => Err(e),
        }
    }

    /// Collect this call's result after the host has executed the block.
    ///
    /// A raw return word in the negative range (two's complement) is this
    /// call's failure and is surfaced unchanged, with the buffer untouched.
    /// Otherwise the host-reported magnitude is untrusted input: it is
    /// clamped to the staged length, and exactly that many bytes are copied
    /// back into the front of `buf` — never the host's claim.
    #[verifier::loop_isolation(false)]
    pub fn collect(&mut self, sc: StagedCall, block: &Block) -> (r: Result<usize, i64>)
        requires
            sc.body + 72 <= block@.len(),
            sc.handle.offset + sc.handle.length <= block@.len(),
            sc.handle.length <= old(self).buf@.len(),
        ensures
            final(self).fd == old(self).fd,
            final(self).buf@.len() == old(self).buf@.len(),
            ({
                let raw = record_ret(block@, sc.body as int, 0);
                if (raw as i64) < 0 {
                    &&& r == Err::<usize, i64>(raw as i64)
                    &&& final(self).buf@ == old(self).buf@
                } else {
                    let m = if raw as int > sc.handle.length as int {
                        sc.handle.length as int
                    } else {
                        raw as int
                    };
                    &&& r == Ok::<usize, i64>(m as usize)
                    &&& final(self).buf@ == block@.subrange(
                        sc.handle.offset as int,
                        sc.handle.offset + m,
                    ) + old(self).buf@.skip(m)
                }
            }),
    {
        proof {
            block.lemma_len();
        }
        let raw = read_ret0(block, sc.body);
        let sraw = #[verifier::truncate] (raw as i64);
        if sraw < 0 {
            return Err(sraw);
        }
        let l = sc.handle.length;
        let m: usize = if raw > l as u64 {
            l
        } else {
            raw as usize
        };
        let mut j: usize = 0;
        while j < m
            invariant
                j <= m,
                self.buf@.len() == old(self).buf@.len(),
                self.fd == old(self).fd,
                forall|t: int|
                    0 <= t < j ==> self.buf@[t] == block@[sc.handle.offset + t],
                forall|t: int| j <= t < self.buf@.len() ==> self.buf@[t] == old(self).buf@[t],
            decreases m - j,
        {
            let b = block.byte(sc.handle.offset + j);
            self.buf[j] = b;
            j = j + 1;
        }
        proof {
            assert(self.buf@ =~= block@.subrange(
                sc.handle.offset as int,
                sc.handle.offset + m as int,
            ) + old(self).buf@.skip(m as int));
        }
        Ok(m)
    }
}

} // verus!
