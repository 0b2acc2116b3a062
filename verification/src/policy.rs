//! The per-call binding policy.
//!
//! Before any boundary crossing, each wrapped call decides whether it can
//! be answered locally.  The decision is a total function over the call's
//! discriminating arguments: every combination either yields a canned
//! result (Stub), is rejected with a defined error, or is staged and
//! crossed to the host — nothing falls through, and unmatched combinations
//! are a defined error rather than a silent crossing.
//!
//! The descriptor-control call modelled here is representative: fixed
//! standard descriptors answer the flag query locally, other commands on
//! those descriptors are rejected, a whitelist of commands on arbitrary
//! descriptors crosses, and everything else is rejected with a distinct
//! error.

use vstd::prelude::*;
use crate::cursor::ItemInfo;
use crate::item::{record_arg, record_num, record_ret, Kind};
use crate::stage::{Stage, StagedCall};

verus! {

// Wire values of the platform ABI, as the platform's libc defines them.
pub const STDIN_FILENO: i32 = 0;

pub const STDOUT_FILENO: i32 = 1;

pub const STDERR_FILENO: i32 = 2;

pub const F_GETFD: i32 = 1;

pub const F_SETFD: i32 = 2;

pub const F_GETFL: i32 = 3;

pub const F_SETFL: i32 = 4;

pub const O_WRONLY: i32 = 1;

pub const O_RDWR: i32 = 2;

pub const O_APPEND: i32 = 1024;

pub const EINVAL: i32 = 22;

pub const EBADFD: i32 = 77;

pub const ENOMEM: i32 = 12;

/// The raw call number of the descriptor-control call.
pub const SYS_FCNTL: u64 = 72;

/// A descriptor-control call: a file descriptor, a command, and the
/// command's argument word.
#[derive(Clone, Copy, Debug, PartialEq, Eq, Structural)]
pub struct Fcntl {
    pub fd: i32,
    pub cmd: i32,
    pub arg: i32,
}

/// A descriptor-control call the policy has decided to cross to the host.
#[derive(Clone, Copy, Debug, PartialEq, Eq, Structural)]
pub struct AllocFcntl(pub Fcntl);

/// The policy's verdict before anything touches the block: either a canned
/// success value, or a call that must be staged and crossed.
#[derive(Clone, Copy, Debug, PartialEq, Eq, Structural)]
pub enum UnstagedMaybeAlloc {
    /// Answered locally with this value; the host and the block are never
    /// touched.
    Stub(i32),
    /// Must be staged into the block and crossed to the host.
    Alloc(AllocFcntl),
}

/// The full decision table for the descriptor-control call, total over
/// every argument combination.
pub open spec fn fcntl_decision(c: Fcntl) -> Result<UnstagedMaybeAlloc, i32> {
    if c.fd == STDIN_FILENO && c.cmd == F_GETFL {
        Ok(UnstagedMaybeAlloc::Stub(O_RDWR | O_APPEND))
    } else if (c.fd == STDOUT_FILENO || c.fd == STDERR_FILENO) && c.cmd == F_GETFL {
        Ok(UnstagedMaybeAlloc::Stub(O_WRONLY))
    } else if c.fd == STDIN_FILENO || c.fd == STDOUT_FILENO || c.fd == STDERR_FILENO {
        Err(EINVAL)
    } else if c.cmd == F_GETFD || c.cmd == F_SETFD || c.cmd == F_GETFL || c.cmd == F_SETFL {
        Ok(UnstagedMaybeAlloc::Alloc(AllocFcntl(c)))
    } else {
        Err(EBADFD)
    }
}

impl Fcntl {
    /// Decide this call's binding: exactly [`fcntl_decision`], with every
    /// branch covered.
    pub fn stage(self) -> (r: Result<UnstagedMaybeAlloc, i32>)
        ensures
            r == fcntl_decision(self),
    {
        if self.fd == STDIN_FILENO && self.cmd == F_GETFL {
            Ok(UnstagedMaybeAlloc::Stub(O_RDWR | O_APPEND))
        } else if (self.fd == STDOUT_FILENO || self.fd == STDERR_FILENO) && self.cmd == F_GETFL {
            Ok(UnstagedMaybeAlloc::Stub(O_WRONLY))
        } else if self.fd == STDIN_FILENO || self.fd == STDOUT_FILENO || self.fd
            == STDERR_FILENO {
            Err(EINVAL)
        } else if self.cmd == F_GETFD || self.cmd == F_SETFD || self.cmd == F_GETFL || self.cmd
            == F_SETFL {
            Ok(UnstagedMaybeAlloc::Alloc(AllocFcntl(self)))
        } else {
            Err(EBADFD)
        }
    }
}

impl AllocFcntl {
    /// The three argument words of the crossed call, each sign-extended to
    /// a full word as the raw convention expects.
    pub fn stage(&self) -> (argv: [u64; 3])
        ensures
            argv[0] == self.0.fd as i64 as u64,
            argv[1] == self.0.cmd as i64 as u64,
            argv[2] == self.0.arg as i64 as u64,
    {
        [self.0.fd as i64 as u64, self.0.cmd as i64 as u64, self.0.arg as i64 as u64]
    }
}

/// What became of a descriptor-control call that was accepted: answered
/// locally, or staged into the block for the host.
#[derive(Clone, Copy, Debug, PartialEq, Eq, Structural)]
pub enum FcntlStaged {
    /// Answered locally with this value.
    Stubbed(i32),
    /// Staged; the record sits at this position in the block.
    Staged(StagedCall),
}

/// Run the binding policy for one descriptor-control call and, when it
/// says to cross, stage the call's record into the block.
///
/// Policy rejections come back exactly as the decision table defines them;
/// a block too full to hold even the fixed record surfaces as its own
/// error and leaves the allocator unchanged.
pub fn stage_fcntl(st: &mut Stage, c: Fcntl) -> (r: Result<FcntlStaged, i32>)
    requires
        old(st).wf(),
    ensures
        final(st).wf(),
        fcntl_decision(c) matches Err(e) ==> r == Err::<FcntlStaged, i32>(e) && *final(st)
            == *old(st),
        fcntl_decision(c) matches Ok(UnstagedMaybeAlloc::Stub(v)) ==> r == Ok::<
            FcntlStaged,
            i32,
        >(FcntlStaged::Stubbed(v)) && *final(st) == *old(st),
        fcntl_decision(c) matches Ok(UnstagedMaybeAlloc::Alloc(a)) && old(st).free_bytes() < 88
            ==> r == Err::<FcntlStaged, i32>(ENOMEM) && *final(st) == *old(st),
        fcntl_decision(c) matches Ok(UnstagedMaybeAlloc::Alloc(a)) && old(st).free_bytes() >= 88
            ==> match r {
            Ok(FcntlStaged::Staged(sc)) => {
                &&& sc.body == old(st).spec_head() + 16
                &&& final(st).items() == old(st).items().push(
                    ItemInfo { kind: Kind::Syscall, offset: sc.body as int, size: 72 },
                )
                &&& final(st).mem().len() == old(st).mem().len()
                &&& record_num(final(st).mem(), sc.body as int) == SYS_FCNTL
                &&& record_arg(final(st).mem(), sc.body as int, 0) == c.fd as i64 as u64
                &&& record_arg(final(st).mem(), sc.body as int, 1) == c.cmd as i64 as u64
                &&& record_arg(final(st).mem(), sc.body as int, 2) == c.arg as i64 as u64
                &&& record_ret(final(st).mem(), sc.body as int, 0) == 0
                &&& forall|j: int|
                    0 <= j < old(st).spec_head() ==> final(st).mem()[j] == old(st).mem()[j]
            },
            _ => false,
        },
{
    match c.stage() {
        Err(e) => Err(e),
        Ok(UnstagedMaybeAlloc::Stub(v)) => Ok(FcntlStaged::Stubbed(v)),
        Ok(UnstagedMaybeAlloc::Alloc(a)) => {
            let argv3 = a.stage();
            let argv: [u64; 6] = [argv3[0], argv3[1], argv3[2], 0, 0, 0];
            proof {
                assert(argv[0] == argv3[0] && argv[1] == argv3[1] && argv[2] == argv3[2]
                    && argv[3] == 0 && argv[4] == 0 && argv[5] == 0);
            }
            match st.stage_syscall(SYS_FCNTL, argv, 0, None) {
                Err(_) => Err(ENOMEM),
                Ok(sc) => {
                    proof {
                        assert(crate::stage::align8(0) == 0);
                        assert forall|k: int|
                            0 <= k < 6 implies record_arg(st.mem(), sc.body as int, k)
                            == argv[k] by {
                            assert(record_arg(st.mem(), sc.body as int, k)
                                == crate::stage::staged_arg(argv, None, sc.handle, k));
                        }
                    }
                    Ok(FcntlStaged::Staged(sc))
                },
            }
        },
    }
}

} // verus!
