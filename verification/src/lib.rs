//! A call-gate block protocol for hardware-isolated guests.
//!
//! Code running inside an isolated trust domain (an enclave or a confined
//! guest) cannot issue operating-system calls directly.  Instead it stages
//! call requests into a fixed-capacity shared memory region (a *block*),
//! hands the block to the untrusted host, and collects the results after the
//! host has executed the calls.  Every length and offset that crosses the
//! trust boundary is adversarially untrusted, so all walking and marshaling
//! here is bounds-checked and verified.
//!
//! - [`block`]: the shared memory region and word-level access to it.
//! - [`item`]: item framing (headers, kinds) and the syscall record codec.
//! - [`cursor`]: the bounds-checked cursor that walks a block's items.
//! - [`stage`]: the monotonic staging allocator used while building a block.
//! - [`policy`]: per-call binding policy (answer locally or cross).
//! - [`read_call`]: a buffer-filling call with its collect-side clamp.
//! - [`host`]: the host-side executor that dispatches staged calls.

pub mod block;
pub mod cursor;
pub mod host;
pub mod item;
pub mod policy;
pub mod read_call;
pub mod stage;
