//! Item framing and the syscall record codec.
//!
//! A block is a tightly packed sequence of items, each a [`Header`] followed
//! by `size` body bytes, terminated by the sentinel `Header { size: 0, kind:
//! Kind::End }`.  A Syscall item's body starts with a fixed-layout record:
//! the call number, six argument words and a two-word return area, each at a
//! fixed byte offset.

use vstd::prelude::*;
use crate::block::{word_at, Block};

verus! {

/// Bytes occupied by an item header: a size word and a kind word.
pub const HEADER_BYTES: usize = 16;

/// Bytes occupied by the fixed part of a syscall record:
/// one number word, six argument words and two return words.
pub const RECORD_BYTES: usize = 72;

/// Byte offset of the return area inside a syscall record body.
pub const RET_OFFSET: usize = 56;

/// The discriminator of an item's body format.
///
/// On the wire `End` is word `0` and `Syscall` is word `1`; any other word
/// is a corruption condition.
#[derive(Clone, Copy, Debug, PartialEq, Eq, Structural)]
pub enum Kind {
    End,
    Syscall,
}

impl Kind {
    /// The word this kind is encoded as on the wire.
    pub open spec fn spec_word(self) -> u64 {
        match self {
            Kind::End => 0,
            Kind::Syscall => 1,
        }
    }

    /// Encode this kind as its wire word.
    pub fn word(self) -> (w: u64)
        ensures
            w == self.spec_word(),
    {
        match self {
            Kind::End => 0,
            Kind::Syscall => 1,
        }
    }

    /// Decode a wire word; any word other than the two defined kinds is
    /// rejected rather than mapped to a default.
    pub fn try_from(w: u64) -> (r: Result<Kind, ()>)
        ensures
            w == 0 ==> r == Ok::<Kind, ()>(Kind::End),
            w == 1 ==> r == Ok::<Kind, ()>(Kind::Syscall),
            w != 0 && w != 1 ==> r == Err::<Kind, ()>(()),
    {
        if w == 0 {
            Ok(Kind::End)
        } else if w == 1 {
            Ok(Kind::Syscall)
        } else {
            Err(())
        }
    }
}

/// The fixed-width, word-aligned header preceding every item body.
#[derive(Clone, Copy, Debug, PartialEq, Eq, Structural)]
pub struct Header {
    /// Length of the item body in bytes; always a multiple of the word width.
    pub size: u64,
    /// Discriminator of the body format.
    pub kind: Kind,
}

impl Header {
    /// Write this header's two words at byte offset `pos`.
    pub fn write_to(&self, block: &mut Block, pos: usize)
        requires
            pos + 16 <= old(block)@.len(),
        ensures
            final(block)@.len() == old(block)@.len(),
            word_at(final(block)@, pos as int) == self.size,
            word_at(final(block)@, pos as int + 8) == self.kind.spec_word(),
            forall|j: int|
                0 <= j < final(block)@.len() && !(pos <= j < pos + 16) ==> final(block)@[j]
                    == old(block)@[j],
    {
        proof {
            block.lemma_len();
        }
        block.set_word(pos, self.size);
        let ghost m1 = block@;
        block.set_word(pos + 8, self.kind.word());
        proof {
            crate::block::lemma_word_at_frame(m1, block@, pos as int);
        }
    }
}

/// A decoded syscall record: the call number, up to six word arguments
/// (unused slots zero) and a small return area the host fills in place.
#[derive(Clone, Copy, Debug, PartialEq, Eq)]
pub struct Syscall {
    pub num: u64,
    pub argv: [u64; 6],
    pub ret: [u64; 2],
}

/// The call number word of the record whose body starts at `body`.
pub open spec fn record_num(s: Seq<u8>, body: int) -> u64 {
    word_at(s, body)
}

/// Argument word `i` of the record whose body starts at `body`.
pub open spec fn record_arg(s: Seq<u8>, body: int, i: int) -> u64 {
    word_at(s, body + 8 + 8 * i)
}

/// Return word `i` of the record whose body starts at `body`.
pub open spec fn record_ret(s: Seq<u8>, body: int, i: int) -> u64 {
    word_at(s, body + 56 + 8 * i)
}

impl Syscall {
    /// Encode the record's number and arguments at their fixed offsets and
    /// zero the return area.  Only the record's own 72 bytes change.
    pub fn encode_into(&self, block: &mut Block, body: usize)
        requires
            body + 72 <= old(block)@.len(),
        ensures
            final(block)@.len() == old(block)@.len(),
            record_num(final(block)@, body as int) == self.num,
            forall|i: int| 0 <= i < 6 ==> record_arg(final(block)@, body as int, i)
                == self.argv[i],
            forall|i: int| 0 <= i < 2 ==> record_ret(final(block)@, body as int, i)
                == self.ret[i],
            forall|j: int|
                0 <= j < final(block)@.len() && !(body <= j < body + 72) ==> final(block)@[j]
                    == old(block)@[j],
    {
        proof {
            block.lemma_len();
        }
        block.set_word(body, self.num);
        let ghost m0 = block@;
        block.set_word(body + 8, self.argv[0]);
        let ghost m1 = block@;
        block.set_word(body + 16, self.argv[1]);
        let ghost m2 = block@;
        block.set_word(body + 24, self.argv[2]);
        let ghost m3 = block@;
        block.set_word(body + 32, self.argv[3]);
        let ghost m4 = block@;
        block.set_word(body + 40, self.argv[4]);
        let ghost m5 = block@;
        block.set_word(body + 48, self.argv[5]);
        let ghost m6 = block@;
        block.set_word(body + 56, self.ret[0]);
        let ghost m7 = block@;
        block.set_word(body + 64, self.ret[1]);
        proof {
            let b = body as int;
            crate::block::lemma_word_at_frame(m0, block@, b);
            crate::block::lemma_word_at_frame(m1, block@, b + 8);
            crate::block::lemma_word_at_frame(m2, block@, b + 16);
            crate::block::lemma_word_at_frame(m3, block@, b + 24);
            crate::block::lemma_word_at_frame(m4, block@, b + 32);
            crate::block::lemma_word_at_frame(m5, block@, b + 40);
            crate::block::lemma_word_at_frame(m6, block@, b + 48);
            crate::block::lemma_word_at_frame(m7, block@, b + 56);
        }
    }

    /// Decode the record whose body starts at `body`, reading the number,
    /// arguments and return area verbatim from the block.
    pub fn decode_from(block: &Block, body: usize) -> (r: Syscall)
        requires
            body + 72 <= block@.len(),
        ensures
            r.num == record_num(block@, body as int),
            forall|i: int| 0 <= i < 6 ==> r.argv[i] == record_arg(block@, body as int, i),
            forall|i: int| 0 <= i < 2 ==> r.ret[i] == record_ret(block@, body as int, i),
    {
        proof {
            block.lemma_len();
        }
        let num = block.word(body);
        let argv = [
            block.word(body + 8),
            block.word(body + 16),
            block.word(body + 24),
            block.word(body + 32),
            block.word(body + 40),
            block.word(body + 48),
        ];
        let ret = [block.word(body + 56), block.word(body + 64)];
        Syscall { num, argv, ret }
    }
}

/// Write return word 0 of the record whose body starts at `body`; nothing
/// outside that one word changes.
pub fn write_ret0(block: &mut Block, body: usize, r: u64)
    requires
        body + 72 <= old(block)@.len(),
    ensures
        final(block)@.len() == old(block)@.len(),
        record_ret(final(block)@, body as int, 0) == r,
        forall|j: int|
            0 <= j < final(block)@.len() && !(body + 56 <= j < body + 64) ==> final(block)@[j]
                == old(block)@[j],
{
    proof {
        block.lemma_len();
    }
    block.set_word(body + 56, r);
}

/// Read return word 0 of the record whose body starts at `body`.
pub fn read_ret0(block: &Block, body: usize) -> (r: u64)
    requires
        body + 72 <= block@.len(),
    ensures
        r == record_ret(block@, body as int, 0),
{
    proof {
        block.lemma_len();
    }
    block.word(body + 56)
}

} // verus!
