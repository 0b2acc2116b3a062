//! The shared memory region carrying one batch of call items.
//!
//! A [`Block`] is a fixed-capacity, word-aligned byte region.  Both sides of
//! the trust boundary read and write it at disjoint times, so nothing about
//! its contents is ever trusted: every access here is bounds-checked and the
//! word-level helpers carry exact contracts over the byte view.

use vstd::prelude::*;
use vstd::bytes::{lemma_auto_spec_u64_to_from_le_bytes, spec_u64_from_le_bytes, spec_u64_to_le_bytes, u64_from_le_bytes, u64_to_le_bytes};
use vstd::slice::slice_subrange;

verus! {

/// Width of a protocol word in bytes.
pub const WORD_BYTES: usize = 8;

/// The protocol word stored little-endian at byte offset `off` of `s`.
pub open spec fn word_at(s: Seq<u8>, off: int) -> u64 {
    spec_u64_from_le_bytes(s.subrange(off, off + 8))
}

/// A word read depends only on the eight bytes it covers.
pub proof fn lemma_word_at_frame(s1: Seq<u8>, s2: Seq<u8>, off: int)
    requires
        0 <= off,
        off + 8 <= s1.len(),
        off + 8 <= s2.len(),
        forall|j: int| off <= j < off + 8 ==> s1[j] == s2[j],
    ensures
        word_at(s1, off) == word_at(s2, off),
{
    assert(s1.subrange(off, off + 8) =~= s2.subrange(off, off + 8));
}

/// A fixed-capacity, word-aligned region of shared memory.
///
/// The capacity is fixed at construction and never grows.  The view is the
/// full byte contents of the region.
pub struct Block {
    data: Vec<u8>,
}

impl View for Block {
    type V = Seq<u8>;

    closed spec fn view(&self) -> Seq<u8> {
        self.data@
    }
}

impl Block {
    /// A well-formed block's capacity is a whole number of words.
    pub open spec fn wf(&self) -> bool {
        self@.len() % 8 == 0
    }

    /// A zero-filled block of `words` protocol words.
    pub fn new(words: usize) -> (b: Block)
        requires
            words <= usize::MAX / 8,
        ensures
            b.wf(),
            b@.len() == 8 * words,
            forall|j: int| 0 <= j < b@.len() ==> b@[j] == 0u8,
    {
        let mut data: Vec<u8> = Vec::new();
        let n = words * 8;
        while data.len() < n
            invariant
                data@.len() <= n,
                forall|j: int| 0 <= j < data@.len() ==> data@[j] == 0u8,
            decreases n - data@.len(),
        {
            data.push(0u8);
        }
        Block { data }
    }

    /// A block holding the given word sequence, each word little-endian.
    pub fn from_words(words: &Vec<u64>) -> (b: Block)
        requires
            words@.len() <= usize::MAX / 8,
        ensures
            b.wf(),
            b@.len() == 8 * words@.len(),
            forall|k: int| 0 <= k < words@.len() ==> word_at(b@, 8 * k) == words@[k],
    {
        proof {
            lemma_auto_spec_u64_to_from_le_bytes();
        }
        let mut data: Vec<u8> = Vec::new();
        let mut k: usize = 0;
        while k < words.len()
            invariant
                k <= words@.len(),
                words@.len() <= usize::MAX / 8,
                data@.len() == 8 * k,
                forall|i: int| 0 <= i < k ==> #[trigger] data@.subrange(8 * i, 8 * i + 8)
                    =~= spec_u64_to_le_bytes(words@[i]),
            decreases words@.len() - k,
        {
            let ghost prev = data@;
            let mut tail = u64_to_le_bytes(words[k]);
            data.append(&mut tail);
            proof {
                assert forall|i: int| 0 <= i < k + 1 implies #[trigger] data@.subrange(
                    8 * i,
                    8 * i + 8,
                ) =~= spec_u64_to_le_bytes(words@[i]) by {
                    if i < k {
                        assert(prev.subrange(8 * i, 8 * i + 8) =~= spec_u64_to_le_bytes(
                            words@[i],
                        ));
                        assert(data@.subrange(8 * i, 8 * i + 8) =~= prev.subrange(
                            8 * i,
                            8 * i + 8,
                        ));
                    } else {
                        assert(data@.subrange(8 * i, 8 * i + 8) =~= spec_u64_to_le_bytes(
                            words@[i],
                        ));
                    }
                }
            }
            k = k + 1;
        }
        let b = Block { data };
        proof {
            assert forall|i: int| 0 <= i < words@.len() implies word_at(b@, 8 * i)
                == words@[i] by {
                assert(b@.subrange(8 * i, 8 * i + 8) =~= spec_u64_to_le_bytes(words@[i]));
            }
        }
        b
    }

    /// The byte view never outgrows the address space, so offsets that fit
    /// under the capacity can be computed without overflow.
    pub proof fn lemma_len(&self)
        ensures
            self@.len() <= usize::MAX,
    {
        broadcast use vstd::std_specs::vec::axiom_spec_len;

        assert(vstd::std_specs::vec::spec_vec_len(&self.data) == self.data@.len());
    }

    /// The block's capacity in bytes.
    pub fn capacity(&self) -> (n: usize)
        ensures
            n == self@.len(),
    {
        self.data.len()
    }

    /// The byte at offset `i`.
    pub fn byte(&self, i: usize) -> (b: u8)
        requires
            i < self@.len(),
        ensures
            b == self@[i as int],
    {
        self.data[i]
    }

    /// Overwrite the byte at offset `i`.
    pub fn set_byte(&mut self, i: usize, b: u8)
        requires
            i < old(self)@.len(),
        ensures
            final(self)@ == old(self)@.update(i as int, b),
    {
        self.data[i] = b;
    }

    /// The word stored little-endian at byte offset `off`.
    pub fn word(&self, off: usize) -> (w: u64)
        requires
            off + 8 <= self@.len(),
        ensures
            w == word_at(self@, off as int),
    {
        let n = self.data.len();
        assert(off + 8 <= n);
        let s = slice_subrange(self.data.as_slice(), off, off + 8);
        u64_from_le_bytes(s)
    }

    /// Store `w` little-endian at byte offset `off`; no other byte changes.
    pub fn set_word(&mut self, off: usize, w: u64)
        requires
            off + 8 <= old(self)@.len(),
        ensures
            final(self)@.len() == old(self)@.len(),
            word_at(final(self)@, off as int) == w,
            forall|j: int|
                0 <= j < final(self)@.len() && !(off <= j < off + 8) ==> final(self)@[j]
                    == old(self)@[j],
    {
        proof {
            lemma_auto_spec_u64_to_from_le_bytes();
        }
        let bytes = u64_to_le_bytes(w);
        let n = self.data.len();
        let mut i: usize = 0;
        while i < 8
            invariant
                i <= 8,
                bytes@ == spec_u64_to_le_bytes(w),
                bytes@.len() == 8,
                off + 8 <= n,
                n == self.data@.len(),
                n <= usize::MAX,
                self.data@.len() == old(self)@.len(),
                forall|j: int| off <= j < off + i ==> self.data@[j] == bytes@[j - off],
                forall|j: int|
                    0 <= j < self.data@.len() && !(off <= j < off + i) ==> self.data@[j]
                        == old(self)@[j],
            decreases 8 - i,
        {
            self.data[off + i] = bytes[i];
            i = i + 1;
        }
        proof {
            assert(self.data@.subrange(off as int, off as int + 8) =~= spec_u64_to_le_bytes(w));
        }
    }
}

} // verus!
