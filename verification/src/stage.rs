//! The monotonic staging allocator.
//!
//! While the guest owns a block it stages call items into it through a
//! [`Stage`]: a bump allocator over the block's free byte range.  Staging is
//! max-fit, never wrapping: a payload request larger than the remaining free
//! space reserves exactly what is left and reports it, so bulk transfers can
//! make partial progress instead of failing outright.  Room for the End
//! sentinel is reserved from the start, so a finished block always carries
//! its terminator within the declared capacity.

use vstd::prelude::*;
use crate::block::{lemma_word_at_frame, word_at, Block};
use crate::cursor::{parse_items, terminal_status, ItemInfo, Status};
use crate::item::{Header, Kind, Syscall};
use crate::item::{record_arg, record_num, record_ret};

verus! {

/// An offset+length reference into a block, standing in for a pointer
/// across the trust boundary.  It never aliases another live handle and
/// always lies within the block's capacity.
#[derive(Clone, Copy, Debug, PartialEq, Eq, Structural)]
pub struct Handle {
    pub offset: usize,
    pub length: usize,
}

/// A staged syscall item: where its record body starts and where its
/// indirect payload region lies.
#[derive(Clone, Copy, Debug, PartialEq, Eq, Structural)]
pub struct StagedCall {
    /// Byte offset of the item's record body inside the block.
    pub body: usize,
    /// The payload region reserved for this item, possibly shorter than
    /// requested (max-fit).
    pub handle: Handle,
}

/// A structural staging failure: even the fixed record would not fit in the
/// block's remaining free space.
#[derive(Clone, Copy, Debug, PartialEq, Eq, Structural)]
pub enum Error {
    CapacityExceeded,
}

/// `n` rounded up to the next multiple of the word width.
pub open spec fn align8(n: int) -> int {
    ((n + 7) / 8) * 8
}

/// Word-aligning a length keeps it within any word-aligned bound it was
/// under.
proof fn lemma_align8_fit(n: int, bound: int)
    by (nonlinear_arith)
    requires
        0 <= n <= bound,
        bound % 8 == 0,
    ensures
        n <= align8(n) <= bound,
        align8(n) % 8 == 0,
{
}

/// The bytes `[pos, end)` of `s` hold exactly the item chain `items`,
/// tightly packed, each header well formed, with no terminator yet.
pub open spec fn parses_to(s: Seq<u8>, pos: int, end: int, items: Seq<ItemInfo>) -> bool
    decreases items.len(),
{
    if items.len() == 0 {
        pos == end
    } else {
        let it = items[0];
        &&& it.kind == Kind::Syscall
        &&& it.offset == pos + 16
        &&& 0 <= it.size
        &&& it.size % 8 == 0
        &&& pos + 16 + it.size <= end
        &&& end <= s.len()
        &&& word_at(s, pos) as int == it.size
        &&& word_at(s, pos + 8) == 1
        &&& parses_to(s, pos + 16 + it.size, end, items.skip(1))
    }
}

/// A staged chain only depends on the bytes it occupies: writes at or past
/// its end (or before its start) leave it a chain of the same items.
pub proof fn lemma_parses_to_frame(s1: Seq<u8>, s2: Seq<u8>, pos: int, end: int, items: Seq<ItemInfo>)
    requires
        parses_to(s1, pos, end, items),
        0 <= pos,
        s1.len() == s2.len(),
        forall|j: int| pos <= j < end ==> s1[j] == s2[j],
    ensures
        parses_to(s2, pos, end, items),
    decreases items.len(),
{
    if items.len() > 0 {
        lemma_word_at_frame(s1, s2, pos);
        lemma_word_at_frame(s1, s2, pos + 8);
        lemma_parses_to_frame(s1, s2, pos + 16 + items[0].size, end, items.skip(1));
    }
}

/// Appending one well-formed item at the end of a chain extends the chain.
pub proof fn lemma_parses_to_snoc(s: Seq<u8>, pos: int, end: int, items: Seq<ItemInfo>, it: ItemInfo)
    requires
        parses_to(s, pos, end, items),
        it.kind == Kind::Syscall,
        it.offset == end + 16,
        0 <= it.size,
        it.size % 8 == 0,
        end + 16 + it.size <= s.len(),
        word_at(s, end) as int == it.size,
        word_at(s, end + 8) == 1,
    ensures
        parses_to(s, pos, end + 16 + it.size, items.push(it)),
    decreases items.len(),
{
    let lst = items.push(it);
    let end2 = end + 16 + it.size;
    if items.len() == 0 {
        assert(lst =~= seq![it]);
        assert(lst.skip(1) =~= Seq::<ItemInfo>::empty());
        assert(parses_to(s, pos + 16 + it.size, end2, lst.skip(1)));
        assert(parses_to(s, pos, end2, lst));
    } else {
        lemma_parses_to_snoc(s, pos + 16 + items[0].size, end, items.skip(1), it);
        assert(lst.skip(1) =~= items.skip(1).push(it));
        assert(lst[0] == items[0]);
        assert(parses_to(s, pos + 16 + lst[0].size, end2, lst.skip(1)));
        assert(parses_to(s, pos, end2, lst));
    }
}

/// Every item of a chain lies between its own header and the chain's end.
pub proof fn lemma_parses_to_bounds(s: Seq<u8>, pos: int, end: int, items: Seq<ItemInfo>)
    requires
        parses_to(s, pos, end, items),
    ensures
        forall|i: int|
            0 <= i < items.len() ==> pos + 16 <= (#[trigger] items[i]).offset && items[i].offset
                + items[i].size <= end,
    decreases items.len(),
{
    if items.len() > 0 {
        lemma_parses_to_order(s, pos + 16 + items[0].size, end, items.skip(1));
        lemma_parses_to_bounds(s, pos + 16 + items[0].size, end, items.skip(1));
        assert forall|i: int|
            0 <= i < items.len() implies pos + 16 <= (#[trigger] items[i]).offset && items[i].offset
            + items[i].size <= end by {
            if i > 0 {
                assert(items[i] == items.skip(1)[i - 1]);
            }
        }
    }
}

/// Writing inside one chained item's body leaves the chain intact: the
/// chain's meaning rests on its headers alone.
pub proof fn lemma_parses_to_body_write(
    s1: Seq<u8>,
    s2: Seq<u8>,
    pos: int,
    end: int,
    items: Seq<ItemInfo>,
    k: int,
    a: int,
    b: int,
)
    requires
        parses_to(s1, pos, end, items),
        0 <= pos,
        s1.len() == s2.len(),
        0 <= k < items.len(),
        a <= b,
        items[k].offset <= a,
        b <= items[k].offset + items[k].size,
        forall|j: int| pos <= j < end && !(a <= j < b) ==> s1[j] == s2[j],
    ensures
        parses_to(s2, pos, end, items),
    decreases k,
{
    lemma_parses_to_bounds(s1, pos, end, items);
    lemma_word_at_frame(s1, s2, pos);
    lemma_word_at_frame(s1, s2, pos + 8);
    let pos2 = pos + 16 + items[0].size;
    if k == 0 {
        assert(b <= pos2);
        lemma_parses_to_frame(s1, s2, pos2, end, items.skip(1));
    } else {
        assert(items[k] == items.skip(1)[k - 1]);
        lemma_parses_to_body_write(s1, s2, pos2, end, items.skip(1), k - 1, a, b);
    }
}

/// The region `h` lies inside the body of one item of `items`.
pub open spec fn handle_in_items(items: Seq<ItemInfo>, h: Handle) -> bool {
    exists|k: int|
        0 <= k < items.len() && (#[trigger] items[k]).offset <= h.offset && h.offset + h.length
            <= items[k].offset + items[k].size
}

/// A chain followed by a clean End sentinel is exactly what the cursor
/// yields.
pub proof fn lemma_parses_to_parse_items(s: Seq<u8>, pos: int, end: int, items: Seq<ItemInfo>)
    requires
        parses_to(s, pos, end, items),
        0 <= pos,
        pos <= end,
        end + 16 <= s.len(),
        word_at(s, end) == 0,
        word_at(s, end + 8) == 0,
    ensures
        parse_items(s, pos) == items,
    decreases items.len(),
{
    if items.len() == 0 {
        assert(parse_items(s, pos) =~= items);
    } else {
        lemma_parses_to_order(s, pos + 16 + items[0].size, end, items.skip(1));
        lemma_parses_to_parse_items(s, pos + 16 + items[0].size, end, items.skip(1));
        assert(parse_items(s, pos) =~= seq![items[0]] + parse_items(s, pos + 16 + items[0].size));
        assert(seq![items[0]] + items.skip(1) =~= items);
    }
}

/// A chain's start never lies past its end.
pub proof fn lemma_parses_to_order(s: Seq<u8>, pos: int, end: int, items: Seq<ItemInfo>)
    requires
        parses_to(s, pos, end, items),
    ensures
        pos <= end,
    decreases items.len(),
{
    if items.len() > 0 {
        lemma_parses_to_order(s, pos + 16 + items[0].size, end, items.skip(1));
    }
}

/// Argument word `k` of a staged record: the caller's word, except that
/// when a handle slot is given, that slot and the next carry the payload
/// region's offset and length.
pub open spec fn staged_arg(argv: [u64; 6], handle_slot: Option<usize>, h: Handle, k: int) -> u64 {
    match handle_slot {
        Some(i) => {
            if k == i {
                h.offset as u64
            } else if k == i + 1 {
                h.length as u64
            } else {
                argv[k]
            }
        },
        None => argv[k],
    }
}

/// Rebuild an argument vector with slot `i` replaced by `v`.
fn set_slot(argv: [u64; 6], i: usize, v: u64) -> (r: [u64; 6])
    requires
        i < 6,
    ensures
        forall|k: int| 0 <= k < 6 ==> r[k] == if k == i { v } else { argv[k] },
{
    match i {
        0 => [v, argv[1], argv[2], argv[3], argv[4], argv[5]],
        1 => [argv[0], v, argv[2], argv[3], argv[4], argv[5]],
        2 => [argv[0], argv[1], v, argv[3], argv[4], argv[5]],
        3 => [argv[0], argv[1], argv[2], v, argv[4], argv[5]],
        4 => [argv[0], argv[1], argv[2], argv[3], v, argv[5]],
        _ => [argv[0], argv[1], argv[2], argv[3], argv[4], v],
    }
}

/// A block being filled by the guest, together with the bump allocator's
/// head and the chain of items staged so far.
pub struct Stage {
    block: Block,
    head: usize,
    items: Ghost<Seq<ItemInfo>>,
}

impl Stage {
    /// The block bytes staged so far.
    pub closed spec fn mem(&self) -> Seq<u8> {
        self.block@
    }

    /// The bump allocator's head: the first free byte.
    pub closed spec fn spec_head(&self) -> int {
        self.head as int
    }

    /// The items staged so far, in block order.
    pub closed spec fn items(&self) -> Seq<ItemInfo> {
        self.items@
    }

    /// Free bytes available to the next item (its header and record
    /// included); room for the End sentinel is already set aside.
    pub open spec fn free_bytes(&self) -> int {
        self.mem().len() - self.spec_head() - 16
    }

    /// The allocator's invariant: the head is word-aligned, the sentinel's
    /// room remains, and the bytes below the head hold exactly the staged
    /// chain.
    pub closed spec fn wf(&self) -> bool {
        &&& self.block@.len() % 8 == 0
        &&& self.head % 8 == 0
        &&& self.head + 16 <= self.block@.len()
        &&& parses_to(self.block@, 0, self.head as int, self.items@)
    }

    /// A fresh, zero-filled staging block of `words` protocol words.
    pub fn new(words: usize) -> (st: Stage)
        requires
            2 <= words,
            words <= usize::MAX / 8,
        ensures
            st.wf(),
            st.items() == Seq::<ItemInfo>::empty(),
            st.spec_head() == 0,
            st.mem().len() == 8 * words,
    {
        let st = Stage { block: Block::new(words), head: 0, items: Ghost(Seq::empty()) };
        st
    }

    /// Reuse a block for a new round trip: the allocator restarts at the
    /// block's start and every previously staged item is abandoned.
    pub fn reset(block: Block) -> (st: Stage)
        requires
            block@.len() % 8 == 0,
            16 <= block@.len(),
        ensures
            st.wf(),
            st.items() == Seq::<ItemInfo>::empty(),
            st.spec_head() == 0,
            st.mem() == block@,
    {
        Stage { block, head: 0, items: Ghost(Seq::empty()) }
    }

    /// The free bytes left for the next item.
    pub fn remaining(&self) -> (n: usize)
        requires
            self.wf(),
        ensures
            n == self.free_bytes(),
    {
        self.block.capacity() - self.head - 16
    }

    /// Stage one syscall item: header, record, and a payload region of up
    /// to `reserve` bytes.
    ///
    /// Max-fit: if `reserve` exceeds the remaining free space the payload
    /// region is exactly the remaining free space, never an error.  An
    /// error is returned only when even the fixed record does not fit, and
    /// then the allocator is left unchanged.  If `handle_slot` is
    /// `Some(i)`, argument slots `i` and `i + 1` carry the payload region's
    /// offset and length in place of pointers, which are meaningless across
    /// the trust boundary.
    #[verifier::rlimit(60)]
    pub fn stage_syscall(
        &mut self,
        num: u64,
        argv: [u64; 6],
        reserve: usize,
        handle_slot: Option<usize>,
    ) -> (r: Result<StagedCall, Error>)
        requires
            old(self).wf(),
            match handle_slot {
                Some(i) => i < 5,
                None => true,
            },
        ensures
            r.is_err() <==> old(self).free_bytes() < 88,
            match r {
                Err(e) => e == Error::CapacityExceeded && *final(self) == *old(self),
                Ok(c) => {
                    let avail = old(self).free_bytes() - 88;
                    let staged = if reserve as int > avail { avail } else { reserve as int };
                    let size = 72 + align8(staged);
                    &&& final(self).wf()
                    &&& c.body == old(self).spec_head() + 16
                    &&& c.handle.offset == c.body + 72
                    &&& c.handle.length == staged
                    &&& c.handle.offset + c.handle.length <= final(self).mem().len() - 16
                    &&& final(self).mem().len() == old(self).mem().len()
                    &&& final(self).spec_head() == old(self).spec_head() + 16 + size
                    &&& final(self).items() == old(self).items().push(
                        ItemInfo { kind: Kind::Syscall, offset: c.body as int, size },
                    )
                    &&& record_num(final(self).mem(), c.body as int) == num
                    &&& forall|k: int|
                        0 <= k < 6 ==> record_arg(final(self).mem(), c.body as int, k)
                            == staged_arg(argv, handle_slot, c.handle, k)
                    &&& record_ret(final(self).mem(), c.body as int, 0) == 0
                    &&& record_ret(final(self).mem(), c.body as int, 1) == 0
                    &&& forall|j: int|
                        0 <= j < old(self).spec_head() ==> final(self).mem()[j]
                            == old(self).mem()[j]
                },
            },
    {
        proof {
            self.block.lemma_len();
        }
        let len = self.block.capacity();
        let free = len - self.head - 16;
        if free < 88 {
            return Err(Error::CapacityExceeded);
        }
        let avail = free - 88;
        let staged = if reserve > avail {
            avail
        } else {
            reserve
        };
        let padded = (staged + 7) / 8 * 8;
        proof {
            assert(avail % 8 == 0);
            lemma_align8_fit(staged as int, avail as int);
            assert(padded == align8(staged as int));
        }
        let size = 72 + padded;
        let body = self.head + 16;
        let handle = Handle { offset: body + 72, length: staged };
        let ghost s0 = self.block@;
        let ghost head0 = self.head as int;
        let hdr = Header { size: size as u64, kind: Kind::Syscall };
        hdr.write_to(&mut self.block, self.head);
        let ghost s1 = self.block@;
        let argv2 = match handle_slot {
            Some(i) => set_slot(set_slot(argv, i, handle.offset as u64), i + 1, handle.length as u64),
            None => argv,
        };
        let zero_ret: [u64; 2] = [0, 0];
        let rec = Syscall { num, argv: argv2, ret: zero_ret };
        proof {
            assert(zero_ret[0] == 0);
            assert(zero_ret[1] == 0);
            assert(forall|k: int|
                0 <= k < 6 ==> rec.argv[k] == staged_arg(argv, handle_slot, handle, k));
        }
        rec.encode_into(&mut self.block, body);
        let ghost it = ItemInfo { kind: Kind::Syscall, offset: body as int, size: size as int };
        proof {
            lemma_parses_to_frame(s0, self.block@, 0, head0, self.items@);
            lemma_word_at_frame(s1, self.block@, head0);
            lemma_word_at_frame(s1, self.block@, head0 + 8);
            lemma_parses_to_snoc(self.block@, 0, head0, self.items@, it);
        }
        self.items = Ghost(self.items@.push(it));
        self.head = self.head + 16 + size;
        proof {
            assert(record_ret(self.block@, body as int, 0) == rec.ret[0]);
            assert(record_ret(self.block@, body as int, 1) == rec.ret[1]);
            assert(record_ret(self.block@, body as int, 0) == 0);
            assert(record_ret(self.block@, body as int, 1) == 0);
            assert(forall|k: int|
                0 <= k < 6 ==> record_arg(self.block@, body as int, k) == staged_arg(
                    argv,
                    handle_slot,
                    handle,
                    k,
                ));
            assert(self.mem() == self.block@);
        }
        Ok(StagedCall { body, handle })
    }

    /// Move a payload's bytes into a region reserved for it.
    ///
    /// This is the byte-staging half of the allocator: a call with input
    /// data first reserves its region (max-fit) and then fills it.  The
    /// region must belong to a staged item's body, so the chain's framing
    /// cannot be damaged; nothing outside the filled prefix changes.
    #[verifier::loop_isolation(false)]
    pub fn copy_into(&mut self, h: Handle, data: &Vec<u8>)
        requires
            old(self).wf(),
            handle_in_items(old(self).items(), h),
            data@.len() <= h.length,
        ensures
            final(self).wf(),
            final(self).items() == old(self).items(),
            final(self).spec_head() == old(self).spec_head(),
            final(self).mem().len() == old(self).mem().len(),
            forall|j: int| 0 <= j < data@.len() ==> final(self).mem()[h.offset + j] == data@[j],
            forall|j: int|
                0 <= j < final(self).mem().len() && !(h.offset <= j < h.offset + data@.len())
                    ==> final(self).mem()[j] == old(self).mem()[j],
    {
        proof {
            self.block.lemma_len();
            lemma_parses_to_bounds(self.block@, 0, self.head as int, self.items@);
        }
        let ghost s0 = self.block@;
        let n = data.len();
        let mut j: usize = 0;
        while j < n
            invariant
                j <= n,
                self.block@.len() == s0.len(),
                self.head == old(self).head,
                self.items@ == old(self).items@,
                forall|t: int| 0 <= t < j ==> self.block@[h.offset + t] == data@[t],
                forall|t: int|
                    0 <= t < s0.len() && !(h.offset <= t < h.offset + j) ==> self.block@[t]
                        == s0[t],
            decreases n - j,
        {
            self.block.set_byte(h.offset + j, data[j]);
            j = j + 1;
        }
        proof {
            let k = choose|k: int|
                0 <= k < self.items@.len() && (#[trigger] self.items@[k]).offset <= h.offset
                    && h.offset + h.length <= self.items@[k].offset + self.items@[k].size;
            lemma_parses_to_body_write(
                s0,
                self.block@,
                0,
                self.head as int,
                self.items@,
                k,
                h.offset as int,
                h.offset + n as int,
            );
        }
    }

    /// Terminate the staged chain with the End sentinel and hand the block
    /// over.  The cursor then yields exactly the staged items, in staging
    /// order, and ends cleanly right after them.
    pub fn finish(self) -> (b: Block)
        requires
            self.wf(),
        ensures
            b@.len() == self.mem().len(),
            parse_items(b@, 0) == self.items(),
            terminal_status(b@, self.spec_head()) == Status::Done,
            forall|j: int| 0 <= j < self.spec_head() ==> b@[j] == self.mem()[j],
    {
        let Stage { block, head, items } = self;
        let mut b = block;
        proof {
            b.lemma_len();
        }
        let ghost s0 = b@;
        let hdr = Header { size: 0, kind: Kind::End };
        hdr.write_to(&mut b, head);
        proof {
            lemma_parses_to_frame(s0, b@, 0, head as int, items@);
            lemma_parses_to_parse_items(b@, 0, head as int, items@);
        }
        b
    }
}

} // verus!
