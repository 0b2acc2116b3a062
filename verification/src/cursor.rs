//! The bounds-checked cursor that walks a block's items.
//!
//! [`parse_items`] is the mathematical meaning of a block: the finite
//! sequence of syscall items that a forward-only walk of its headers
//! produces, stopping at the End sentinel, at any corrupt header, or as soon
//! as a declared size would run past the block's capacity.  [`BlockIter`]
//! is the executable cursor, proved to yield exactly that sequence, in
//! order, without ever reading past the block's bound.

use vstd::prelude::*;
use crate::block::{lemma_word_at_frame, word_at, Block};
use crate::item::Kind;

verus! {

/// What the walk knows about one yielded item: its body's byte offset and
/// length inside the block, and its kind.
pub ghost struct ItemInfo {
    pub kind: Kind,
    pub offset: int,
    pub size: int,
}

/// Why a walk stopped, or that it has not.
///
/// A nonzero-size End header, an unknown kind word and a misaligned size are
/// all corruption; a size that runs past the capacity merely exhausts the
/// block.  Corruption is surfaced explicitly rather than silently folded
/// into end-of-block, since silent truncation at a trust boundary can mask
/// an attempted exploit.
#[derive(Clone, Copy, Debug, PartialEq, Eq, Structural)]
pub enum Status {
    /// The walk may still yield items.
    Active,
    /// The walk ended at a clean End sentinel.
    Done,
    /// A header or declared body would run past the block's capacity.
    Exhausted,
    /// A malformed header: unknown kind, misaligned size, or a nonzero-size
    /// End.
    Corrupt,
}

/// The items a walk of `s` starting at byte offset `pos` yields, in block
/// order.
pub open spec fn parse_items(s: Seq<u8>, pos: int) -> Seq<ItemInfo>
    decreases s.len() - pos
    when 0 <= pos <= s.len()
{
    if pos + 16 > s.len() {
        Seq::empty()
    } else {
        let size = word_at(s, pos) as int;
        let kindw = word_at(s, pos + 8);
        if kindw != 1 || size % 8 != 0 || pos + 16 + size > s.len() {
            Seq::empty()
        } else {
            seq![ItemInfo { kind: Kind::Syscall, offset: pos + 16, size }] + parse_items(
                s,
                pos + 16 + size,
            )
        }
    }
}

/// How a walk of `s` positioned at `pos` ends, if it ends there.
pub open spec fn terminal_status(s: Seq<u8>, pos: int) -> Status {
    if pos + 16 > s.len() {
        Status::Exhausted
    } else {
        let size = word_at(s, pos);
        let kindw = word_at(s, pos + 8);
        if kindw == 0 {
            if size == 0 {
                Status::Done
            } else {
                Status::Corrupt
            }
        } else if kindw != 1 {
            Status::Corrupt
        } else if size % 8 != 0 {
            Status::Corrupt
        } else if pos + 16 + size as int > s.len() {
            Status::Exhausted
        } else {
            Status::Active
        }
    }
}

/// Every yielded item's body lies between its header and the block's end.
pub proof fn lemma_parse_items_bounds(s: Seq<u8>, pos: int)
    requires
        0 <= pos <= s.len(),
    ensures
        forall|i: int|
            0 <= i < parse_items(s, pos).len() ==> {
                let it = #[trigger] parse_items(s, pos)[i];
                &&& it.kind == Kind::Syscall
                &&& pos + 16 <= it.offset
                &&& it.offset + it.size <= s.len()
                &&& 0 <= it.size
                &&& it.size % 8 == 0
            },
    decreases s.len() - pos,
{
    if pos + 16 <= s.len() {
        let size = word_at(s, pos) as int;
        let kindw = word_at(s, pos + 8);
        if kindw == 1 && size % 8 == 0 && pos + 16 + size <= s.len() {
            lemma_parse_items_bounds(s, pos + 16 + size);
        }
    }
}

/// Per-item independence of the layout: the items a walk yields occupy
/// pairwise disjoint byte ranges, in block order, a header width apart.
/// Together with the executor's guarantee that only return areas change,
/// no item's number, arguments or payload can be disturbed by another
/// item's execution, so every item is collected independently.
pub proof fn lemma_items_disjoint(s: Seq<u8>, pos: int)
    requires
        0 <= pos <= s.len(),
    ensures
        forall|i: int, j: int|
            0 <= i < j < parse_items(s, pos).len() ==> (#[trigger] parse_items(s, pos)[i]).offset
                + parse_items(s, pos)[i].size + 16 <= (#[trigger] parse_items(s, pos)[j]).offset,
    decreases s.len() - pos,
{
    if pos + 16 <= s.len() {
        let size = word_at(s, pos) as int;
        let kindw = word_at(s, pos + 8);
        if kindw == 1 && size % 8 == 0 && pos + 16 + size <= s.len() {
            let pos2 = pos + 16 + size;
            let items = parse_items(s, pos);
            let rest = parse_items(s, pos2);
            lemma_items_disjoint(s, pos2);
            lemma_parse_items_bounds(s, pos2);
            assert forall|i: int, j: int|
                0 <= i < j < items.len() implies (#[trigger] items[i]).offset + items[i].size + 16
                <= (#[trigger] items[j]).offset by {
                assert(items[j] == rest[j - 1]);
                if i > 0 {
                    assert(items[i] == rest[i - 1]);
                }
            }
        }
    }
}

/// The walk depends only on the bytes from `pos` onward.
pub proof fn lemma_parse_items_suffix(s1: Seq<u8>, s2: Seq<u8>, pos: int)
    requires
        s1.len() == s2.len(),
        0 <= pos <= s1.len(),
        forall|j: int| pos <= j < s1.len() ==> s1[j] == s2[j],
    ensures
        parse_items(s1, pos) == parse_items(s2, pos),
    decreases s1.len() - pos,
{
    if pos + 16 <= s1.len() {
        lemma_word_at_frame(s1, s2, pos);
        lemma_word_at_frame(s1, s2, pos + 8);
        let size = word_at(s1, pos) as int;
        let kindw = word_at(s1, pos + 8);
        if kindw == 1 && size % 8 == 0 && pos + 16 + size <= s1.len() {
            lemma_parse_items_suffix(s1, s2, pos + 16 + size);
            assert(parse_items(s1, pos) =~= parse_items(s2, pos));
        }
    }
}

/// Writing inside the body of one yielded item never changes what the walk
/// yields: headers are read, bodies are only skipped.
pub proof fn lemma_parse_items_body_write(
    s1: Seq<u8>,
    s2: Seq<u8>,
    pos: int,
    k: int,
    a: int,
    b: int,
)
    requires
        s1.len() == s2.len(),
        0 <= pos <= s1.len(),
        0 <= k < parse_items(s1, pos).len(),
        a <= b,
        parse_items(s1, pos)[k].offset <= a,
        b <= parse_items(s1, pos)[k].offset + parse_items(s1, pos)[k].size,
        forall|j: int| pos <= j < s1.len() && !(a <= j < b) ==> s1[j] == s2[j],
    ensures
        parse_items(s1, pos) == parse_items(s2, pos),
    decreases k,
{
    lemma_parse_items_bounds(s1, pos);
    let size = word_at(s1, pos) as int;
    let kindw = word_at(s1, pos + 8);
    let items = parse_items(s1, pos);
    let rest = parse_items(s1, pos + 16 + size);
    assert(pos + 16 <= a) by {
        assert(items[k].offset >= pos + 16);
    }
    lemma_word_at_frame(s1, s2, pos);
    lemma_word_at_frame(s1, s2, pos + 8);
    if k == 0 {
        let pos2 = pos + 16 + size;
        assert(items[0].offset == pos + 16 && items[0].size == size);
        assert(b <= pos2);
        lemma_parse_items_suffix(s1, s2, pos2);
        assert(parse_items(s1, pos) =~= parse_items(s2, pos));
    } else {
        let pos2 = pos + 16 + size;
        assert(items[k] == rest[k - 1]);
        lemma_parse_items_bounds(s1, pos2);
        assert(rest[k - 1].offset >= pos2 + 16);
        lemma_parse_items_body_write(s1, s2, pos2, k - 1, a, b);
        assert(parse_items(s1, pos) =~= parse_items(s2, pos));
    }
}

/// Round trip: a block that holds exactly one syscall item's framing — its
/// header at offset zero, `size` body bytes, then a clean End sentinel —
/// walks to exactly that one item, and the walk ends cleanly right after
/// it.  Since the codec reads the record's words verbatim from the body the
/// walk hands back, decoding that item recovers exactly the number and
/// argument words that were encoded at staging.
pub proof fn lemma_round_trip(s: Seq<u8>, size: int)
    requires
        0 <= size,
        size % 8 == 0,
        word_at(s, 0) as int == size,
        word_at(s, 8) == 1,
        16 + size + 16 <= s.len(),
        word_at(s, 16 + size) == 0,
        word_at(s, 16 + size + 8) == 0,
    ensures
        parse_items(s, 0) == seq![ItemInfo { kind: Kind::Syscall, offset: 16, size }],
        terminal_status(s, 16 + size) == Status::Done,
{
    assert(parse_items(s, 16 + size) =~= Seq::<ItemInfo>::empty());
    assert(parse_items(s, 0) =~= seq![ItemInfo { kind: Kind::Syscall, offset: 16, size }]);
}

/// Bounds safety: a header whose size word would carry the item's body past
/// the block's declared capacity ends the walk at once — no item is
/// produced there, and nothing past the capacity is ever read.
pub proof fn lemma_oversize_ends(s: Seq<u8>, pos: int)
    requires
        0 <= pos,
        pos + 16 <= s.len(),
        word_at(s, pos + 8) == 1,
        word_at(s, pos) as int % 8 == 0,
        pos + 16 + word_at(s, pos) as int > s.len(),
    ensures
        parse_items(s, pos) == Seq::<ItemInfo>::empty(),
        terminal_status(s, pos) == Status::Exhausted,
{
}

/// A view of one item yielded by the cursor: the kind from its header and
/// the in-block position of its `size`-byte body.
#[derive(Clone, Copy, Debug, PartialEq, Eq, Structural)]
pub struct BlockItem {
    pub kind: Kind,
    pub offset: usize,
    pub size: usize,
}

impl View for BlockItem {
    type V = ItemInfo;

    open spec fn view(&self) -> ItemInfo {
        ItemInfo { kind: self.kind, offset: self.offset as int, size: self.size as int }
    }
}

/// A restartable-per-call, forward-only cursor over a block's items.
///
/// The cursor holds only a position; the block is passed to each call, so
/// the host may write results into an item it was handed before asking for
/// the next one.
pub struct BlockIter {
    /// Byte offset of the next header to examine.
    pub pos: usize,
    /// Whether the walk is still active, and if not, why it ended.
    pub status: Status,
}

impl BlockIter {
    /// The cursor is consistent with `block`: its position is in bounds,
    /// and once it has stopped, it has stopped for the reason the bytes
    /// there give.
    pub open spec fn wf(&self, block: &Block) -> bool {
        &&& self.pos <= block@.len()
        &&& (self.status != Status::Active ==> parse_items(block@, self.pos as int)
            == Seq::<ItemInfo>::empty() && self.status == terminal_status(
            block@,
            self.pos as int,
        ))
    }

    /// A cursor positioned at the start of `block`.
    pub fn new(block: &Block) -> (it: BlockIter)
        ensures
            it.wf(block),
            it.pos == 0,
            it.status == Status::Active,
    {
        BlockIter { pos: 0, status: Status::Active }
    }

    /// Yield the next item, or stop.
    ///
    /// Stopping is sticky: after the first `None` every later call returns
    /// `None` again and leaves the reason in `status`.  All capacity
    /// bookkeeping is checked arithmetic; nothing past the block's declared
    /// capacity is ever read.
    pub fn next(&mut self, block: &Block) -> (r: Option<BlockItem>)
        requires
            old(self).wf(block),
        ensures
            final(self).wf(block),
            match r {
                Some(item) => {
                    &&& parse_items(block@, old(self).pos as int).len() > 0
                    &&& item@ == parse_items(block@, old(self).pos as int)[0]
                    &&& item.kind == Kind::Syscall
                    &&& item@.offset == old(self).pos + 16
                    &&& item@.offset + item@.size <= block@.len()
                    &&& item@.size % 8 == 0
                    &&& final(self).pos == item@.offset + item@.size
                    &&& final(self).status == Status::Active
                    &&& parse_items(block@, final(self).pos as int) == parse_items(
                        block@,
                        old(self).pos as int,
                    ).skip(1)
                },
                None => {
                    &&& parse_items(block@, old(self).pos as int) == Seq::<ItemInfo>::empty()
                    &&& final(self).pos == old(self).pos
                    &&& final(self).status == terminal_status(block@, old(self).pos as int)
                },
            },
    {
        proof {
            block.lemma_len();
        }
        match self.status {
            Status::Active => {},
            _ => {
                return None;
            },
        }
        let pos = self.pos;
        let len = block.capacity();
        if len - pos < 16 {
            self.status = Status::Exhausted;
            return None;
        }
        let size_w = block.word(pos);
        let kind_w = block.word(pos + 8);
        if kind_w == 0 {
            self.status = if size_w == 0 {
                Status::Done
            } else {
                Status::Corrupt
            };
            return None;
        }
        if kind_w != 1 {
            self.status = Status::Corrupt;
            return None;
        }
        if size_w % 8 != 0 {
            self.status = Status::Corrupt;
            return None;
        }
        let rem = len - pos - 16;
        if size_w > rem as u64 {
            self.status = Status::Exhausted;
            return None;
        }
        let size = size_w as usize;
        let offset = pos + 16;
        self.pos = offset + size;
        let item = BlockItem { kind: Kind::Syscall, offset, size };
        proof {
            let s = block@;
            let p = pos as int;
            let items = parse_items(s, p);
            assert(items == seq![item@] + parse_items(s, p + 16 + size as int));
            assert(items.skip(1) =~= parse_items(s, p + 16 + size as int));
        }
        Some(item)
    }
}

} // verus!
