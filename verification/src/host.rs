//! The host-side executor.
//!
//! The host walks a block it was handed, dispatches each Syscall item to
//! the real operating system through the narrow [`HostCall`] backend, and
//! writes the raw result into the item's return area in place.  A real
//! call's failure is local to its item — it is recorded there and the walk
//! continues — while a structural problem (corrupt header, exhausted
//! capacity, or a body too small to hold a record) stops the whole block.

use vstd::prelude::*;
use crate::block::Block;
use crate::cursor::{
    lemma_parse_items_body_write, lemma_parse_items_suffix, parse_items, terminal_status,
    BlockItem, BlockIter, ItemInfo, Status,
};
use crate::item::{record_ret, write_ret0, Kind, Syscall};

verus! {

/// The platform's raw call backend.
///
/// This is the one interface the executor reaches the real operating
/// system through; the platform-specific invocation convention (register
/// mapping, arity dispatch, clobbered registers) lives entirely behind it,
/// outside this library.  Nothing is assumed about the returned word: the
/// executor records it whatever it is.
pub trait HostCall {
    /// Invoke raw operating-system call `num` with six argument words and
    /// return the raw result word.  In the convention used across the
    /// boundary a result in the negative range, read as two's complement,
    /// encodes an error; any other value is a successful magnitude or
    /// descriptor.
    fn raw_syscall(&mut self, num: u64, argv: [u64; 6]) -> u64;
}

/// Byte `j` lies in the return area of some record-sized item of `items`.
pub open spec fn in_ret_area(items: Seq<ItemInfo>, j: int) -> bool {
    exists|k: int|
        0 <= k < items.len() && items[k].size >= 72 && items[k].offset + 56 <= j < items[k].offset
            + 64
}

/// Every item of `items` is large enough to hold a syscall record.
pub open spec fn all_records(items: Seq<ItemInfo>) -> bool {
    forall|k: int| 0 <= k < items.len() ==> (#[trigger] items[k]).size >= 72
}

/// The byte position just past the last item of a chain that starts at
/// offset zero.
pub open spec fn chain_end(items: Seq<ItemInfo>) -> int {
    if items.len() == 0 {
        0
    } else {
        items.last().offset + items.last().size
    }
}

/// Execute one Syscall item: decode its record, invoke the raw call with
/// exactly the recorded number and argument words, and overwrite the
/// record's first return word with the raw result.  Nothing outside that
/// one word changes.
pub fn execute_item<H: HostCall>(block: &mut Block, item: BlockItem, host: &mut H) -> (r: u64)
    requires
        item.kind == Kind::Syscall,
        72 <= item@.size,
        item@.offset + item@.size <= old(block)@.len(),
    ensures
        final(block)@.len() == old(block)@.len(),
        record_ret(final(block)@, item@.offset, 0) == r,
        forall|j: int|
            0 <= j < final(block)@.len() && !(item@.offset + 56 <= j < item@.offset + 64)
                ==> final(block)@[j] == old(block)@[j],
{
    proof {
        block.lemma_len();
    }
    let body = item.offset;
    let rec = Syscall::decode_from(block, body);
    let r = host.raw_syscall(rec.num, rec.argv);
    write_ret0(block, body, r);
    r
}

/// Execute every item of the block, in block order.
///
/// Each Syscall item's return area is filled in place with that call's raw
/// result; everything else in the block — headers, records, payloads — is
/// left exactly as it was, so the guest can still collect every item
/// afterwards.  One item's failing call never stops the items after it;
/// only a structural problem does, and the returned status says how the
/// walk ended.
#[verifier::loop_isolation(false)]
pub fn execute<H: HostCall>(block: &mut Block, host: &mut H) -> (st: Status)
    ensures
        final(block)@.len() == old(block)@.len(),
        parse_items(final(block)@, 0) == parse_items(old(block)@, 0),
        forall|j: int|
            0 <= j < final(block)@.len() && !in_ret_area(parse_items(old(block)@, 0), j)
                ==> final(block)@[j] == old(block)@[j],
        st != Status::Active,
        all_records(parse_items(old(block)@, 0)) ==> st == terminal_status(
            final(block)@,
            chain_end(parse_items(old(block)@, 0)),
        ),
{
    let ghost s0 = block@;
    let ghost items0 = parse_items(s0, 0);
    let mut iter = BlockIter::new(block);
    let ghost mut i: int = 0;
    loop
        invariant
            block@.len() == s0.len(),
            iter.wf(block),
            parse_items(block@, 0) == items0,
            0 <= i <= items0.len(),
            parse_items(block@, iter.pos as int) == items0.skip(i),
            i == 0 ==> iter.pos == 0,
            i > 0 ==> iter.pos as int == items0[i - 1].offset + items0[i - 1].size,
            forall|j: int|
                0 <= j < block@.len() && !in_ret_area(items0, j) ==> block@[j] == s0[j],
        decreases items0.len() - i,
    {
        match iter.next(block) {
            None => {
                proof {
                    if all_records(items0) {
                        assert(items0.skip(i) =~= Seq::<ItemInfo>::empty() ==> i
                            == items0.len());
                        if items0.len() > 0 {
                            assert(iter.pos as int == chain_end(items0));
                        }
                    }
                }
                return iter.status;
            },
            Some(item) => {
                proof {
                    assert(items0.skip(i)[0] == items0[i]);
                }
                if item.size < 72 {
                    proof {
                        assert(items0[i].size < 72);
                    }
                    return Status::Corrupt;
                }
                let ghost pre = block@;
                execute_item(block, item, host);
                proof {
                    lemma_parse_items_body_write(
                        pre,
                        block@,
                        0,
                        i,
                        item@.offset + 56,
                        item@.offset + 64,
                    );
                    lemma_parse_items_suffix(pre, block@, iter.pos as int);
                    assert(items0.skip(i).skip(1) =~= items0.skip(i + 1));
                    assert forall|j: int|
                        0 <= j < block@.len() && !in_ret_area(items0, j) implies block@[j]
                        == s0[j] by {
                        if !(item@.offset + 56 <= j < item@.offset + 64) {
                            assert(block@[j] == pre[j]);
                        } else {
                            assert(in_ret_area(items0, j));
                        }
                    }
                    i = i + 1;
                }
            },
        }
    }
}

} // verus!
