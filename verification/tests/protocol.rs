use sallyport::block::Block;
use sallyport::cursor::{BlockIter, Status};
use sallyport::host::{execute, HostCall};
use sallyport::item::{write_ret0, Header, Kind, Syscall, HEADER_BYTES, RECORD_BYTES, RET_OFFSET};
use sallyport::block::WORD_BYTES;
use sallyport::policy::{
    stage_fcntl, AllocFcntl, Fcntl, FcntlStaged, UnstagedMaybeAlloc, EBADFD, EINVAL, ENOMEM,
    F_GETFD, F_GETFL, F_SETFD, F_SETFL, O_APPEND, O_RDWR, O_WRONLY, STDERR_FILENO, STDIN_FILENO,
    STDOUT_FILENO, SYS_FCNTL,
};
use sallyport::read_call::{Read, SYS_READ};
use sallyport::stage::{Error, Stage};

struct MockHost {
    rets: Vec<u64>,
    calls: Vec<u64>,
}

impl HostCall for MockHost {
    fn raw_syscall(&mut self, num: u64, _argv: [u64; 6]) -> u64 {
        self.calls.push(num);
        self.rets[self.calls.len() - 1]
    }
}

#[test]
fn test_iter() {
    let words: Vec<u64> = vec![32, 1, 0, 0, 0, 0, 24, 1, 0, 0, 0, 0, 0, 1, 2, 3, 4, 5, 6, 7];
    assert_eq!(words.len(), 20);
    let block = Block::from_words(&words);
    let mut iter = BlockIter::new(&block);

    let next = iter.next(&block).unwrap();
    assert!(matches!(next.kind, Kind::Syscall));
    assert_eq!(next.size, 32);

    let next = iter.next(&block).unwrap();
    assert!(matches!(next.kind, Kind::Syscall));
    assert_eq!(next.size, 24);

    assert!(iter.next(&block).is_none());
}

#[test]
fn round_trip_one_record() {
    let mut st = Stage::new(32);
    let argv: [u64; 6] = [1, 2, 3, 4, 5, 6];
    let sc = st.stage_syscall(39, argv, 0, None).unwrap();
    let block = st.finish();

    let mut iter = BlockIter::new(&block);
    let item = iter.next(&block).unwrap();
    assert!(matches!(item.kind, Kind::Syscall));
    assert_eq!(item.offset, sc.body);
    assert_eq!(item.size, RECORD_BYTES);

    let rec = Syscall::decode_from(&block, item.offset);
    assert_eq!(rec.num, 39);
    assert_eq!(rec.argv, argv);
    assert_eq!(rec.ret, [0, 0]);

    assert!(iter.next(&block).is_none());
    assert_eq!(iter.status, Status::Done);
}

#[test]
fn oversized_item_ends_walk() {
    let words: Vec<u64> = vec![10000, 1, 0, 0];
    let block = Block::from_words(&words);
    let mut iter = BlockIter::new(&block);
    assert!(iter.next(&block).is_none());
    assert_eq!(iter.status, Status::Exhausted);
}

#[test]
fn misaligned_size_is_corrupt() {
    let words: Vec<u64> = vec![12, 1, 0, 0];
    let block = Block::from_words(&words);
    let mut iter = BlockIter::new(&block);
    assert!(iter.next(&block).is_none());
    assert_eq!(iter.status, Status::Corrupt);
}

#[test]
fn nonzero_size_end_is_corrupt() {
    let words: Vec<u64> = vec![8, 0, 0, 0];
    let block = Block::from_words(&words);
    let mut iter = BlockIter::new(&block);
    assert!(iter.next(&block).is_none());
    assert_eq!(iter.status, Status::Corrupt);
}

#[test]
fn unknown_kind_is_corrupt() {
    let words: Vec<u64> = vec![0, 7, 0, 0];
    let block = Block::from_words(&words);
    let mut iter = BlockIter::new(&block);
    assert!(iter.next(&block).is_none());
    assert_eq!(iter.status, Status::Corrupt);
}

#[test]
fn truncated_tail_exhausts() {
    let words: Vec<u64> = vec![8, 1, 0];
    let block = Block::from_words(&words);
    let mut iter = BlockIter::new(&block);
    let item = iter.next(&block).unwrap();
    assert_eq!(item.size, 8);
    assert!(iter.next(&block).is_none());
    assert_eq!(iter.status, Status::Exhausted);
}

#[test]
fn allocator_bound_and_max_fit() {
    let mut st = Stage::new(20);
    let free = st.remaining();
    assert_eq!(free, 160 - HEADER_BYTES);
    let sc = st.stage_syscall(1, [0; 6], 1000, None).unwrap();
    assert_eq!(sc.handle.length, free - 88);
    assert!(sc.handle.offset + sc.handle.length <= 160);
}

#[test]
fn record_capacity_error() {
    let mut st = Stage::new(12);
    assert_eq!(st.stage_syscall(0, [0; 6], 0, None), Err(Error::CapacityExceeded));
    let block = st.finish();
    let mut iter = BlockIter::new(&block);
    assert!(iter.next(&block).is_none());
    assert_eq!(iter.status, Status::Done);
}

#[test]
fn collect_clamps_host_length() {
    let mut st = Stage::new(64);
    let read = Read { fd: 3, buf: vec![0xAAu8; 10] };
    let sc = read.stage(&mut st).unwrap();
    assert_eq!(sc.handle.length, 10);
    let mut block = st.finish();

    for j in 0..10usize {
        block.set_byte(sc.handle.offset + j, j as u8);
    }
    write_ret0(&mut block, sc.body, 1000);
    assert_eq!(block.word(sc.body + RET_OFFSET), 1000);

    let mut read = read;
    assert_eq!(read.collect(sc, &block), Ok(10));
    assert_eq!(&read.buf[..], &[0, 1, 2, 3, 4, 5, 6, 7, 8, 9]);
}

#[test]
fn collect_error_leaves_buffer() {
    let mut st = Stage::new(64);
    let read = Read { fd: 3, buf: vec![7u8; 4] };
    let sc = read.stage(&mut st).unwrap();
    let mut block = st.finish();
    let neg: i64 = -2;
    write_ret0(&mut block, sc.body, neg as u64);

    let mut read = read;
    assert_eq!(read.collect(sc, &block), Err(-2));
    assert_eq!(&read.buf[..], &[7, 7, 7, 7]);
}

#[test]
fn read_stage_max_fit() {
    let mut st = Stage::new(20);
    let read = Read { fd: 1, buf: vec![0u8; 100] };
    let sc = read.stage(&mut st).unwrap();
    assert_eq!(sc.handle.length, 56);
}

#[test]
fn payload_bytes_stage_into_item() {
    let mut st = Stage::new(32);
    let data = vec![9u8, 8, 7, 6, 5];
    let sc = st.stage_syscall(1, [4, 0, 0, 0, 0, 0], data.len(), Some(1)).unwrap();
    assert_eq!(sc.handle.length, 5);
    st.copy_into(sc.handle, &data);
    let block = st.finish();

    let mut iter = BlockIter::new(&block);
    let item = iter.next(&block).unwrap();
    assert_eq!(item.size, RECORD_BYTES + 8);
    assert!(iter.next(&block).is_none());
    assert_eq!(iter.status, Status::Done);

    for (j, b) in data.iter().enumerate() {
        assert_eq!(block.byte(sc.handle.offset + j), *b);
    }
    let rec = Syscall::decode_from(&block, sc.body);
    assert_eq!(rec.argv[0], 4);
    assert_eq!(rec.argv[1], sc.handle.offset as u64);
    assert_eq!(rec.argv[2], sc.handle.length as u64);
}

#[test]
fn reset_reuses_block() {
    let mut st = Stage::new(32);
    st.stage_syscall(39, [1, 2, 3, 4, 5, 6], 0, None).unwrap();
    let block = st.finish();

    let mut st = Stage::reset(block);
    let sc = st.stage_syscall(40, [9, 9, 9, 9, 9, 9], 0, None).unwrap();
    let block = st.finish();

    let mut iter = BlockIter::new(&block);
    let item = iter.next(&block).unwrap();
    assert_eq!(item.offset, sc.body);
    let rec = Syscall::decode_from(&block, item.offset);
    assert_eq!(rec.num, 40);
    assert!(iter.next(&block).is_none());
    assert_eq!(iter.status, Status::Done);
}

#[test]
fn policy_stub_branches() {
    let r = Fcntl { fd: STDIN_FILENO, cmd: F_GETFL, arg: 0 }.stage();
    assert_eq!(r, Ok(UnstagedMaybeAlloc::Stub(O_RDWR | O_APPEND)));

    let r = Fcntl { fd: STDOUT_FILENO, cmd: F_GETFL, arg: 0 }.stage();
    assert_eq!(r, Ok(UnstagedMaybeAlloc::Stub(O_WRONLY)));

    let r = Fcntl { fd: STDERR_FILENO, cmd: F_GETFL, arg: 0 }.stage();
    assert_eq!(r, Ok(UnstagedMaybeAlloc::Stub(O_WRONLY)));
}

#[test]
fn policy_reject_branches() {
    let r = Fcntl { fd: STDIN_FILENO, cmd: F_SETFD, arg: 0 }.stage();
    assert_eq!(r, Err(EINVAL));

    let r = Fcntl { fd: STDERR_FILENO, cmd: 1234, arg: 0 }.stage();
    assert_eq!(r, Err(EINVAL));

    let r = Fcntl { fd: 7, cmd: 1234, arg: 0 }.stage();
    assert_eq!(r, Err(EBADFD));
}

#[test]
fn policy_cross_branch() {
    let c = Fcntl { fd: 7, cmd: F_SETFL, arg: 2048 };
    assert_eq!(c.stage(), Ok(UnstagedMaybeAlloc::Alloc(AllocFcntl(c))));
    let c = Fcntl { fd: 7, cmd: F_GETFD, arg: 0 };
    assert!(matches!(c.stage(), Ok(UnstagedMaybeAlloc::Alloc(_))));
    let c = Fcntl { fd: 7, cmd: F_SETFD, arg: 0 };
    assert!(matches!(c.stage(), Ok(UnstagedMaybeAlloc::Alloc(_))));
    let c = Fcntl { fd: 7, cmd: F_GETFL, arg: 0 };
    assert!(matches!(c.stage(), Ok(UnstagedMaybeAlloc::Alloc(_))));
}

#[test]
fn policy_cross_stages_record() {
    let mut st = Stage::new(32);
    let r = stage_fcntl(&mut st, Fcntl { fd: 7, cmd: F_SETFL, arg: 2048 }).unwrap();
    match r {
        FcntlStaged::Staged(sc) => {
            let block = st.finish();
            let rec = Syscall::decode_from(&block, sc.body);
            assert_eq!(rec.num, SYS_FCNTL);
            assert_eq!(rec.argv[0], 7);
            assert_eq!(rec.argv[1], F_SETFL as u64);
            assert_eq!(rec.argv[2], 2048);
        },
        FcntlStaged::Stubbed(_) => panic!("a crossing call must be staged"),
    }
}

#[test]
fn crossed_args_sign_extend() {
    let mut st = Stage::new(32);
    let r = stage_fcntl(&mut st, Fcntl { fd: -1, cmd: F_GETFD, arg: -2 }).unwrap();
    match r {
        FcntlStaged::Staged(sc) => {
            let block = st.finish();
            let rec = Syscall::decode_from(&block, sc.body);
            assert_eq!(rec.argv[0], u64::MAX);
            assert_eq!(rec.argv[2], u64::MAX - 1);
        },
        FcntlStaged::Stubbed(_) => panic!("a crossing call must be staged"),
    }
}

#[test]
fn policy_stub_touches_nothing() {
    let mut st = Stage::new(32);
    let before = st.remaining();
    let r = stage_fcntl(&mut st, Fcntl { fd: STDIN_FILENO, cmd: F_GETFL, arg: 0 }).unwrap();
    assert_eq!(r, FcntlStaged::Stubbed(O_RDWR | O_APPEND));
    assert_eq!(st.remaining(), before);
}

#[test]
fn policy_cross_capacity_is_enomem() {
    let mut st = Stage::new(12);
    assert_eq!(stage_fcntl(&mut st, Fcntl { fd: 9, cmd: F_GETFD, arg: 0 }), Err(ENOMEM));
}

#[test]
fn per_item_independence() {
    let mut st = Stage::new(64);
    let r1 = Read { fd: 3, buf: vec![0u8; 4] };
    let r2 = Read { fd: 4, buf: vec![0u8; 4] };
    let sc1 = r1.stage(&mut st).unwrap();
    let sc2 = r2.stage(&mut st).unwrap();
    let mut block = st.finish();

    let neg9: i64 = -9;
    let mut host = MockHost { rets: vec![neg9 as u64, 3], calls: vec![] };
    let status = execute(&mut block, &mut host);
    assert_eq!(status, Status::Done);
    assert_eq!(host.calls, vec![SYS_READ, SYS_READ]);

    let mut r1 = r1;
    let mut r2 = r2;
    assert_eq!(r1.collect(sc1, &block), Err(-9));
    assert_eq!(r2.collect(sc2, &block), Ok(3));
}

#[test]
fn execute_stops_on_corrupt_block() {
    let words: Vec<u64> = vec![8, 0, 0, 0];
    let mut block = Block::from_words(&words);
    let mut host = MockHost { rets: vec![], calls: vec![] };
    assert_eq!(execute(&mut block, &mut host), Status::Corrupt);
    assert!(host.calls.is_empty());
}

#[test]
fn execute_rejects_undersized_record() {
    let words: Vec<u64> = vec![8, 1, 0, 0, 0, 0];
    let mut block = Block::from_words(&words);
    let mut host = MockHost { rets: vec![], calls: vec![] };
    assert_eq!(execute(&mut block, &mut host), Status::Corrupt);
    assert!(host.calls.is_empty());
}

#[test]
fn words_round_trip_bytes() {
    let mut b = Block::new(4);
    b.set_word(8, 0x0123456789abcdef);
    assert_eq!(b.word(8), 0x0123456789abcdef);
    assert_eq!(b.byte(8), 0xef);
    assert_eq!(b.byte(15), 0x01);
    assert_eq!(b.word(0), 0);
    assert_eq!(b.capacity(), 4 * WORD_BYTES);
}

#[test]
fn header_words() {
    let mut b = Block::new(4);
    let h = Header { size: 24, kind: Kind::Syscall };
    h.write_to(&mut b, 0);
    assert_eq!(b.word(0), 24);
    assert_eq!(b.word(8), 1);
}

#[test]
fn kind_wire_words() {
    assert_eq!(Kind::try_from(0), Ok(Kind::End));
    assert_eq!(Kind::try_from(1), Ok(Kind::Syscall));
    assert_eq!(Kind::try_from(2), Err(()));
    assert_eq!(Kind::End.word(), 0);
    assert_eq!(Kind::Syscall.word(), 1);
}

#[test]
fn abi_constants_match_libc() {
    assert_eq!(STDIN_FILENO, libc::STDIN_FILENO);
    assert_eq!(STDOUT_FILENO, libc::STDOUT_FILENO);
    assert_eq!(STDERR_FILENO, libc::STDERR_FILENO);
    assert_eq!(F_GETFD, libc::F_GETFD);
    assert_eq!(F_SETFD, libc::F_SETFD);
    assert_eq!(F_GETFL, libc::F_GETFL);
    assert_eq!(F_SETFL, libc::F_SETFL);
    assert_eq!(O_WRONLY, libc::O_WRONLY);
    assert_eq!(O_RDWR, libc::O_RDWR);
    assert_eq!(O_APPEND, libc::O_APPEND);
    assert_eq!(EINVAL, libc::EINVAL);
    assert_eq!(EBADFD, libc::EBADFD);
    assert_eq!(ENOMEM, libc::ENOMEM);
    assert_eq!(SYS_FCNTL as i64, libc::SYS_fcntl);
    assert_eq!(SYS_READ as i64, libc::SYS_read);
}
