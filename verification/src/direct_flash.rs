//! Flash driver built directly on the RP2040 bootrom.
//!
//! The bootrom erases whole 4 KiB sectors and programs whole 256-byte pages.
//! [`DirectFlash`] checks each request against the flash size and alignment
//! rules and splits it into the bootrom operations that carry it out; the
//! firmware performs them (feeding the watchdog before each one). A write is
//! split into runs of whole, aligned pages programmed straight from the
//! caller's buffer, and partial pages whose untouched bytes are read back and
//! programmed unchanged (`WRITE_SIZE` = 1). Re-programming a byte with its own
//! value leaves it unchanged, so the whole write programs exactly the requested
//! bytes; after an erase of a range by its plan, a write inside the range
//! reads back exactly as written.

use vstd::prelude::*;
use crate::flash_store::nor_program;

verus! {

/// Base of the memory-mapped (XIP) flash window.
pub const XIP_BASE: u32 = 0x1000_0000;
/// Erase unit.
pub const SECTOR_SIZE: u32 = 4096;
/// Program unit.
pub const PAGE_SIZE: u32 = 256;
/// Reads may start and end at any byte.
pub const READ_SIZE: usize = 1;
/// Writes may start and end at any byte.
pub const WRITE_SIZE: usize = 1;
/// Erases cover whole sectors.
pub const ERASE_SIZE: usize = 4096;

/// Why a flash request was refused.
#[derive(Clone, Copy, PartialEq, Eq, Debug, Structural)]
pub enum FlashErrorKind {
    /// The range is not aligned to the erase unit, or runs backwards.
    NotAligned,
    /// The range does not lie within the flash.
    OutOfBounds,
}

/// Error of a flash request.
#[derive(Clone, Copy, PartialEq, Eq, Debug, Structural)]
pub struct FlashError(pub FlashErrorKind);

impl FlashError {
    /// What went wrong.
    pub fn kind(&self) -> (k: FlashErrorKind)
        ensures
            k == self.0,
    {
        self.0
    }
}

/// One bootrom program operation of a write.
#[derive(Clone, Copy, PartialEq, Eq, Debug, Structural)]
pub enum WriteOp {
    /// Program `len` bytes (whole pages) at flash offset `addr`, straight from
    /// the caller's bytes starting at `src`.
    Pages { addr: u32, src: usize, len: usize },
    /// Program the page at `page_base` with its bytes `in_page_off ..
    /// in_page_off + len` replaced by the caller's bytes starting at `src`.
    Merge { page_base: u32, in_page_off: usize, src: usize, len: usize },
}

/// Where in the caller's bytes an operation starts.
pub open spec fn op_src(op: WriteOp) -> int {
    match op {
        WriteOp::Pages { src, .. } => src as int,
        WriteOp::Merge { src, .. } => src as int,
    }
}

/// How many of the caller's bytes an operation programs.
pub open spec fn op_len(op: WriteOp) -> int {
    match op {
        WriteOp::Pages { len, .. } => len as int,
        WriteOp::Merge { len, .. } => len as int,
    }
}

/// Where in flash the caller's bytes of an operation land.
pub open spec fn op_target(op: WriteOp) -> int {
    match op {
        WriteOp::Pages { addr, .. } => addr as int,
        WriteOp::Merge { page_base, in_page_off, .. } => page_base + in_page_off,
    }
}

/// The operation the driver uses for the bytes `src..len` of a write that
/// starts at flash offset `offset`: all remaining whole pages at once if the
/// position is page-aligned and at least a page remains, else the part of the
/// current page up to its end (or up to the end of the data).
pub open spec fn planned_op(offset: int, src: int, len: int) -> WriteOp {
    let pos = offset + src;
    let rem = len - src;
    if pos % 256 == 0 && rem >= 256 {
        WriteOp::Pages { addr: pos as u32, src: src as usize, len: (rem - rem % 256) as usize }
    } else {
        WriteOp::Merge {
            page_base: (pos - pos % 256) as u32,
            in_page_off: (pos % 256) as usize,
            src: src as usize,
            len: (if rem < 256 - pos % 256 { rem } else { 256 - pos % 256 }) as usize,
        }
    }
}

/// `ops` is the driver's plan for writing `len` bytes at `offset`: the
/// operations follow each other through the caller's bytes, each is the one
/// [`planned_op`] picks at its position, and together they cover all bytes.
#[verifier::opaque]
pub open spec fn is_write_plan(ops: Seq<WriteOp>, offset: int, len: int) -> bool {
    &&& forall|k: int| 0 <= k < ops.len() ==> #[trigger] ops[k] == planned_op(offset, op_src(ops[k]), len)
    &&& forall|k: int| 0 <= k < ops.len() ==> op_src(#[trigger] ops[k]) < len
    &&& ops.len() > 0 ==> op_src(ops[0]) == 0
    &&& forall|k: int|
        0 <= k < ops.len() - 1 ==> op_src(#[trigger] ops[k + 1]) == op_src(ops[k]) + op_len(ops[k])
    &&& ops.len() > 0 ==> op_src(ops.last()) + op_len(ops.last()) == len
    &&& ops.len() == 0 <==> len == 0
}

/// Flash-size-bounded direct-bootrom flash driver.
pub struct DirectFlash<const SIZE: u32>;

impl<const SIZE: u32> DirectFlash<SIZE> {
    /// Size of the flash in bytes.
    pub fn capacity(&self) -> (r: usize)
        ensures
            r == SIZE,
    {
        SIZE as usize
    }

    /// Check a read of `len` bytes at `offset` (the length is taken as a
    /// `u32`, as the bootrom sees it).
    pub fn check_read(&self, offset: u32, len: usize) -> (r: Result<(), FlashError>)
        ensures
            r is Ok <==> offset + (len as u32) <= SIZE,
            r matches Err(e) ==> e.0 == FlashErrorKind::OutOfBounds,
    {
        match offset.checked_add(len as u32) {
            None => Err(FlashError(FlashErrorKind::OutOfBounds)),
            Some(end) => {
                if end > SIZE {
                    Err(FlashError(FlashErrorKind::OutOfBounds))
                } else {
                    Ok(())
                }
            },
        }
    }

    /// Plan the erase of `from..to`: the start of each sector to erase, in
    /// order (one bootrom call per sector, so the watchdog can be fed between).
    pub fn erase_plan(&self, from: u32, to: u32) -> (r: Result<Vec<u32>, FlashError>)
        ensures
            from % SECTOR_SIZE != 0 || to % SECTOR_SIZE != 0 || from > to ==> r == Err::<
                Vec<u32>,
                FlashError,
            >(FlashError(FlashErrorKind::NotAligned)),
            from % SECTOR_SIZE == 0 && to % SECTOR_SIZE == 0 && from <= to && to > SIZE ==> r
                == Err::<Vec<u32>, FlashError>(FlashError(FlashErrorKind::OutOfBounds)),
            from % SECTOR_SIZE == 0 && to % SECTOR_SIZE == 0 && from <= to && to <= SIZE ==> (r
                matches Ok(v) && v@ == erase_sectors(from as int, ((to - from) / 4096) as nat)),
    {
        if from % SECTOR_SIZE != 0 || to % SECTOR_SIZE != 0 || from > to {
            return Err(FlashError(FlashErrorKind::NotAligned));
        }
        if to > SIZE {
            return Err(FlashError(FlashErrorKind::OutOfBounds));
        }
        let mut sectors: Vec<u32> = Vec::new();
        let mut addr = from;
        while addr < to
            invariant
                from <= addr <= to,
                addr % 4096 == 0,
                from % 4096 == 0,
                to % 4096 == 0,
                sectors@.len() == (addr - from) / 4096,
                forall|k: int|
                    0 <= k < sectors@.len() ==> #[trigger] sectors@[k] == (from + 4096 * k) as u32,
            decreases to - addr,
        {
            sectors.push(addr);
            addr = addr + SECTOR_SIZE;
        }
        assert(sectors@ =~= erase_sectors(from as int, ((to - from) / 4096) as nat));
        Ok(sectors)
    }

    /// Plan the write of `len` bytes at `offset`. An empty write succeeds
    /// with nothing to do, before any bounds check. (Positions are 32-bit, so
    /// a write longer than 4 GiB would overflow them.)
    pub fn write_plan(&self, offset: u32, len: usize) -> (r: Result<Vec<WriteOp>, FlashError>)
        requires
            len <= u32::MAX,
        ensures
            len == 0 ==> (r matches Ok(v) && v@.len() == 0),
            len > 0 ==> (r is Ok <==> offset + (len as u32) <= SIZE),
            r matches Err(e) ==> e.0 == FlashErrorKind::OutOfBounds,
            r matches Ok(v) ==> is_write_plan(v@, offset as int, len as int),
    {
        if len == 0 {
            proof {
                reveal(is_write_plan);
            }
            return Ok(Vec::new());
        }
        let end = match offset.checked_add(len as u32) {
            None => return Err(FlashError(FlashErrorKind::OutOfBounds)),
            Some(end) => end,
        };
        if end > SIZE {
            return Err(FlashError(FlashErrorKind::OutOfBounds));
        }
        let n = len as u32;
        proof {
            reveal(is_write_plan);
        }
        let mut ops: Vec<WriteOp> = Vec::new();
        let mut src: usize = 0;
        let mut pos: u32 = offset;
        while src < len
            invariant
                len == n as usize,
                offset + n <= SIZE,
                src <= len,
                pos == offset + src,
                forall|k: int|
                    0 <= k < ops@.len() ==> #[trigger] ops@[k] == planned_op(
                        offset as int,
                        op_src(ops@[k]),
                        len as int,
                    ),
                forall|k: int| 0 <= k < ops@.len() ==> op_src(#[trigger] ops@[k]) < len,
                ops@.len() > 0 ==> op_src(ops@[0]) == 0,
                forall|k: int|
                    0 <= k < ops@.len() - 1 ==> op_src(#[trigger] ops@[k + 1]) == op_src(ops@[k])
                        + op_len(ops@[k]),
                ops@.len() > 0 ==> op_src(ops@.last()) + op_len(ops@.last()) == src,
                ops@.len() == 0 <==> src == 0,
            decreases len - src,
        {
            let remaining = len - src;
            let op = if pos % PAGE_SIZE == 0 && remaining >= PAGE_SIZE as usize {
                // Fast path: whole consecutive pages in one operation.
                let span = remaining - remaining % (PAGE_SIZE as usize);
                WriteOp::Pages { addr: pos, src, len: span }
            } else {
                // Slow path: one partial page.
                let in_page_off = pos % PAGE_SIZE;
                let page_base = pos - in_page_off;
                let room = (PAGE_SIZE - in_page_off) as usize;
                let take = if remaining < room {
                    remaining
                } else {
                    room
                };
                WriteOp::Merge { page_base, in_page_off: in_page_off as usize, src, len: take }
            };
            let step = match op {
                WriteOp::Pages { len, .. } => len,
                WriteOp::Merge { len, .. } => len,
            };
            assert(op == planned_op(offset as int, src as int, len as int));
            ops.push(op);
            src = src + step;
            pos = pos + step as u32;
        }
        Ok(ops)
    }
}

/// The page programmed by a merge: the page as read back, with the bytes
/// `in_page_off .. in_page_off + data.len()` replaced by `data`.
pub fn merge_page(page: &[u8], in_page_off: usize, data: &[u8]) -> (r: Vec<u8>)
    requires
        page@.len() == 256,
        in_page_off + data@.len() <= 256,
    ensures
        r@ == page@.take(in_page_off as int) + data@ + page@.skip(in_page_off + data@.len()),
{
    let mut buf: Vec<u8> = Vec::new();
    let mut i: usize = 0;
    while i < 256
        invariant
            i <= 256,
            page@.len() == 256,
            in_page_off + data@.len() <= 256,
            buf@.len() == i,
            forall|k: int|
                0 <= k < i ==> #[trigger] buf@[k] == (if in_page_off <= k < in_page_off
                    + data@.len() {
                    data@[k - in_page_off]
                } else {
                    page@[k]
                }),
        decreases 256 - i,
    {
        if in_page_off <= i && i < in_page_off + data.len() {
            buf.push(data[i - in_page_off]);
        } else {
            buf.push(page[i]);
        }
        i = i + 1;
    }
    assert(buf@ =~= page@.take(in_page_off as int) + data@ + page@.skip(in_page_off + data@.len()));
    buf
}

/// Flash contents after one operation of a write of `data`. A merge
/// programs the whole page: the bytes outside its window as read back from
/// flash, the window from `data`.
pub open spec fn apply_op(mem: Seq<u8>, op: WriteOp, data: Seq<u8>) -> Seq<u8> {
    match op {
        WriteOp::Pages { addr, src, len } => nor_program(
            mem,
            addr as int,
            data.subrange(src as int, src + len),
        ),
        WriteOp::Merge { page_base, in_page_off, src, len } => nor_program(
            mem,
            page_base as int,
            mem.subrange(page_base as int, page_base + in_page_off) + data.subrange(
                src as int,
                src + len,
            ) + mem.subrange(page_base + in_page_off + len, page_base + 256),
        ),
    }
}

/// Flash contents after a sequence of operations.
pub open spec fn apply_ops(mem: Seq<u8>, ops: Seq<WriteOp>, data: Seq<u8>) -> Seq<u8>
    decreases ops.len(),
{
    if ops.len() == 0 {
        mem
    } else {
        apply_op(apply_ops(mem, ops.drop_last(), data), ops.last(), data)
    }
}

/// Programming a byte with its own value leaves it unchanged.
proof fn lemma_and_self(b: u8)
    ensures
        b & b == b,
{
    assert(b & b == b) by (bit_vector);
}

/// Programming two adjacent windows is programming their concatenation.
proof fn lemma_nor_program_adjacent(mem: Seq<u8>, o: int, d1: Seq<u8>, d2: Seq<u8>)
    requires
        0 <= o,
        o + d1.len() + d2.len() <= mem.len(),
    ensures
        nor_program(nor_program(mem, o, d1), o + d1.len(), d2) == nor_program(mem, o, d1 + d2),
{
    assert(nor_program(nor_program(mem, o, d1), o + d1.len(), d2) =~= nor_program(mem, o, d1 + d2));
}

/// A merge programs exactly its window.
proof fn lemma_merge_is_window(mem: Seq<u8>, op: WriteOp, data: Seq<u8>)
    requires
        op matches WriteOp::Merge { page_base, in_page_off, src, len } && page_base + 256
            <= mem.len() && in_page_off + len <= 256 && src + len <= data.len(),
    ensures
        apply_op(mem, op, data) == nor_program(
            mem,
            op_target(op),
            data.subrange(op_src(op), op_src(op) + op_len(op)),
        ),
{
    if let WriteOp::Merge { page_base, in_page_off, src, len } = op {
        let page = mem.subrange(page_base as int, page_base + in_page_off) + data.subrange(
            src as int,
            src + len,
        ) + mem.subrange(page_base + in_page_off + len, page_base + 256);
        let a = nor_program(mem, page_base as int, page);
        let b = nor_program(
            mem,
            page_base + in_page_off,
            data.subrange(src as int, src + len),
        );
        assert forall|i: int| 0 <= i < mem.len() implies a[i] == b[i] by {
            lemma_and_self(mem[i]);
        }
        assert(a =~= b);
    }
}

/// Facts about operation `k - 1` of a plan.
#[verifier::spinoff_prover]
#[verifier::rlimit(40)]
proof fn lemma_plan_step(ops: Seq<WriteOp>, offset: int, len: int, k: int)
    requires
        is_write_plan(ops, offset, len),
        0 <= offset,
        offset + len <= u32::MAX,
        0 < k <= ops.len(),
    ensures
        k == 1 ==> op_src(ops[k - 1]) == 0,
        k > 1 ==> op_src(ops[k - 1]) == op_src(ops[k - 2]) + op_len(ops[k - 2]),
        0 < op_len(ops[k - 1]),
        op_src(ops[k - 1]) + op_len(ops[k - 1]) <= len,
        op_target(ops[k - 1]) == offset + op_src(ops[k - 1]),
        ops[k - 1] matches WriteOp::Merge { page_base, in_page_off, len: ml, .. } ==> {
            &&& page_base % 256 == 0
            &&& page_base <= offset + op_src(ops[k - 1])
            &&& in_page_off + ml <= 256
        },
{
    reveal(is_write_plan);
    let op = ops[k - 1];
    assert(op == planned_op(offset, op_src(op), len));
    if k > 1 {
        assert(op_src(ops[(k - 2) + 1]) == op_src(ops[k - 2]) + op_len(ops[k - 2]));
    }
    assert(op_src(op) < len);
}

/// `x` rounded up to a whole number of 256-byte pages: the end of the last
/// page that a write ending at `x` touches.
pub open spec fn page_round_up(x: int) -> int {
    (x + 255) / 256 * 256
}

/// Rounding up to pages gives a page boundary at or above `x`.
proof fn lemma_page_round_up(x: int)
    requires
        0 <= x,
    ensures
        x <= page_round_up(x),
        page_round_up(x) % 256 == 0,
        forall|m: int| #![trigger (m % 256)] x <= m && m % 256 == 0 ==> page_round_up(x) <= m,
{
    assert(x <= page_round_up(x) && page_round_up(x) % 256 == 0) by (nonlinear_arith);
    assert forall|m: int| #![trigger (m % 256)] x <= m && m % 256 == 0 implies page_round_up(x) <= m by {
        assert(page_round_up(x) <= m) by (nonlinear_arith)
            requires
                x <= m,
                m % 256 == 0,
        ;
    }
}

/// A page that starts below a page boundary ends at or before it.
proof fn lemma_page_fits(p: int, m: int)
    requires
        p % 256 == 0,
        m % 256 == 0,
        0 <= p < m,
    ensures
        p + 256 <= m,
{
    assert(p + 256 <= m) by (nonlinear_arith)
        requires
            p % 256 == 0,
            m % 256 == 0,
            0 <= p < m,
    ;
}

/// The first `k` operations of a plan program the caller's bytes up to where
/// operation `k` starts.
proof fn lemma_write_plan_prefix(
    mem: Seq<u8>,
    ops: Seq<WriteOp>,
    offset: int,
    data: Seq<u8>,
    k: int,
)
    requires
        is_write_plan(ops, offset, data.len() as int),
        0 <= offset,
        offset + data.len() <= u32::MAX,
        page_round_up(offset + data.len()) <= mem.len(),
        0 <= k <= ops.len(),
    ensures
        apply_ops(mem, ops.take(k), data) == nor_program(
            mem,
            offset,
            data.subrange(0, if k == 0 { 0 } else { op_src(ops[k - 1]) + op_len(ops[k - 1]) }),
        ),
    decreases k,
{
    if k == 0 {
        assert(ops.take(0) =~= Seq::<WriteOp>::empty());
        assert(nor_program(mem, offset, data.subrange(0, 0)) =~= mem);
    } else {
        let op = ops[k - 1];
        lemma_plan_step(ops, offset, data.len() as int, k);
        lemma_write_plan_prefix(mem, ops, offset, data, k - 1);
        let s = op_src(op);
        let l = op_len(op);
        let before = apply_ops(mem, ops.take(k - 1), data);
        assert(ops.take(k).drop_last() =~= ops.take(k - 1));
        assert(ops.take(k).last() == op);
        assert(before == nor_program(mem, offset, data.subrange(0, s)));
        assert(before.len() == mem.len());
        if let WriteOp::Merge { page_base, .. } = op {
            lemma_page_round_up(offset + data.len());
            lemma_page_fits(page_base as int, page_round_up(offset + data.len()));
            lemma_merge_is_window(before, op, data);
        }
        assert(apply_op(before, op, data) == nor_program(
            before,
            offset + s,
            data.subrange(s, s + l),
        ));
        lemma_nor_program_adjacent(mem, offset, data.subrange(0, s), data.subrange(s, s + l));
        assert(data.subrange(0, s) + data.subrange(s, s + l) =~= data.subrange(0, s + l));
    }
}

/// A write carried out by the driver's plan programs exactly the requested
/// bytes: the flash ends up as if `data` had been programmed at `offset`,
/// and every other byte is unchanged. (The pages the write touches must lie
/// in the flash, as they do whenever the flash ends on a page boundary.)
pub proof fn lemma_write_plan_effect(mem: Seq<u8>, ops: Seq<WriteOp>, offset: int, data: Seq<u8>)
    requires
        is_write_plan(ops, offset, data.len() as int),
        0 <= offset,
        offset + data.len() <= u32::MAX,
        page_round_up(offset + data.len()) <= mem.len(),
    ensures
        apply_ops(mem, ops, data) == nor_program(mem, offset, data),
{
    lemma_write_plan_prefix(mem, ops, offset, data, ops.len() as int);
    assert(ops.take(ops.len() as int) =~= ops);
    if ops.len() > 0 {
        reveal(is_write_plan);
        assert(data.subrange(0, data.len() as int) =~= data);
    } else {
        reveal(is_write_plan);
        assert(data.subrange(0, 0) =~= data);
    }
}

/// The sector starts of an erase of `n` sectors from `from`, in order.
pub open spec fn erase_sectors(from: int, n: nat) -> Seq<u32> {
    Seq::new(n, |k: int| (from + 4096 * k) as u32)
}

/// Flash contents with the bytes `lo..hi` erased (0xFF).
pub open spec fn erased_range(mem: Seq<u8>, lo: int, hi: int) -> Seq<u8> {
    Seq::new(mem.len(), |a: int| if lo <= a < hi { 0xFFu8 } else { mem[a] })
}

/// Flash contents after erasing the 4 KiB sector that starts at `addr`.
pub open spec fn apply_erase(mem: Seq<u8>, addr: int) -> Seq<u8> {
    erased_range(mem, addr, addr + 4096)
}

/// Flash contents after erasing each sector of a plan, in order.
pub open spec fn apply_erases(mem: Seq<u8>, sectors: Seq<u32>) -> Seq<u8>
    decreases sectors.len(),
{
    if sectors.len() == 0 {
        mem
    } else {
        apply_erase(apply_erases(mem, sectors.drop_last()), sectors.last() as int)
    }
}

/// Erasing the sectors of a plan one by one erases the whole range.
proof fn lemma_erase_sectors_effect(mem: Seq<u8>, from: int, n: nat)
    requires
        0 <= from,
        from + 4096 * n <= mem.len(),
        from + 4096 * n <= 0x1_0000_0000,
    ensures
        apply_erases(mem, erase_sectors(from, n)) == erased_range(mem, from, from + 4096 * n),
    decreases n,
{
    if n == 0 {
        assert(erased_range(mem, from, from) =~= mem);
    } else {
        let m = (n - 1) as nat;
        assert(erase_sectors(from, n).drop_last() =~= erase_sectors(from, m));
        lemma_erase_sectors_effect(mem, from, m);
        let last = from + 4096 * m;
        assert(erase_sectors(from, n).last() == last as u32);
        assert(last as u32 == last);
        assert(apply_erase(erased_range(mem, from, last), last) =~= erased_range(
            mem,
            from,
            from + 4096 * n,
        ));
    }
}

/// Erase, then write, then read: after the driver erases `from..to` by its
/// erase plan and then writes `data` inside that range by its write plan,
/// the flash holds exactly `data` at `offset`, and nothing outside the erased
/// range has changed.
pub proof fn lemma_erase_write_read(
    mem: Seq<u8>,
    from: u32,
    to: u32,
    ops: Seq<WriteOp>,
    offset: int,
    data: Seq<u8>,
)
    requires
        from % SECTOR_SIZE == 0,
        to % SECTOR_SIZE == 0,
        from <= offset,
        offset + data.len() <= to,
        to <= mem.len(),
        is_write_plan(ops, offset, data.len() as int),
    ensures
        ({
            let erased = apply_erases(mem, erase_sectors(from as int, ((to - from) / 4096) as nat));
            let after = apply_ops(erased, ops, data);
            &&& after.len() == mem.len()
            &&& after.subrange(offset, offset + data.len()) == data
            &&& forall|a: int| 0 <= a < mem.len() && !(from <= a < to) ==> after[a] == mem[a]
        }),
{
    let n = ((to - from) / 4096) as nat;
    assert(from + 4096 * n == to);
    lemma_erase_sectors_effect(mem, from as int, n);
    let erased = erased_range(mem, from as int, to as int);
    lemma_page_round_up(offset + data.len());
    assert((to as int) % 256 == 0);
    lemma_write_plan_effect(erased, ops, offset, data);
    let after = nor_program(erased, offset, data);
    assert forall|k: int| 0 <= k < data.len() implies after.subrange(offset, offset + data.len())[k]
        == data[k] by {
        let b = data[k];
        assert(0xFFu8 & b == b) by (bit_vector);
    }
    assert(after.subrange(offset, offset + data.len()) =~= data);
}

/// The operations of a write plan are what the bootrom can carry out and
/// lose no whole page: a `Pages` operation programs whole pages at a page
/// boundary, a `Merge` stays within one page, and a merge is never used for a
/// whole page that could be programmed straight. Each operation programs the
/// caller's bytes at the place they have in the write.
pub proof fn lemma_write_plan_ops(ops: Seq<WriteOp>, offset: int, len: int, k: int)
    requires
        is_write_plan(ops, offset, len),
        0 <= offset,
        offset + len <= u32::MAX,
        0 <= k < ops.len(),
    ensures
        ops[k] matches WriteOp::Pages { addr, src, len: l } ==> {
            &&& addr % 256 == 0
            &&& l % 256 == 0
            &&& l > 0
            &&& addr == offset + src
        },
        ops[k] matches WriteOp::Merge { page_base, in_page_off, src, len: l } ==> {
            &&& page_base % 256 == 0
            &&& 0 < l
            &&& in_page_off + l <= 256
            &&& page_base + in_page_off == offset + src
            &&& (in_page_off != 0 || l < 256)
        },
        0 < op_len(ops[k]),
        op_src(ops[k]) + op_len(ops[k]) <= len,
{
    reveal(is_write_plan);
    let op = ops[k];
    assert(op == planned_op(offset, op_src(op), len));
    assert(op_src(op) < len);
    let src = op_src(op);
    let pos = offset + src;
    let rem = len - src;
    assert(0 <= pos <= u32::MAX);
    if rem >= 256 && pos % 256 == 0 {
        assert((rem - rem % 256) % 256 == 0);
        assert(rem - rem % 256 >= 256);
    } else {
        assert(0 <= pos % 256 < 256);
        assert((pos - pos % 256) % 256 == 0);
    }
}

} // verus!
