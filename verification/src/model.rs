//! Mathematical model of the decoder: its state, the event and error types,
//! and a specification-level interpreter that gives the exact meaning of
//! every command. `DLDecoder::parse_cmd` is proved to implement
//! `spec_parse_cmd` step for step.

use vstd::prelude::*;

use crate::decompnode::DecompNode;
use crate::decompnode::unpack_entry_a;
use crate::decompnode::unpack_entry_b;
use crate::stream::be24;
use crate::stream::be32;

verus! {

/// Length of the graphics RAM: the full 24-bit address space.
pub const GFXRAM_SIZE: usize = 0x100_0000;

/// Number of rows of the decompression table.
pub const TABLE_ROWS: usize = 512;

/// What a command changed, reported to the caller alongside the state
/// mutation itself. The `bool` distinguishes the 16-bit (`true`) from the
/// 8-bit (`false`) variant of a primitive.
#[derive(Clone, Copy, Debug, PartialEq, Eq, Structural)]
pub enum DLDecoderResult {
    /// `Fill(start, declared_total, wide)`
    Fill(usize, usize, bool),
    /// `Memcpy(dst, count_in_samples, wide)`
    Memcpy(usize, usize, bool),
    /// `Decomp(start, count_in_samples, wide)`
    Decomp(usize, usize, bool),
    /// `Setreg(addr, val)`
    Setreg(u8, u8),
    Noop,
}

/// Why decoding a command failed.
#[derive(Clone, Copy, Debug, PartialEq, Eq, Structural)]
pub enum DLError {
    /// The stream ended in the middle of a command.
    Truncated,
    /// The byte after the sync byte is not a known opcode.
    BadOpcode,
    /// A fill sub-count overshoots the declared total.
    MalformedFill,
    /// A decompression step led outside the table. A table loaded by the
    /// load-table command can never cause this: its packed `next` fields
    /// are 9-bit values.
    CorruptTable,
    /// The load-table command declared more than `TABLE_ROWS` rows.
    TableOverflow,
    /// A write primitive would run past the top of the graphics RAM.
    /// Writes do not wrap the 24-bit address space (only the read-back
    /// does); the device-faulting case surfaces as this error.
    RangeOverflow,
}

/// Mathematical view of the decoder state. The table is kept flat:
/// entry `k` of row `i` is `table[2 * i + k]`.
pub struct DLView {
    pub gfxram: Seq<u8>,
    pub reg: Seq<u8>,
    pub table: Seq<DecompNode>,
}

impl DLView {
    /// Well-formedness: fixed sizes, and every `next` index in range.
    pub open spec fn wf(self) -> bool {
        &&& self.gfxram.len() == GFXRAM_SIZE
        &&& self.reg.len() == 256
        &&& self.table.len() == 2 * TABLE_ROWS
        &&& forall|i: int| 0 <= i < 2 * TABLE_ROWS ==> (#[trigger] self.table[i]).next < TABLE_ROWS
    }

    /// The state a fresh decoder starts in: all zero.
    pub open spec fn init() -> DLView {
        DLView {
            gfxram: Seq::new(GFXRAM_SIZE as nat, |i: int| 0u8),
            reg: Seq::new(256, |i: int| 0u8),
            table: Seq::new((2 * TABLE_ROWS) as nat, |i: int| DecompNode { color: 0, next: 0 }),
        }
    }
}

/// A zero count byte on the wire denotes 256.
pub open spec fn wrap256_spec(b: u8) -> int {
    if b == 0 {
        256
    } else {
        b as int
    }
}

/// `gfx` with the single byte `v` stored at `addr..addr + c`.
pub open spec fn store_run(gfx: Seq<u8>, addr: int, c: int, v: u8) -> Seq<u8> {
    Seq::new(gfx.len(), |i: int| if addr <= i < addr + c { v } else { gfx[i] })
}

/// `gfx` with `c` byte pairs stored at `addr..addr + 2 * c`: the byte read
/// second (`v1`) lands at each even offset, the byte read first (`v0`) at
/// each odd offset.
pub open spec fn store_run16(gfx: Seq<u8>, addr: int, c: int, v0: u8, v1: u8) -> Seq<u8> {
    Seq::new(
        gfx.len(),
        |i: int|
            if addr <= i < addr + 2 * c {
                if (i - addr) % 2 == 0 {
                    v1
                } else {
                    v0
                }
            } else {
                gfx[i]
            },
    )
}

/// `gfx` with `n` bytes copied from `src..src + n` to `dst..dst + n`,
/// reading the source as it was before any byte moved: `memmove`, defined
/// for any overlap.
pub open spec fn memmove_seq(gfx: Seq<u8>, dst: int, src: int, n: int) -> Seq<u8> {
    Seq::new(gfx.len(), |i: int| if dst <= i < dst + n { gfx[src + (i - dst)] } else { gfx[i] })
}

/// 8-bit wrapping accumulation of the low byte of `color`.
pub open spec fn acc_add8(acc: u16, color: u16) -> u16 {
    (((acc % 0x100) + (color % 0x100)) % 0x100) as u16
}

/// 16-bit wrapping accumulation of `color`.
pub open spec fn acc_add16(acc: u16, color: u16) -> u16 {
    ((acc + color) % 0x1_0000) as u16
}

/// State of the LSB-first bit reader: stream cursor, number of bits of
/// `buf` already consumed, and the remaining bits of the current byte in
/// the low bits of `buf`.
pub struct BitSt {
    pub pos: int,
    pub bitcnt: int,
    pub buf: u8,
}

/// Outcome of decoding one sample from the bit stream.
pub enum WalkOut {
    Done { acc: u16, bit: BitSt },
    Fail { kind: DLError },
}

/// Outcome of a command's body after its header: the state and cursor on
/// success, the state reached and the error on failure.
pub enum LoopOut {
    Done { st: DLView, pos: int },
    Fail { st: DLView, kind: DLError },
}

/// Outcome of one `parse_cmd` step: a decoded command, the clean end of
/// the stream during sync, or an error.
pub enum SpecStep {
    Cmd { st: DLView, pos: int, ev: DLDecoderResult },
    Stop,
    Fail { st: DLView, kind: DLError },
}

/// What the read-back of `len` bytes at `addr` returns: graphics RAM
/// read through the circular 24-bit address space.
pub open spec fn wrap_read(gfx: Seq<u8>, addr: int, len: int) -> Seq<u8> {
    Seq::new(len as nat, |i: int| gfx[(addr + i) % (GFXRAM_SIZE as int)])
}

/// How a handler's outcome is held to its specification: the reached
/// state, the cursor and the returned value all agree with the step. On
/// failure the cursor is not pinned down: decoding is over.
pub open spec fn step_matches(
    step: SpecStep,
    st2: DLView,
    pos2: int,
    r: Result<DLDecoderResult, DLError>,
) -> bool {
    match step {
        SpecStep::Cmd { st, pos, ev } => st2 == st && pos2 == pos && r == Ok::<
            DLDecoderResult,
            DLError,
        >(ev),
        SpecStep::Fail { st, kind } => st2 == st && r == Err::<DLDecoderResult, DLError>(kind),
        SpecStep::Stop => false,
    }
}

/// Walk the table one bit at a time from row `idx` until an entry with
/// `next == 0` completes the sample, accumulating colors into `acc`.
/// Opaque: proofs step it with `lemma_walk_step` and
/// `lemma_walk_truncated`.
#[verifier::opaque]
pub open spec fn spec_walk(
    table: Seq<DecompNode>,
    data: Seq<u8>,
    bit: BitSt,
    idx: int,
    acc: u16,
    wide: bool,
) -> WalkOut
    decreases (data.len() - bit.pos) * 8 + 8 - bit.bitcnt,
    when 0 <= bit.bitcnt <= 8 && 0 <= bit.pos <= data.len()
{
    if bit.bitcnt == 8 && bit.pos >= data.len() {
        WalkOut::Fail { kind: DLError::Truncated }
    } else if !(0 <= idx < TABLE_ROWS) {
        WalkOut::Fail { kind: DLError::CorruptTable }
    } else {
        let b0 = if bit.bitcnt == 8 {
            BitSt { pos: bit.pos + 1, bitcnt: 0, buf: data[bit.pos] }
        } else {
            bit
        };
        let k = (b0.buf % 2) as int;
        let e = table[2 * idx + k];
        let acc2 = if wide {
            acc_add16(acc, e.color)
        } else {
            acc_add8(acc, e.color)
        };
        let b1 = BitSt { pos: b0.pos, bitcnt: b0.bitcnt + 1, buf: (b0.buf / 2) as u8 };
        if e.next == 0 {
            WalkOut::Done { acc: acc2, bit: b1 }
        } else {
            spec_walk(table, data, b1, e.next as int, acc2, wide)
        }
    }
}

/// A walk that still needs a bit when the input is spent fails with
/// `Truncated`.
pub proof fn lemma_walk_truncated(
    table: Seq<DecompNode>,
    data: Seq<u8>,
    bit: BitSt,
    idx: int,
    acc: u16,
    wide: bool,
)
    requires
        bit.bitcnt == 8,
        0 <= bit.pos <= data.len(),
        bit.pos >= data.len(),
    ensures
        spec_walk(table, data, bit, idx, acc, wide) == (WalkOut::Fail {
            kind: DLError::Truncated,
        }),
{
    reveal(spec_walk);
}

/// One step of the walk: fetch a byte if the current one is spent, branch
/// on the low bit, accumulate the entry's color, and either finish the
/// sample (`next == 0`) or continue at row `next`.
pub proof fn lemma_walk_step(
    table: Seq<DecompNode>,
    data: Seq<u8>,
    bit: BitSt,
    idx: int,
    acc: u16,
    wide: bool,
)
    requires
        0 <= bit.bitcnt <= 8,
        0 <= bit.pos <= data.len(),
        0 <= idx < TABLE_ROWS,
        !(bit.bitcnt == 8 && bit.pos >= data.len()),
    ensures
        ({
            let b0 = if bit.bitcnt == 8 {
                BitSt { pos: bit.pos + 1, bitcnt: 0, buf: data[bit.pos] }
            } else {
                bit
            };
            let k = (b0.buf % 2) as int;
            let e = table[2 * idx + k];
            let acc2 = if wide {
                acc_add16(acc, e.color)
            } else {
                acc_add8(acc, e.color)
            };
            let b1 = BitSt { pos: b0.pos, bitcnt: b0.bitcnt + 1, buf: (b0.buf / 2) as u8 };
            spec_walk(table, data, bit, idx, acc, wide) == if e.next == 0 {
                WalkOut::Done { acc: acc2, bit: b1 }
            } else {
                spec_walk(table, data, b1, e.next as int, acc2, wide)
            }
        }),
{
    reveal(spec_walk);
}

/// Decode samples `i..cnt`, each restarting the walk at the mode's start
/// row (8 for wide, 0 otherwise) but keeping the running accumulator, and
/// write each completed sample to the graphics RAM.
pub open spec fn spec_decomp_loop(
    st: DLView,
    data: Seq<u8>,
    bit: BitSt,
    addr: int,
    cnt: int,
    i: int,
    acc: u16,
    wide: bool,
) -> LoopOut
    decreases cnt - i,
{
    if i >= cnt {
        LoopOut::Done { st, pos: bit.pos }
    } else {
        let start: int = if wide {
            8
        } else {
            0
        };
        match spec_walk(st.table, data, bit, start, acc, wide) {
            WalkOut::Fail { kind } => LoopOut::Fail { st, kind },
            WalkOut::Done { acc: acc2, bit: bit2 } => {
                let gfx2 = if wide {
                    st.gfxram.update(addr + 2 * i, (acc2 % 0x100) as u8).update(
                        addr + 2 * i + 1,
                        (acc2 / 0x100) as u8,
                    )
                } else {
                    st.gfxram.update(addr + i, (acc2 % 0x100) as u8)
                };
                spec_decomp_loop(
                    DLView { gfxram: gfx2, ..st },
                    data,
                    bit2,
                    addr,
                    cnt,
                    i + 1,
                    acc2,
                    wide,
                )
            },
        }
    }
}

/// Meaning of a decompression command, header included.
pub open spec fn spec_decomp(st: DLView, data: Seq<u8>, pos: int, wide: bool) -> SpecStep {
    if pos + 4 <= data.len() {
        let addr = be24(data, pos);
        let cnt = wrap256_spec(data[pos + 3]);
        let width: int = if wide {
            2
        } else {
            1
        };
        if addr + cnt * width > GFXRAM_SIZE {
            SpecStep::Fail { st, kind: DLError::RangeOverflow }
        } else {
            match spec_decomp_loop(
                st,
                data,
                BitSt { pos: pos + 4, bitcnt: 8, buf: 0 },
                addr,
                cnt,
                0,
                0,
                wide,
            ) {
                LoopOut::Done { st, pos } => SpecStep::Cmd {
                    st,
                    pos,
                    ev: DLDecoderResult::Decomp(addr as usize, cnt as usize, wide),
                },
                LoopOut::Fail { st, kind } => SpecStep::Fail { st, kind },
            }
        }
    } else {
        SpecStep::Fail { st, kind: DLError::Truncated }
    }
}

/// Meaning of the fill commands' run list: read `(count, value)` items
/// until the declared total is exhausted.
pub open spec fn spec_fill8_loop(
    st: DLView,
    data: Seq<u8>,
    pos: int,
    addr: int,
    total: int,
) -> LoopOut
    decreases total,
{
    if total <= 0 {
        LoopOut::Done { st, pos }
    } else if pos + 2 <= data.len() {
        let c = wrap256_spec(data[pos]);
        let v = data[pos + 1];
        if c > total {
            LoopOut::Fail { st, kind: DLError::MalformedFill }
        } else if addr + c > GFXRAM_SIZE {
            LoopOut::Fail { st, kind: DLError::RangeOverflow }
        } else {
            spec_fill8_loop(
                DLView { gfxram: store_run(st.gfxram, addr, c, v), ..st },
                data,
                pos + 2,
                addr + c,
                total - c,
            )
        }
    } else {
        LoopOut::Fail { st, kind: DLError::Truncated }
    }
}

/// Meaning of the 8-bit fill command, header included.
pub open spec fn spec_fill8(st: DLView, data: Seq<u8>, pos: int) -> SpecStep {
    if pos + 4 <= data.len() {
        let addr = be24(data, pos);
        let total = wrap256_spec(data[pos + 3]);
        match spec_fill8_loop(st, data, pos + 4, addr, total) {
            LoopOut::Done { st, pos } => SpecStep::Cmd {
                st,
                pos,
                ev: DLDecoderResult::Fill(addr as usize, total as usize, false),
            },
            LoopOut::Fail { st, kind } => SpecStep::Fail { st, kind },
        }
    } else {
        SpecStep::Fail { st, kind: DLError::Truncated }
    }
}

/// Meaning of the 16-bit fill's run list: each item is a count and a byte
/// pair, stored swapped (first byte read at the odd offset).
pub open spec fn spec_fill16_loop(
    st: DLView,
    data: Seq<u8>,
    pos: int,
    addr: int,
    total: int,
) -> LoopOut
    decreases total,
{
    if total <= 0 {
        LoopOut::Done { st, pos }
    } else if pos + 3 <= data.len() {
        let c = wrap256_spec(data[pos]);
        let v0 = data[pos + 1];
        let v1 = data[pos + 2];
        if c > total {
            LoopOut::Fail { st, kind: DLError::MalformedFill }
        } else if addr + 2 * c > GFXRAM_SIZE {
            LoopOut::Fail { st, kind: DLError::RangeOverflow }
        } else {
            spec_fill16_loop(
                DLView { gfxram: store_run16(st.gfxram, addr, c, v0, v1), ..st },
                data,
                pos + 3,
                addr + 2 * c,
                total - c,
            )
        }
    } else {
        LoopOut::Fail { st, kind: DLError::Truncated }
    }
}

/// Meaning of the 16-bit fill command, header included.
pub open spec fn spec_fill16(st: DLView, data: Seq<u8>, pos: int) -> SpecStep {
    if pos + 4 <= data.len() {
        let addr = be24(data, pos);
        let total = wrap256_spec(data[pos + 3]);
        match spec_fill16_loop(st, data, pos + 4, addr, total) {
            LoopOut::Done { st, pos } => SpecStep::Cmd {
                st,
                pos,
                ev: DLDecoderResult::Fill(addr as usize, total as usize, true),
            },
            LoopOut::Fail { st, kind } => SpecStep::Fail { st, kind },
        }
    } else {
        SpecStep::Fail { st, kind: DLError::Truncated }
    }
}

/// Meaning of the memcpy commands: a `memmove` of `count` samples from
/// `src` to `dst`, two bytes per sample in the wide mode.
pub open spec fn spec_memcpy(st: DLView, data: Seq<u8>, pos: int, wide: bool) -> SpecStep {
    if pos + 7 <= data.len() {
        let dst = be24(data, pos);
        let cnt = wrap256_spec(data[pos + 3]);
        let src = be24(data, pos + 4);
        let n = if wide {
            2 * cnt
        } else {
            cnt
        };
        if dst + n > GFXRAM_SIZE || src + n > GFXRAM_SIZE {
            SpecStep::Fail { st, kind: DLError::RangeOverflow }
        } else {
            SpecStep::Cmd {
                st: DLView { gfxram: memmove_seq(st.gfxram, dst, src, n), ..st },
                pos: pos + 7,
                ev: DLDecoderResult::Memcpy(dst as usize, cnt as usize, wide),
            }
        }
    } else {
        SpecStep::Fail { st, kind: DLError::Truncated }
    }
}

/// Meaning of the set-register command.
pub open spec fn spec_setreg(st: DLView, data: Seq<u8>, pos: int) -> SpecStep {
    if pos + 2 <= data.len() {
        let a = data[pos];
        let v = data[pos + 1];
        SpecStep::Cmd {
            st: DLView { reg: st.reg.update(a as int, v), ..st },
            pos: pos + 2,
            ev: DLDecoderResult::Setreg(a, v),
        }
    } else {
        SpecStep::Fail { st, kind: DLError::Truncated }
    }
}

/// Meaning of the load-table command's rows: row `i` of the wire becomes
/// the two entries `2 * i` and `2 * i + 1` of the flat table.
pub open spec fn spec_load_loop(st: DLView, data: Seq<u8>, pos: int, i: int, cnt: int) -> LoopOut
    decreases cnt - i,
{
    if i >= cnt {
        LoopOut::Done { st, pos }
    } else if pos + 9 <= data.len() {
        let row = data.subrange(pos, pos + 9);
        let t2 = st.table.update(2 * i, unpack_entry_a(row)).update(2 * i + 1, unpack_entry_b(row));
        spec_load_loop(DLView { table: t2, ..st }, data, pos + 9, i + 1, cnt)
    } else {
        LoopOut::Fail { st, kind: DLError::Truncated }
    }
}

/// Meaning of the load-table command: four reserved bytes, a big-endian
/// 32-bit row count, then the rows.
pub open spec fn spec_load(st: DLView, data: Seq<u8>, pos: int) -> SpecStep {
    if pos + 8 <= data.len() {
        let cnt = be32(data, pos + 4);
        if cnt > TABLE_ROWS {
            SpecStep::Fail { st, kind: DLError::TableOverflow }
        } else {
            match spec_load_loop(st, data, pos + 8, 0, cnt) {
                LoopOut::Done { st, pos } => SpecStep::Cmd {
                    st,
                    pos,
                    ev: DLDecoderResult::Noop,
                },
                LoopOut::Fail { st, kind } => SpecStep::Fail { st, kind },
            }
        }
    } else {
        SpecStep::Fail { st, kind: DLError::Truncated }
    }
}

/// Position of the first sync byte (`0xAF`) at or after `pos`, or the end
/// of the input if there is none.
pub open spec fn spec_sync_pos(data: Seq<u8>, pos: int) -> int
    decreases data.len() - pos,
    when 0 <= pos <= data.len()
{
    if pos >= data.len() {
        pos
    } else if data[pos] == 0xaf {
        pos
    } else {
        spec_sync_pos(data, pos + 1)
    }
}

/// Meaning of one full `parse_cmd` step: scan to the sync byte, read the
/// opcode, and run the command it names.
pub open spec fn spec_parse_cmd(st: DLView, data: Seq<u8>, pos: int) -> SpecStep {
    let s = spec_sync_pos(data, pos);
    if s >= data.len() {
        SpecStep::Stop
    } else if s + 1 >= data.len() {
        SpecStep::Fail { st, kind: DLError::Truncated }
    } else {
        let op = data[s + 1];
        let q = s + 2;
        if op == 0x20 {
            spec_setreg(st, data, q)
        } else if op == 0x61 {
            spec_fill8(st, data, q)
        } else if op == 0x62 {
            spec_memcpy(st, data, q, false)
        } else if op == 0x69 {
            spec_fill16(st, data, q)
        } else if op == 0x6a {
            spec_memcpy(st, data, q, true)
        } else if op == 0x70 {
            spec_decomp(st, data, q, false)
        } else if op == 0x78 {
            spec_decomp(st, data, q, true)
        } else if op == 0xe0 {
            spec_load(st, data, q)
        } else if op == 0xa0 {
            SpecStep::Cmd { st, pos: q, ev: DLDecoderResult::Noop }
        } else {
            SpecStep::Fail { st, kind: DLError::BadOpcode }
        }
    }
}

} // verus!
