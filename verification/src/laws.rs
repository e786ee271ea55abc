//! Laws the decoder obeys, stated over the specification interpreter and
//! proved once and for all: read-back wrap-around, register round trips,
//! `memmove` copy semantics, and the two decompressor table laws.

use vstd::prelude::*;

use vstd::arithmetic::div_mod::lemma_add_mod_noop;
use vstd::arithmetic::div_mod::lemma_add_mod_noop_right;

use crate::decompnode::DecompNode;
use crate::decompnode::unpack_entry_a;
use crate::decompnode::unpack_entry_b;
use crate::model::BitSt;
use crate::model::TABLE_ROWS;
use crate::model::DLDecoderResult;
use crate::model::DLError;
use crate::model::DLView;
use crate::model::GFXRAM_SIZE;
use crate::model::LoopOut;
use crate::model::SpecStep;
use crate::model::WalkOut;
use crate::model::lemma_walk_step;
use crate::model::lemma_walk_truncated;
use crate::model::memmove_seq;
use crate::model::spec_decomp_loop;
use crate::model::spec_fill16_loop;
use crate::model::spec_fill8_loop;
use crate::model::spec_load_loop;
use crate::model::spec_parse_cmd;
use crate::model::spec_setreg;
use crate::model::spec_sync_pos;
use crate::model::spec_walk;
use crate::model::store_run;
use crate::model::store_run16;
use crate::model::wrap256_spec;
use crate::model::wrap_read;
use crate::stream::be24;
use crate::stream::be32;

verus! {

/// A well-formed state has exactly the protocol's sizes; every command
/// handler keeps the state well-formed, so these hold after any sequence
/// of commands.
pub proof fn lemma_wf_sizes(st: DLView)
    requires
        st.wf(),
    ensures
        st.gfxram.len() == 0x100_0000,
        st.reg.len() == 256,
{
}

/// The fill runs only rewrite graphics RAM bytes: well-formedness is
/// preserved, on success and on failure alike.
pub proof fn lemma_fill8_loop_wf(st: DLView, data: Seq<u8>, pos: int, addr: int, total: int)
    requires
        st.wf(),
    ensures
        ({
            match spec_fill8_loop(st, data, pos, addr, total) {
                LoopOut::Done { st: st2, .. } => st2.wf(),
                LoopOut::Fail { st: st2, .. } => st2.wf(),
            }
        }),
    decreases total,
{
    if total > 0 && pos + 2 <= data.len() {
        let c = wrap256_spec(data[pos]);
        let v = data[pos + 1];
        if c <= total && addr + c <= GFXRAM_SIZE {
            lemma_fill8_loop_wf(
                DLView { gfxram: store_run(st.gfxram, addr, c, v), ..st },
                data,
                pos + 2,
                addr + c,
                total - c,
            );
        }
    }
}

/// As `lemma_fill8_loop_wf`, for the byte-pair runs.
pub proof fn lemma_fill16_loop_wf(st: DLView, data: Seq<u8>, pos: int, addr: int, total: int)
    requires
        st.wf(),
    ensures
        ({
            match spec_fill16_loop(st, data, pos, addr, total) {
                LoopOut::Done { st: st2, .. } => st2.wf(),
                LoopOut::Fail { st: st2, .. } => st2.wf(),
            }
        }),
    decreases total,
{
    if total > 0 && pos + 3 <= data.len() {
        let c = wrap256_spec(data[pos]);
        let v0 = data[pos + 1];
        let v1 = data[pos + 2];
        if c <= total && addr + 2 * c <= GFXRAM_SIZE {
            lemma_fill16_loop_wf(
                DLView { gfxram: store_run16(st.gfxram, addr, c, v0, v1), ..st },
                data,
                pos + 3,
                addr + 2 * c,
                total - c,
            );
        }
    }
}

/// Loaded table rows always carry 9-bit `next` indices, so the table
/// invariant survives any load.
pub proof fn lemma_load_loop_wf(st: DLView, data: Seq<u8>, pos: int, i: int, cnt: int)
    requires
        st.wf(),
        0 <= i,
        cnt <= TABLE_ROWS,
    ensures
        ({
            match spec_load_loop(st, data, pos, i, cnt) {
                LoopOut::Done { st: st2, .. } => st2.wf(),
                LoopOut::Fail { st: st2, .. } => st2.wf(),
            }
        }),
    decreases cnt - i,
{
    if i < cnt && pos + 9 <= data.len() {
        let row = data.subrange(pos, pos + 9);
        let t2 = st.table.update(2 * i, unpack_entry_a(row)).update(2 * i + 1, unpack_entry_b(row));
        lemma_load_loop_wf(DLView { table: t2, ..st }, data, pos + 9, i + 1, cnt);
    }
}

/// The decompressor only rewrites graphics RAM bytes: well-formedness is
/// preserved, on success and on failure alike.
pub proof fn lemma_decomp_loop_wf(
    st: DLView,
    data: Seq<u8>,
    bit: BitSt,
    addr: int,
    cnt: int,
    i: int,
    acc: u16,
    wide: bool,
)
    requires
        st.wf(),
        0 <= addr,
        0 <= i,
        addr + cnt * (if wide { 2int } else { 1int }) <= GFXRAM_SIZE,
    ensures
        ({
            match spec_decomp_loop(st, data, bit, addr, cnt, i, acc, wide) {
                LoopOut::Done { st: st2, .. } => st2.wf(),
                LoopOut::Fail { st: st2, .. } => st2.wf(),
            }
        }),
    decreases cnt - i,
{
    if i < cnt {
        let start: int = if wide {
            8
        } else {
            0
        };
        match spec_walk(st.table, data, bit, start, acc, wide) {
            WalkOut::Fail { .. } => {},
            WalkOut::Done { acc: acc2, bit: bit2 } => {
                let gfx2 = if wide {
                    st.gfxram.update(addr + 2 * i, (acc2 % 0x100) as u8).update(
                        addr + 2 * i + 1,
                        (acc2 / 0x100) as u8,
                    )
                } else {
                    st.gfxram.update(addr + i, (acc2 % 0x100) as u8)
                };
                lemma_decomp_loop_wf(
                    DLView { gfxram: gfx2, ..st },
                    data,
                    bit2,
                    addr,
                    cnt,
                    i + 1,
                    acc2,
                    wide,
                );
            },
        }
    }
}

/// No command changes the sizes of the state or puts an out-of-range
/// index into the table: one interpreter step from a well-formed state
/// reaches a well-formed state, whether it succeeds or fails. Together
/// with a well-formed start this holds after any sequence of commands.
pub proof fn lemma_parse_cmd_preserves_wf(st: DLView, data: Seq<u8>, pos: int)
    requires
        st.wf(),
        0 <= pos <= data.len(),
    ensures
        ({
            match spec_parse_cmd(st, data, pos) {
                SpecStep::Cmd { st: st2, .. } => st2.wf(),
                SpecStep::Fail { st: st2, .. } => st2.wf(),
                SpecStep::Stop => true,
            }
        }),
{
    let s = spec_sync_pos(data, pos);
    if s + 1 < data.len() {
        let op = data[s + 1];
        let q = s + 2;
        if op == 0x61 {
            if q + 4 <= data.len() {
                lemma_fill8_loop_wf(st, data, q + 4, be24(data, q), wrap256_spec(data[q + 3]));
            }
        } else if op == 0x69 {
            if q + 4 <= data.len() {
                lemma_fill16_loop_wf(st, data, q + 4, be24(data, q), wrap256_spec(data[q + 3]));
            }
        } else if op == 0x70 || op == 0x78 {
            if q + 4 <= data.len() {
                let wide = op == 0x78;
                let addr = be24(data, q);
                let cnt = wrap256_spec(data[q + 3]);
                let width: int = if wide {
                    2
                } else {
                    1
                };
                if addr + cnt * width <= GFXRAM_SIZE {
                    lemma_decomp_loop_wf(
                        st,
                        data,
                        BitSt { pos: q + 4, bitcnt: 8, buf: 0 },
                        addr,
                        cnt,
                        0,
                        0,
                        wide,
                    );
                }
            }
        } else if op == 0xe0 {
            if q + 8 <= data.len() && be32(data, q + 4) <= TABLE_ROWS {
                lemma_load_loop_wf(st, data, q + 8, 0, be32(data, q + 4));
            }
        }
    }
}

/// A read-back that crosses the top of memory returns the tail of the
/// graphics RAM followed by its head.
pub proof fn lemma_wrap_read_splits(gfx: Seq<u8>, addr: int, len: int)
    requires
        gfx.len() == GFXRAM_SIZE,
        0 <= addr < GFXRAM_SIZE,
        0 <= len <= GFXRAM_SIZE,
        addr + len > GFXRAM_SIZE,
    ensures
        wrap_read(gfx, addr, len) == gfx.subrange(addr, GFXRAM_SIZE as int) + gfx.subrange(
            0,
            addr + len - GFXRAM_SIZE,
        ),
{
    let size = GFXRAM_SIZE as int;
    let s = gfx.subrange(addr, size) + gfx.subrange(0, addr + len - size);
    assert forall|i: int| 0 <= i < len implies wrap_read(gfx, addr, len)[i] == s[i] by {
        if addr + i < size {
            assert((addr + i) % size == addr + i);
        } else {
            assert((addr + i) % size == (addr + i - size) % size) by {
                lemma_add_mod_noop(addr + i - size, size, size);
            }
            assert((addr + i - size) % size == addr + i - size);
        }
    }
    assert(wrap_read(gfx, addr, len) =~= s);
}

/// Storing a register and reading it back yields the stored value, and
/// the reported event carries exactly that address and value.
pub proof fn lemma_setreg_then_get(st: DLView, data: Seq<u8>, pos: int)
    requires
        st.wf(),
        0 <= pos,
        pos + 2 <= data.len(),
    ensures
        ({
            match spec_setreg(st, data, pos) {
                SpecStep::Cmd { st: st2, pos: p2, ev } => st2.reg[data[pos] as int] == data[pos
                    + 1] && ev == DLDecoderResult::Setreg(data[pos], data[pos + 1]) && p2 == pos
                    + 2,
                _ => false,
            }
        }),
{
}

/// The copy primitives read the whole source range as it was before the
/// command — `memmove`, well-defined for any overlap — and leave every
/// byte outside the destination range untouched.
pub proof fn lemma_memmove_semantics(gfx: Seq<u8>, dst: int, src: int, n: int)
    requires
        0 <= dst,
        0 <= src,
        0 <= n,
        dst + n <= gfx.len(),
        src + n <= gfx.len(),
    ensures
        memmove_seq(gfx, dst, src, n).len() == gfx.len(),
        forall|j: int|
            0 <= j < n ==> #[trigger] memmove_seq(gfx, dst, src, n)[dst + j] == gfx[src + j],
        forall|k: int|
            0 <= k < gfx.len() && !(dst <= k < dst + n) ==> #[trigger] memmove_seq(
                gfx,
                dst,
                src,
                n,
            )[k] == gfx[k],
{
}

/// With a terminal all-zero row 0, an 8-bit decompression writes only
/// zero bytes, whatever the input bits: every sample takes one branch of
/// row 0, adds color 0, and completes at once.
pub proof fn lemma_decomp8_zero_row(
    st: DLView,
    data: Seq<u8>,
    bit: BitSt,
    addr: int,
    cnt: int,
    i: int,
)
    requires
        st.wf(),
        st.table[0] == (DecompNode { color: 0, next: 0 }),
        st.table[1] == (DecompNode { color: 0, next: 0 }),
        0 <= bit.bitcnt <= 8,
        0 <= bit.pos <= data.len(),
        0 <= addr,
        addr + cnt <= st.gfxram.len(),
        0 <= i <= cnt,
    ensures
        ({
            match spec_decomp_loop(st, data, bit, addr, cnt, i, 0, false) {
                LoopOut::Done { st: st2, .. } => st2.gfxram.len() == st.gfxram.len() && (forall|
                    j: int,
                |
                    i <= j < cnt ==> #[trigger] st2.gfxram[addr + j] == 0) && (forall|k: int|
                    0 <= k < st.gfxram.len() && !(addr + i <= k < addr + cnt)
                        ==> #[trigger] st2.gfxram[k] == st.gfxram[k]),
                LoopOut::Fail { st: _, kind } => kind == DLError::Truncated,
            }
        }),
    decreases cnt - i,
{
    if i < cnt {
        if bit.bitcnt == 8 && bit.pos >= data.len() {
            lemma_walk_truncated(st.table, data, bit, 0, 0, false);
        } else {
            lemma_walk_step(st.table, data, bit, 0, 0, false);
            let b0 = if bit.bitcnt == 8 {
                BitSt { pos: bit.pos + 1, bitcnt: 0, buf: data[bit.pos] }
            } else {
                bit
            };
            let b1 = BitSt { pos: b0.pos, bitcnt: b0.bitcnt + 1, buf: (b0.buf / 2) as u8 };
            assert(spec_walk(st.table, data, bit, 0, 0, false) == (WalkOut::Done {
                acc: 0,
                bit: b1,
            }));
            let st2 = DLView { gfxram: st.gfxram.update(addr + i, 0u8), ..st };
            lemma_decomp8_zero_row(st2, data, b1, addr, cnt, i + 1);
        }
    }
}

/// With a row 0 of color 1 on both branches and `next == 0`, the samples
/// of an 8-bit decompression are the running count modulo 256: the
/// accumulator is cumulative across samples, so sample `j` (counted from
/// `i`, starting accumulator `acc`) holds `acc + (j - i) + 1 mod 256`.
pub proof fn lemma_decomp8_unit_row(
    st: DLView,
    data: Seq<u8>,
    bit: BitSt,
    addr: int,
    cnt: int,
    i: int,
    acc: u16,
)
    requires
        st.wf(),
        st.table[0] == (DecompNode { color: 1, next: 0 }),
        st.table[1] == (DecompNode { color: 1, next: 0 }),
        0 <= bit.bitcnt <= 8,
        0 <= bit.pos <= data.len(),
        0 <= addr,
        addr + cnt <= st.gfxram.len(),
        0 <= i <= cnt,
        acc < 0x100,
    ensures
        ({
            match spec_decomp_loop(st, data, bit, addr, cnt, i, acc, false) {
                LoopOut::Done { st: st2, .. } => st2.gfxram.len() == st.gfxram.len() && (forall|
                    j: int,
                |
                    i <= j < cnt ==> #[trigger] st2.gfxram[addr + j] == (((acc + (j - i) + 1)
                        % 0x100) as u8)) && (forall|k: int|
                    0 <= k < st.gfxram.len() && !(addr + i <= k < addr + cnt)
                        ==> #[trigger] st2.gfxram[k] == st.gfxram[k]),
                LoopOut::Fail { st: _, kind } => kind == DLError::Truncated,
            }
        }),
    decreases cnt - i,
{
    if i < cnt {
        if bit.bitcnt == 8 && bit.pos >= data.len() {
            lemma_walk_truncated(st.table, data, bit, 0, acc, false);
        } else {
            lemma_walk_step(st.table, data, bit, 0, acc, false);
            let b0 = if bit.bitcnt == 8 {
                BitSt { pos: bit.pos + 1, bitcnt: 0, buf: data[bit.pos] }
            } else {
                bit
            };
            let b1 = BitSt { pos: b0.pos, bitcnt: b0.bitcnt + 1, buf: (b0.buf / 2) as u8 };
            let acc2 = (((acc + 1) % 0x100) as u16);
            assert(spec_walk(st.table, data, bit, 0, acc, false) == (WalkOut::Done {
                acc: acc2,
                bit: b1,
            }));
            let st2 = DLView { gfxram: st.gfxram.update(addr + i, acc2 as u8), ..st };
            lemma_decomp8_unit_row(st2, data, b1, addr, cnt, i + 1, acc2);
            let res = spec_decomp_loop(st, data, bit, addr, cnt, i, acc, false);
            let res2 = spec_decomp_loop(st2, data, b1, addr, cnt, i + 1, acc2, false);
            assert(res == res2);
            match res2 {
                LoopOut::Done { st: st3, .. } => {
                    assert forall|j: int| i <= j < cnt implies #[trigger] st3.gfxram[addr + j]
                        == (((acc + (j - i) + 1) % 0x100) as u8) by {
                        if j > i {
                            assert(st3.gfxram[addr + j] == (((acc2 + (j - i - 1) + 1)
                                % 0x100) as u8));
                            lemma_add_mod_noop_right(j - i, acc + 1, 0x100);
                        } else {
                            assert(st3.gfxram[addr + i] == st2.gfxram[addr + i]);
                        }
                    }
                },
                LoopOut::Fail { .. } => {},
            }
        }
    }
}

} // verus!
