//! The display-list decoder: command dispatch, the fill/copy primitives
//! and the bit-stream decompressor, each proved to implement the
//! specification interpreter in `model`.

use vstd::prelude::*;

use crate::decompnode::DecompNode;
use crate::decompnode::unpack_entry_a;
use crate::decompnode::unpack_entry_b;
use crate::model::BitSt;
use crate::model::DLDecoderResult;
use crate::model::DLError;
use crate::model::DLView;
use crate::model::GFXRAM_SIZE;
use crate::model::TABLE_ROWS;
use crate::model::WalkOut;
use crate::model::lemma_walk_step;
use crate::model::lemma_walk_truncated;
use crate::model::spec_decomp;
use crate::model::spec_decomp_loop;
use crate::model::spec_walk;
use crate::model::memmove_seq;
use crate::model::spec_fill16;
use crate::model::spec_fill16_loop;
use crate::model::spec_fill8;
use crate::model::spec_fill8_loop;
use crate::model::spec_load;
use crate::model::spec_load_loop;
use crate::model::spec_memcpy;
use crate::model::spec_parse_cmd;
use crate::model::spec_setreg;
use crate::model::spec_sync_pos;
use crate::model::step_matches;
use crate::model::wrap_read;
use crate::model::SpecStep;
use crate::model::store_run;
use crate::model::store_run16;
use crate::model::wrap256_spec;
use crate::stream::ByteStream;
use crate::stream::be16;
use crate::stream::be24;

verus! {

/// A zero count byte denotes 256.
pub fn wrap256(n: u8) -> (r: usize)
    ensures
        r == wrap256_spec(n),
{
    if n == 0 {
        256
    } else {
        n as usize
    }
}

/// The decoder state: 16 MiB of graphics RAM, the 256-byte register file
/// and the flat decompression table (two entries per row).
pub struct DLDecoder {
    gfxram: Vec<u8>,
    reg: Vec<u8>,
    decomp_table: Vec<DecompNode>,
}

impl View for DLDecoder {
    type V = DLView;

    closed spec fn view(&self) -> DLView {
        DLView { gfxram: self.gfxram@, reg: self.reg@, table: self.decomp_table@ }
    }
}

impl Default for DLDecoder {
    /// A fresh decoder: everything zeroed.
    fn default() -> (r: DLDecoder)
        ensures
            r@ == DLView::init(),
            r@.wf(),
    {
        let mut gfxram: Vec<u8> = Vec::new();
        let mut i: usize = 0;
        while i < GFXRAM_SIZE
            invariant
                i <= GFXRAM_SIZE,
                gfxram@ == Seq::new(i as nat, |j: int| 0u8),
            decreases GFXRAM_SIZE - i,
        {
            gfxram.push(0);
            proof {
                assert(gfxram@ =~= Seq::new((i + 1) as nat, |j: int| 0u8));
            }
            i = i + 1;
        }
        let mut reg: Vec<u8> = Vec::new();
        let mut i: usize = 0;
        while i < 256
            invariant
                i <= 256,
                reg@ == Seq::new(i as nat, |j: int| 0u8),
            decreases 256 - i,
        {
            reg.push(0);
            proof {
                assert(reg@ =~= Seq::new((i + 1) as nat, |j: int| 0u8));
            }
            i = i + 1;
        }
        let mut decomp_table: Vec<DecompNode> = Vec::new();
        let mut i: usize = 0;
        while i < 2 * TABLE_ROWS
            invariant
                i <= 2 * TABLE_ROWS,
                decomp_table@ == Seq::new(i as nat, |j: int| DecompNode { color: 0, next: 0 }),
            decreases 2 * TABLE_ROWS - i,
        {
            decomp_table.push(DecompNode { color: 0, next: 0 });
            proof {
                assert(decomp_table@ =~= Seq::new(
                    (i + 1) as nat,
                    |j: int| DecompNode { color: 0, next: 0 },
                ));
            }
            i = i + 1;
        }
        DLDecoder { gfxram, reg, decomp_table }
    }
}

impl DLDecoder {
    /// Copy `len` bytes of graphics RAM starting at `addr`, wrapping at
    /// the top of the 24-bit address space.
    pub fn dumpbuffer(&self, addr: usize, len: usize) -> (r: Vec<u8>)
        requires
            self@.wf(),
            addr < GFXRAM_SIZE,
            len <= GFXRAM_SIZE,
        ensures
            r@ == wrap_read(self@.gfxram, addr as int, len as int),
    {
        let mut out: Vec<u8> = Vec::new();
        let mut i: usize = 0;
        while i < len
            invariant
                self@.wf(),
                addr < GFXRAM_SIZE,
                len <= GFXRAM_SIZE,
                i <= len,
                out@.len() == i,
                forall|j: int|
                    0 <= j < i ==> out@[j] == self@.gfxram[(addr + j) % (GFXRAM_SIZE as int)],
            decreases len - i,
        {
            let idx = (addr + i) % GFXRAM_SIZE;
            out.push(self.gfxram[idx]);
            i = i + 1;
        }
        proof {
            assert(out@ =~= wrap_read(self@.gfxram, addr as int, len as int));
        }
        out
    }

    /// Copy of the whole register file.
    pub fn dumpreg(&self) -> (r: Vec<u8>)
        requires
            self@.wf(),
        ensures
            r@ == self@.reg,
    {
        let mut out: Vec<u8> = Vec::new();
        let mut i: usize = 0;
        while i < 256
            invariant
                self@.wf(),
                i <= 256,
                out@ == self@.reg.subrange(0, i as int),
            decreases 256 - i,
        {
            out.push(self.reg[i]);
            proof {
                assert(out@ =~= self@.reg.subrange(0, i + 1));
            }
            i = i + 1;
        }
        proof {
            assert(out@ =~= self@.reg);
        }
        out
    }

    pub fn get_reg(&mut self, addr: u8) -> (r: u8)
        requires
            old(self)@.wf(),
        ensures
            final(self)@ == old(self)@,
            r == old(self)@.reg[addr as int],
    {
        self.reg[addr as usize]
    }

    /// Frame width, big-endian in registers `0x0F..0x11`.
    pub fn get_width(&self) -> (r: usize)
        requires
            self@.wf(),
        ensures
            r == be16(self@.reg, 0x0f),
    {
        (self.reg[0x0f] as usize) * 0x100 + self.reg[0x10] as usize
    }

    /// Frame height, big-endian in registers `0x17..0x19`.
    pub fn get_height(&self) -> (r: usize)
        requires
            self@.wf(),
        ensures
            r == be16(self@.reg, 0x17),
    {
        (self.reg[0x17] as usize) * 0x100 + self.reg[0x18] as usize
    }

    /// Base address of the 16-bit plane, big-endian in registers `0x20..0x23`.
    pub fn get_current_address_16(&self) -> (r: usize)
        requires
            self@.wf(),
        ensures
            r == be24(self@.reg, 0x20),
            r < GFXRAM_SIZE,
    {
        (self.reg[0x20] as usize) * 0x1_0000 + (self.reg[0x21] as usize) * 0x100
            + self.reg[0x22] as usize
    }

    /// Base address of the 8-bit plane, big-endian in registers `0x26..0x29`.
    pub fn get_current_address_8(&self) -> (r: usize)
        requires
            self@.wf(),
        ensures
            r == be24(self@.reg, 0x26),
            r < GFXRAM_SIZE,
    {
        (self.reg[0x26] as usize) * 0x1_0000 + (self.reg[0x27] as usize) * 0x100
            + self.reg[0x28] as usize
    }

    /// Store one register: `addr`, then `val`, from the stream.
    pub fn cmd_setreg(&mut self, stream: &mut ByteStream) -> (r: Result<
        DLDecoderResult,
        DLError,
    >)
        requires
            old(self)@.wf(),
            old(stream).wf(),
        ensures
            final(self)@.wf(),
            final(stream).wf(),
            final(stream)@.data == old(stream)@.data,
            step_matches(
                spec_setreg(old(self)@, old(stream)@.data, old(stream)@.pos),
                final(self)@,
                final(stream)@.pos,
                r,
            ),
    {
        let addr = match stream.read_u8() {
            Some(x) => x,
            None => {
                return Err(DLError::Truncated);
            },
        };
        let val = match stream.read_u8() {
            Some(x) => x,
            None => {
                return Err(DLError::Truncated);
            },
        };
        self.reg.set(addr as usize, val);
        Ok(DLDecoderResult::Setreg(addr, val))
    }

    /// `memmove` inside the graphics RAM: the destination range receives
    /// the bytes the source range held before the call, for any overlap.
    fn memmove(&mut self, dst: usize, src: usize, n: usize)
        requires
            old(self)@.wf(),
            dst + n <= GFXRAM_SIZE,
            src + n <= GFXRAM_SIZE,
        ensures
            final(self)@.wf(),
            final(self)@.gfxram == memmove_seq(old(self)@.gfxram, dst as int, src as int, n as int),
            final(self)@.reg == old(self)@.reg,
            final(self)@.table == old(self)@.table,
    {
        let ghost g0 = self.gfxram@;
        let mut tmp: Vec<u8> = Vec::new();
        let mut i: usize = 0;
        while i < n
            invariant
                self@.wf(),
                self.gfxram@ == g0,
                src + n <= GFXRAM_SIZE,
                i <= n,
                tmp@ == g0.subrange(src as int, src + i),
            decreases n - i,
        {
            tmp.push(self.gfxram[src + i]);
            proof {
                assert(tmp@ =~= g0.subrange(src as int, src + i + 1));
            }
            i = i + 1;
        }
        let ghost r0 = self.reg@;
        let ghost t0 = self.decomp_table@;
        let mut i: usize = 0;
        while i < n
            invariant
                self.gfxram@.len() == g0.len(),
                g0.len() == GFXRAM_SIZE,
                self.reg@ == r0,
                self.decomp_table@ == t0,
                dst + n <= GFXRAM_SIZE,
                src + n <= GFXRAM_SIZE,
                i <= n,
                tmp@ == g0.subrange(src as int, src + n),
                forall|j: int| 0 <= j < i ==> #[trigger] self.gfxram@[dst + j] == g0[src + j],
                forall|j: int|
                    0 <= j < g0.len() && !(dst <= j < dst + i) ==> self.gfxram@[j] == g0[j],
            decreases n - i,
        {
            let b = tmp[i];
            self.gfxram.set(dst + i, b);
            i = i + 1;
        }
        proof {
            let m = memmove_seq(g0, dst as int, src as int, n as int);
            assert forall|j: int| 0 <= j < g0.len() implies self.gfxram@[j] == m[j] by {
                if dst <= j < dst + n {
                    assert(self.gfxram@[dst + (j - dst)] == g0[src + (j - dst)]);
                }
            }
            assert(self.gfxram@ =~= m);
        }
    }

    /// Copy `count` bytes from one graphics RAM range to another.
    pub fn cmd_memcopy8(&mut self, stream: &mut ByteStream) -> (r: Result<
        DLDecoderResult,
        DLError,
    >)
        requires
            old(self)@.wf(),
            old(stream).wf(),
        ensures
            final(self)@.wf(),
            final(stream).wf(),
            final(stream)@.data == old(stream)@.data,
            step_matches(
                spec_memcpy(old(self)@, old(stream)@.data, old(stream)@.pos, false),
                final(self)@,
                final(stream)@.pos,
                r,
            ),
    {
        let dstaddr = match stream.read_u24_be() {
            Some(x) => x,
            None => {
                return Err(DLError::Truncated);
            },
        };
        let cnt = match stream.read_u8() {
            Some(x) => wrap256(x),
            None => {
                return Err(DLError::Truncated);
            },
        };
        let srcaddr = match stream.read_u24_be() {
            Some(x) => x,
            None => {
                return Err(DLError::Truncated);
            },
        };
        if dstaddr + cnt > GFXRAM_SIZE || srcaddr + cnt > GFXRAM_SIZE {
            return Err(DLError::RangeOverflow);
        }
        self.memmove(dstaddr, srcaddr, cnt);
        Ok(DLDecoderResult::Memcpy(dstaddr, cnt, false))
    }

    /// Copy `count` two-byte samples from one graphics RAM range to another.
    pub fn cmd_memcopy16(&mut self, stream: &mut ByteStream) -> (r: Result<
        DLDecoderResult,
        DLError,
    >)
        requires
            old(self)@.wf(),
            old(stream).wf(),
        ensures
            final(self)@.wf(),
            final(stream).wf(),
            final(stream)@.data == old(stream)@.data,
            step_matches(
                spec_memcpy(old(self)@, old(stream)@.data, old(stream)@.pos, true),
                final(self)@,
                final(stream)@.pos,
                r,
            ),
    {
        let dstaddr = match stream.read_u24_be() {
            Some(x) => x,
            None => {
                return Err(DLError::Truncated);
            },
        };
        let cnt = match stream.read_u8() {
            Some(x) => wrap256(x),
            None => {
                return Err(DLError::Truncated);
            },
        };
        let srcaddr = match stream.read_u24_be() {
            Some(x) => x,
            None => {
                return Err(DLError::Truncated);
            },
        };
        if dstaddr + cnt * 2 > GFXRAM_SIZE || srcaddr + cnt * 2 > GFXRAM_SIZE {
            return Err(DLError::RangeOverflow);
        }
        self.memmove(dstaddr, srcaddr, cnt * 2);
        Ok(DLDecoderResult::Memcpy(dstaddr, cnt, true))
    }

    /// Fill runs of single bytes until the declared total is spent.
    #[verifier::loop_isolation(false)]
    pub fn cmd_fill8(&mut self, stream: &mut ByteStream) -> (r: Result<DLDecoderResult, DLError>)
        requires
            old(self)@.wf(),
            old(stream).wf(),
        ensures
            final(self)@.wf(),
            final(stream).wf(),
            final(stream)@.data == old(stream)@.data,
            step_matches(
                spec_fill8(old(self)@, old(stream)@.data, old(stream)@.pos),
                final(self)@,
                final(stream)@.pos,
                r,
            ),
    {
        let ghost st0 = self@;
        let ghost data0 = stream@.data;
        let ghost pos0 = stream@.pos;
        let addr0 = match stream.read_u24_be() {
            Some(x) => x,
            None => {
                return Err(DLError::Truncated);
            },
        };
        let total0 = match stream.read_u8() {
            Some(x) => wrap256(x),
            None => {
                return Err(DLError::Truncated);
            },
        };
        let mut addr = addr0;
        let mut total = total0;
        while total > 0
            invariant
                self@.wf(),
                stream.wf(),
                stream@.data == data0,
                self@.reg == st0.reg,
                self@.table == st0.table,
                addr <= GFXRAM_SIZE,
                total <= 256,
                spec_fill8_loop(st0, data0, pos0 + 4, addr0 as int, total0 as int)
                    == spec_fill8_loop(self@, data0, stream@.pos, addr as int, total as int),
            decreases total,
        {
            let ghost st_pre = self@;
            let ghost pos_pre = stream@.pos;
            let c = match stream.read_u8() {
                Some(x) => wrap256(x),
                None => {
                    return Err(DLError::Truncated);
                },
            };
            let v = match stream.read_u8() {
                Some(x) => x,
                None => {
                    return Err(DLError::Truncated);
                },
            };
            if c > total {
                return Err(DLError::MalformedFill);
            }
            if addr + c > GFXRAM_SIZE {
                return Err(DLError::RangeOverflow);
            }
            let ghost g1 = self.gfxram@;
            let mut k: usize = 0;
            while k < c
                invariant
                    k <= c,
                    addr + c <= GFXRAM_SIZE,
                    self.gfxram@ == store_run(g1, addr as int, k as int, v),
                    self.reg@ == st_pre.reg,
                    self.decomp_table@ == st_pre.table,
                decreases c - k,
            {
                self.gfxram.set(addr + k, v);
                proof {
                    assert(self.gfxram@ =~= store_run(g1, addr as int, k + 1, v));
                }
                k = k + 1;
            }
            proof {
                let st_next = DLView {
                    gfxram: store_run(st_pre.gfxram, addr as int, c as int, v),
                    ..st_pre
                };
                assert(self@ == st_next);
                assert(spec_fill8_loop(st_pre, data0, pos_pre, addr as int, total as int)
                    == spec_fill8_loop(st_next, data0, pos_pre + 2, addr + c, total - c));
            }
            addr = addr + c;
            total = total - c;
        }
        Ok(DLDecoderResult::Fill(addr0, total0, false))
    }

    /// Fill runs of byte pairs until the declared total is spent; the
    /// byte read first lands at each odd offset.
    #[verifier::loop_isolation(false)]
    pub fn cmd_fill16(&mut self, stream: &mut ByteStream) -> (r: Result<DLDecoderResult, DLError>)
        requires
            old(self)@.wf(),
            old(stream).wf(),
        ensures
            final(self)@.wf(),
            final(stream).wf(),
            final(stream)@.data == old(stream)@.data,
            step_matches(
                spec_fill16(old(self)@, old(stream)@.data, old(stream)@.pos),
                final(self)@,
                final(stream)@.pos,
                r,
            ),
    {
        let ghost st0 = self@;
        let ghost data0 = stream@.data;
        let ghost pos0 = stream@.pos;
        let addr0 = match stream.read_u24_be() {
            Some(x) => x,
            None => {
                return Err(DLError::Truncated);
            },
        };
        let total0 = match stream.read_u8() {
            Some(x) => wrap256(x),
            None => {
                return Err(DLError::Truncated);
            },
        };
        let mut addr = addr0;
        let mut total = total0;
        while total > 0
            invariant
                self@.wf(),
                stream.wf(),
                stream@.data == data0,
                self@.reg == st0.reg,
                self@.table == st0.table,
                addr <= GFXRAM_SIZE,
                total <= 256,
                spec_fill16_loop(st0, data0, pos0 + 4, addr0 as int, total0 as int)
                    == spec_fill16_loop(self@, data0, stream@.pos, addr as int, total as int),
            decreases total,
        {
            let ghost st_pre = self@;
            let ghost pos_pre = stream@.pos;
            let c = match stream.read_u8() {
                Some(x) => wrap256(x),
                None => {
                    return Err(DLError::Truncated);
                },
            };
            let v0 = match stream.read_u8() {
                Some(x) => x,
                None => {
                    return Err(DLError::Truncated);
                },
            };
            let v1 = match stream.read_u8() {
                Some(x) => x,
                None => {
                    return Err(DLError::Truncated);
                },
            };
            if c > total {
                return Err(DLError::MalformedFill);
            }
            if addr + 2 * c > GFXRAM_SIZE {
                return Err(DLError::RangeOverflow);
            }
            let ghost g1 = self.gfxram@;
            let mut k: usize = 0;
            while k < c
                invariant
                    k <= c,
                    addr + 2 * c <= GFXRAM_SIZE,
                    self.gfxram@ == store_run16(g1, addr as int, k as int, v0, v1),
                    self.reg@ == st_pre.reg,
                    self.decomp_table@ == st_pre.table,
                decreases c - k,
            {
                self.gfxram.set(addr + 2 * k, v1);
                self.gfxram.set(addr + 2 * k + 1, v0);
                proof {
                    let s2 = store_run16(g1, addr as int, k + 1, v0, v1);
                    assert forall|j: int| 0 <= j < g1.len() implies self.gfxram@[j] == s2[j] by {
                        if addr <= j < addr + 2 * (k + 1) {
                            assert((j - addr) % 2 == 0 || (j - addr) % 2 == 1);
                        }
                    }
                    assert(self.gfxram@ =~= s2);
                }
                k = k + 1;
            }
            proof {
                let st_next = DLView {
                    gfxram: store_run16(st_pre.gfxram, addr as int, c as int, v0, v1),
                    ..st_pre
                };
                assert(self@ == st_next);
                assert(spec_fill16_loop(st_pre, data0, pos_pre, addr as int, total as int)
                    == spec_fill16_loop(st_next, data0, pos_pre + 3, addr + 2 * c, total - c));
            }
            addr = addr + 2 * c;
            total = total - c;
        }
        Ok(DLDecoderResult::Fill(addr0, total0, true))
    }

    /// Replace the first `count` rows of the decompression table with the
    /// packed rows that follow the count on the wire.
    #[verifier::loop_isolation(false)]
    pub fn cmd_load_decomp(&mut self, stream: &mut ByteStream) -> (r: Result<
        DLDecoderResult,
        DLError,
    >)
        requires
            old(self)@.wf(),
            old(stream).wf(),
        ensures
            final(self)@.wf(),
            final(stream).wf(),
            final(stream)@.data == old(stream)@.data,
            step_matches(
                spec_load(old(self)@, old(stream)@.data, old(stream)@.pos),
                final(self)@,
                final(stream)@.pos,
                r,
            ),
    {
        let ghost st0 = self@;
        let ghost data0 = stream@.data;
        let ghost pos0 = stream@.pos;
        if !stream.skip(4) {
            return Err(DLError::Truncated);
        }
        let cnt32 = match stream.read_u32_be() {
            Some(x) => x,
            None => {
                return Err(DLError::Truncated);
            },
        };
        if cnt32 > TABLE_ROWS as u32 {
            return Err(DLError::TableOverflow);
        }
        let cnt = cnt32 as usize;
        let mut i: usize = 0;
        while i < cnt
            invariant
                self@.wf(),
                stream.wf(),
                stream@.data == data0,
                self@.gfxram == st0.gfxram,
                self@.reg == st0.reg,
                i <= cnt,
                cnt <= TABLE_ROWS,
                spec_load_loop(st0, data0, pos0 + 8, 0, cnt as int) == spec_load_loop(
                    self@,
                    data0,
                    stream@.pos,
                    i as int,
                    cnt as int,
                ),
            decreases cnt - i,
        {
            let ghost st_pre = self@;
            let ghost pos_pre = stream@.pos;
            let row = match stream.read_exact(9) {
                Some(x) => x,
                None => {
                    return Err(DLError::Truncated);
                },
            };
            let nodes = DecompNode::read_from(row.as_slice());
            self.decomp_table.set(2 * i, nodes[0]);
            self.decomp_table.set(2 * i + 1, nodes[1]);
            proof {
                let rowseq = data0.subrange(pos_pre, pos_pre + 9);
                let st_next = DLView {
                    table: st_pre.table.update(2 * i, unpack_entry_a(rowseq)).update(
                        2 * i + 1,
                        unpack_entry_b(rowseq),
                    ),
                    ..st_pre
                };
                assert(self@ == st_next);
                assert(spec_load_loop(st_pre, data0, pos_pre, i as int, cnt as int)
                    == spec_load_loop(st_next, data0, pos_pre + 9, i + 1, cnt as int));
            }
            i = i + 1;
        }
        Ok(DLDecoderResult::Noop)
    }

    /// Decode one sample from the bit stream: starting at row `start`,
    /// follow one table branch per bit until an entry with `next == 0`,
    /// folding each entry's color into the accumulator (low byte only in
    /// the narrow mode). Returns the new accumulator and bit-reader state.
    #[verifier::loop_isolation(false)]
    #[verifier::rlimit(50)]
    #[verifier::spinoff_prover]
    fn walk_sample(
        &self,
        stream: &mut ByteStream,
        bitcnt0: u8,
        bytebuf0: u8,
        acc0: u16,
        start: usize,
        wide: bool,
    ) -> (r: Result<(u16, u8, u8), DLError>)
        requires
            self@.wf(),
            old(stream).wf(),
            bitcnt0 <= 8,
            start < TABLE_ROWS,
            !wide ==> acc0 < 0x100,
        ensures
            final(stream).wf(),
            final(stream)@.data == old(stream)@.data,
            ({
                let w = spec_walk(
                    self@.table,
                    old(stream)@.data,
                    BitSt { pos: old(stream)@.pos, bitcnt: bitcnt0 as int, buf: bytebuf0 },
                    start as int,
                    acc0,
                    wide,
                );
                match r {
                    Ok((acc2, bc2, bb2)) => w == (WalkOut::Done {
                        acc: acc2,
                        bit: BitSt { pos: final(stream)@.pos, bitcnt: bc2 as int, buf: bb2 },
                    }) && bc2 <= 8 && (!wide ==> acc2 < 0x100),
                    Err(e) => w == (WalkOut::Fail { kind: e }),
                }
            }),
    {
        let ghost data0 = stream@.data;
        let ghost bit_s = BitSt { pos: stream@.pos, bitcnt: bitcnt0 as int, buf: bytebuf0 };
        let mut bitcnt = bitcnt0;
        let mut bytebuf = bytebuf0;
        let mut acc = acc0;
        let mut tableidx = start;
        let mut done = false;
        while !done
            invariant
                self@.wf(),
                stream.wf(),
                stream@.data == data0,
                bitcnt <= 8,
                tableidx < TABLE_ROWS,
                !wide ==> acc < 0x100,
                !done ==> spec_walk(self@.table, data0, bit_s, start as int, acc0, wide)
                    == spec_walk(
                    self@.table,
                    data0,
                    BitSt { pos: stream@.pos, bitcnt: bitcnt as int, buf: bytebuf },
                    tableidx as int,
                    acc,
                    wide,
                ),
                done ==> spec_walk(self@.table, data0, bit_s, start as int, acc0, wide)
                    == (WalkOut::Done {
                    acc,
                    bit: BitSt { pos: stream@.pos, bitcnt: bitcnt as int, buf: bytebuf },
                }),
            decreases (data0.len() - stream@.pos) * 8 + 8 - bitcnt,
        {
            let ghost bit_pre = BitSt { pos: stream@.pos, bitcnt: bitcnt as int, buf: bytebuf };
            let ghost idx_pre = tableidx as int;
            let ghost acc_pre = acc;
            if bitcnt == 8 {
                bytebuf = match stream.read_u8() {
                    Some(b) => b,
                    None => {
                        proof {
                            lemma_walk_truncated(
                                self@.table,
                                data0,
                                bit_pre,
                                idx_pre,
                                acc_pre,
                                wide,
                            );
                        }
                        return Err(DLError::Truncated);
                    },
                };
                bitcnt = 0;
            }
            proof {
                let b = bytebuf;
                assert((b & 1) == b % 2 && (b & 1) <= 1) by (bit_vector);
                assert((b >> 1) == b / 2) by (bit_vector);
            }
            let k = (bytebuf & 1) as usize;
            let entry = self.decomp_table[2 * tableidx + k];
            proof {
                let c = entry.color;
                assert((c & 0xff) == c % 0x100 && (c & 0xff) <= 0xff) by (bit_vector);
            }
            bytebuf = bytebuf >> 1;
            bitcnt = bitcnt + 1;
            if wide {
                acc = acc.wrapping_add(entry.color);
            } else {
                let a8 = (acc as u8).wrapping_add((entry.color & 0xff) as u8);
                acc = a8 as u16;
            }
            tableidx = entry.next;
            if tableidx == 0 {
                done = true;
            }
            proof {
                lemma_walk_step(self@.table, data0, bit_pre, idx_pre, acc_pre, wide);
            }
        }
        Ok((acc, bitcnt, bytebuf))
    }

    /// Decompress `count` bytes: per sample, walk the table one bit at a
    /// time until a terminal entry, accumulate colors with 8-bit wrap, and
    /// write the running accumulator.
    #[verifier::loop_isolation(false)]
    #[verifier::rlimit(60)]
    pub fn cmd_decomp8(&mut self, stream: &mut ByteStream) -> (r: Result<DLDecoderResult, DLError>)
        requires
            old(self)@.wf(),
            old(stream).wf(),
        ensures
            final(self)@.wf(),
            final(stream).wf(),
            final(stream)@.data == old(stream)@.data,
            step_matches(
                spec_decomp(old(self)@, old(stream)@.data, old(stream)@.pos, false),
                final(self)@,
                final(stream)@.pos,
                r,
            ),
    {
        let ghost st0 = self@;
        let ghost data0 = stream@.data;
        let ghost pos0 = stream@.pos;
        let addr = match stream.read_u24_be() {
            Some(x) => x,
            None => {
                return Err(DLError::Truncated);
            },
        };
        let cnt = match stream.read_u8() {
            Some(x) => wrap256(x),
            None => {
                return Err(DLError::Truncated);
            },
        };
        if addr + cnt > GFXRAM_SIZE {
            return Err(DLError::RangeOverflow);
        }
        let ghost bit0 = BitSt { pos: pos0 + 4, bitcnt: 8, buf: 0 };
        let mut accumulator: u8 = 0;
        let mut bitcnt: u8 = 8;
        let mut bytebuf: u8 = 0;
        let mut i: usize = 0;
        while i < cnt
            invariant
                self@.wf(),
                stream.wf(),
                stream@.data == data0,
                self@.reg == st0.reg,
                self@.table == st0.table,
                addr + cnt <= GFXRAM_SIZE,
                i <= cnt,
                bitcnt <= 8,
                spec_decomp_loop(st0, data0, bit0, addr as int, cnt as int, 0, 0, false)
                    == spec_decomp_loop(
                    self@,
                    data0,
                    BitSt { pos: stream@.pos, bitcnt: bitcnt as int, buf: bytebuf },
                    addr as int,
                    cnt as int,
                    i as int,
                    accumulator as u16,
                    false,
                ),
            decreases cnt - i,
        {
            let ghost st_s = self@;
            let ghost bit_s = BitSt { pos: stream@.pos, bitcnt: bitcnt as int, buf: bytebuf };
            let ghost acc_s = accumulator as u16;
            let (acc2, bc2, bb2) = match self.walk_sample(
                stream,
                bitcnt,
                bytebuf,
                accumulator as u16,
                0,
                false,
            ) {
                Ok(t) => t,
                Err(e) => {
                    return Err(e);
                },
            };
            accumulator = acc2 as u8;
            bitcnt = bc2;
            bytebuf = bb2;
            self.gfxram.set(addr + i, accumulator);
            proof {
                let bit_now = BitSt { pos: stream@.pos, bitcnt: bitcnt as int, buf: bytebuf };
                let st_next = DLView {
                    gfxram: st_s.gfxram.update(addr + i, accumulator),
                    ..st_s
                };
                assert(self@ == st_next);
                assert(spec_decomp_loop(
                    st_s,
                    data0,
                    bit_s,
                    addr as int,
                    cnt as int,
                    i as int,
                    acc_s,
                    false,
                ) == spec_decomp_loop(
                    st_next,
                    data0,
                    bit_now,
                    addr as int,
                    cnt as int,
                    i + 1,
                    accumulator as u16,
                    false,
                ));
            }
            i = i + 1;
        }
        Ok(DLDecoderResult::Decomp(addr, cnt, false))
    }

    /// Decompress `count` 16-bit samples: the walk starts at row 8, colors
    /// accumulate with 16-bit wrap, and each sample is written low byte
    /// first.
    #[verifier::loop_isolation(false)]
    #[verifier::rlimit(60)]
    pub fn cmd_decomp16(&mut self, stream: &mut ByteStream) -> (r: Result<
        DLDecoderResult,
        DLError,
    >)
        requires
            old(self)@.wf(),
            old(stream).wf(),
        ensures
            final(self)@.wf(),
            final(stream).wf(),
            final(stream)@.data == old(stream)@.data,
            step_matches(
                spec_decomp(old(self)@, old(stream)@.data, old(stream)@.pos, true),
                final(self)@,
                final(stream)@.pos,
                r,
            ),
    {
        let ghost st0 = self@;
        let ghost data0 = stream@.data;
        let ghost pos0 = stream@.pos;
        let addr = match stream.read_u24_be() {
            Some(x) => x,
            None => {
                return Err(DLError::Truncated);
            },
        };
        let cnt = match stream.read_u8() {
            Some(x) => wrap256(x),
            None => {
                return Err(DLError::Truncated);
            },
        };
        if addr + cnt * 2 > GFXRAM_SIZE {
            return Err(DLError::RangeOverflow);
        }
        let ghost bit0 = BitSt { pos: pos0 + 4, bitcnt: 8, buf: 0 };
        let mut accumulator: u16 = 0;
        let mut bitcnt: u8 = 8;
        let mut bytebuf: u8 = 0;
        let mut i: usize = 0;
        while i < cnt
            invariant
                self@.wf(),
                stream.wf(),
                stream@.data == data0,
                self@.reg == st0.reg,
                self@.table == st0.table,
                addr + 2 * cnt <= GFXRAM_SIZE,
                i <= cnt,
                bitcnt <= 8,
                spec_decomp_loop(st0, data0, bit0, addr as int, cnt as int, 0, 0, true)
                    == spec_decomp_loop(
                    self@,
                    data0,
                    BitSt { pos: stream@.pos, bitcnt: bitcnt as int, buf: bytebuf },
                    addr as int,
                    cnt as int,
                    i as int,
                    accumulator,
                    true,
                ),
            decreases cnt - i,
        {
            let ghost st_s = self@;
            let ghost bit_s = BitSt { pos: stream@.pos, bitcnt: bitcnt as int, buf: bytebuf };
            let ghost acc_s = accumulator;
            let (acc2, bc2, bb2) = match self.walk_sample(
                stream,
                bitcnt,
                bytebuf,
                accumulator,
                8,
                true,
            ) {
                Ok(t) => t,
                Err(e) => {
                    return Err(e);
                },
            };
            accumulator = acc2;
            bitcnt = bc2;
            bytebuf = bb2;
            proof {
                let a = accumulator;
                assert((a & 0xff) == a % 0x100 && (a >> 8) == a / 0x100) by (bit_vector);
            }
            self.gfxram.set(addr + 2 * i, (accumulator & 0xff) as u8);
            self.gfxram.set(addr + 2 * i + 1, (accumulator >> 8) as u8);
            proof {
                let bit_now = BitSt { pos: stream@.pos, bitcnt: bitcnt as int, buf: bytebuf };
                let st_next = DLView {
                    gfxram: st_s.gfxram.update(addr + 2 * i, (acc2 % 0x100) as u8).update(
                        addr + 2 * i + 1,
                        (acc2 / 0x100) as u8,
                    ),
                    ..st_s
                };
                assert(self@ == st_next);
                assert(spec_decomp_loop(
                    st_s,
                    data0,
                    bit_s,
                    addr as int,
                    cnt as int,
                    i as int,
                    acc_s,
                    true,
                ) == spec_decomp_loop(
                    st_next,
                    data0,
                    bit_now,
                    addr as int,
                    cnt as int,
                    i + 1,
                    accumulator,
                    true,
                ));
            }
            i = i + 1;
        }
        Ok(DLDecoderResult::Decomp(addr, cnt, true))
    }

    /// Decode one command: scan for the sync byte, read the opcode and run
    /// its handler. `Ok(None)` is the clean end of the stream, reached
    /// only while scanning for sync.
    #[verifier::loop_isolation(false)]
    pub fn parse_cmd(&mut self, stream: &mut ByteStream) -> (r: Result<
        Option<DLDecoderResult>,
        DLError,
    >)
        requires
            old(self)@.wf(),
            old(stream).wf(),
        ensures
            final(self)@.wf(),
            final(stream).wf(),
            final(stream)@.data == old(stream)@.data,
            ({
                let step = spec_parse_cmd(old(self)@, old(stream)@.data, old(stream)@.pos);
                match step {
                    SpecStep::Stop => r == Ok::<Option<DLDecoderResult>, DLError>(
                        None::<DLDecoderResult>,
                    ) && final(self)@ == old(self)@ && final(stream)@.pos
                        == old(stream)@.data.len(),
                    SpecStep::Cmd { st, pos, ev } => r == Ok::<Option<DLDecoderResult>, DLError>(
                        Some(ev),
                    ) && final(self)@ == st && final(stream)@.pos == pos,
                    SpecStep::Fail { st, kind } => r == Err::<Option<DLDecoderResult>, DLError>(
                        kind,
                    ) && final(self)@ == st,
                }
            }),
    {
        let ghost data0 = stream@.data;
        let ghost pos0 = stream@.pos;
        let ghost s0 = spec_sync_pos(data0, pos0);
        let mut synced = false;
        while !synced
            invariant
                stream.wf(),
                stream@.data == data0,
                pos0 <= stream@.pos,
                !synced ==> spec_sync_pos(data0, stream@.pos) == s0,
                synced ==> s0 < data0.len() && stream@.pos == s0 + 1,
            decreases data0.len() - stream@.pos + (if synced {
                0int
            } else {
                1int
            }),
        {
            let ghost p = stream@.pos;
            match stream.read_u8() {
                None => {
                    return Ok(None);
                },
                Some(b) => {
                    if b == 0xaf {
                        synced = true;
                    } else {
                        proof {
                            assert(spec_sync_pos(data0, p) == spec_sync_pos(data0, p + 1));
                        }
                    }
                },
            }
        }
        let op = match stream.read_u8() {
            Some(x) => x,
            None => {
                return Err(DLError::Truncated);
            },
        };
        let res = match op {
            0x20 => self.cmd_setreg(stream),
            0x61 => self.cmd_fill8(stream),
            0x62 => self.cmd_memcopy8(stream),
            0x69 => self.cmd_fill16(stream),
            0x6a => self.cmd_memcopy16(stream),
            0x70 => self.cmd_decomp8(stream),
            0x78 => self.cmd_decomp16(stream),
            0xe0 => self.cmd_load_decomp(stream),
            0xa0 => Ok(DLDecoderResult::Noop),
            _ => Err(DLError::BadOpcode),
        };
        match res {
            Ok(ev) => Ok(Some(ev)),
            Err(e) => Err(e),
        }
    }
}

} // verus!
