use dlemu::dldecoder::wrap256;
use dlemu::ByteStream;
use dlemu::DLDecoder;
use dlemu::DLDecoderResult;
use dlemu::DLError;
use dlemu::DecompNode;

fn feed(dec: &mut DLDecoder, bytes: Vec<u8>) -> Vec<Result<Option<DLDecoderResult>, DLError>> {
    let mut stream = ByteStream::new(bytes);
    let mut out = Vec::new();
    loop {
        let r = dec.parse_cmd(&mut stream);
        let stop = !matches!(r, Ok(Some(_)));
        out.push(r);
        if stop {
            return out;
        }
    }
}

/// The packed 9-byte row with the given entries and zero reserved bytes.
fn packed_row(color_a: u16, next_a: u16, color_b: u16, next_b: u16) -> [u8; 9] {
    [
        (color_a >> 8) as u8,
        (color_a & 0xff) as u8,
        0,
        (next_a >> 4) as u8,
        (((next_a & 0xf) << 4) | (next_b & 0xf)) as u8,
        (color_b >> 8) as u8,
        (color_b & 0xff) as u8,
        0,
        (next_b >> 4) as u8,
    ]
}

fn load_table_cmd(rows: &[[u8; 9]]) -> Vec<u8> {
    let mut v = vec![0xaf, 0xe0, 0, 0, 0, 0];
    v.extend_from_slice(&(rows.len() as u32).to_be_bytes());
    for r in rows {
        v.extend_from_slice(r);
    }
    v
}

#[test]
fn sync_resync() {
    let mut dec = DLDecoder::default();
    let mut stream = ByteStream::new(vec![0x00, 0x00, 0xaf, 0x20, 0x05, 0x2a]);
    let r = dec.parse_cmd(&mut stream);
    assert_eq!(r, Ok(Some(DLDecoderResult::Setreg(5, 0x2a))));
    assert_eq!(dec.get_reg(5), 0x2a);
    assert_eq!(dec.parse_cmd(&mut stream), Ok(None));
}

#[test]
fn clean_eof() {
    let mut dec = DLDecoder::default();
    let mut stream = ByteStream::new(vec![]);
    assert_eq!(dec.parse_cmd(&mut stream), Ok(None));
    let mut stream = ByteStream::new(vec![0x01, 0x02, 0x03]);
    assert_eq!(dec.parse_cmd(&mut stream), Ok(None));
}

#[test]
fn noop_opcode() {
    let mut dec = DLDecoder::default();
    let mut stream = ByteStream::new(vec![0xaf, 0xa0]);
    assert_eq!(dec.parse_cmd(&mut stream), Ok(Some(DLDecoderResult::Noop)));
}

#[test]
fn bad_opcode() {
    let mut dec = DLDecoder::default();
    let mut stream = ByteStream::new(vec![0xaf, 0x55]);
    assert_eq!(dec.parse_cmd(&mut stream), Err(DLError::BadOpcode));
}

#[test]
fn fill8_basic() {
    let mut dec = DLDecoder::default();
    let r = feed(&mut dec, vec![0xaf, 0x61, 0x00, 0x00, 0x10, 0x04, 0x04, 0xab]);
    assert_eq!(r[0], Ok(Some(DLDecoderResult::Fill(0x10, 4, false))));
    assert_eq!(dec.dumpbuffer(0x10, 4), vec![0xab, 0xab, 0xab, 0xab]);
    assert_eq!(dec.dumpbuffer(0x0f, 6), vec![0, 0xab, 0xab, 0xab, 0xab, 0]);
}

#[test]
fn fill8_truncated_total_256() {
    // A zero total byte means 256: one four-byte run leaves 252 to fill,
    // and the stream ends before the next run header.
    let mut dec = DLDecoder::default();
    let r = feed(&mut dec, vec![0xaf, 0x61, 0x00, 0x00, 0x10, 0x00, 0x04, 0xab]);
    assert_eq!(r[0], Err(DLError::Truncated));
    // The first run was already written when the stream ran dry.
    assert_eq!(dec.dumpbuffer(0x10, 4), vec![0xab, 0xab, 0xab, 0xab]);
}

#[test]
fn fill8_count_256_in_one_run() {
    let mut dec = DLDecoder::default();
    let r = feed(&mut dec, vec![0xaf, 0x61, 0x00, 0x00, 0x00, 0x00, 0x00, 0xaa]);
    assert_eq!(r[0], Ok(Some(DLDecoderResult::Fill(0, 256, false))));
    let dump = dec.dumpbuffer(0, 257);
    for i in 0..256 {
        assert_eq!(dump[i], 0xaa);
    }
    assert_eq!(dump[256], 0);
}

#[test]
fn fill8_malformed() {
    // Sub-count 5 overshoots the declared total of 2.
    let mut dec = DLDecoder::default();
    let r = feed(&mut dec, vec![0xaf, 0x61, 0x00, 0x00, 0x00, 0x02, 0x05, 0xaa]);
    assert_eq!(r[0], Err(DLError::MalformedFill));
}

#[test]
fn fill8_range_overflow() {
    // A run that would write past the top of the graphics RAM.
    let mut dec = DLDecoder::default();
    let r = feed(&mut dec, vec![0xaf, 0x61, 0xff, 0xff, 0xff, 0x02, 0x02, 0xaa]);
    assert_eq!(r[0], Err(DLError::RangeOverflow));
}

#[test]
fn fill16_byte_swap() {
    let mut dec = DLDecoder::default();
    let r = feed(&mut dec, vec![0xaf, 0x69, 0x00, 0x00, 0x00, 0x02, 0x02, 0x12, 0x34]);
    assert_eq!(r[0], Ok(Some(DLDecoderResult::Fill(0, 2, true))));
    assert_eq!(dec.dumpbuffer(0, 4), vec![0x34, 0x12, 0x34, 0x12]);
}

#[test]
fn memcpy8_overlap() {
    let mut dec = DLDecoder::default();
    // Prefill gfxram[0..4] with 1, 2, 3, 4, one fill command per byte.
    for (i, v) in [1u8, 2, 3, 4].iter().enumerate() {
        let r = feed(&mut dec, vec![0xaf, 0x61, 0x00, 0x00, i as u8, 0x01, 0x01, *v]);
        assert_eq!(
            r[0],
            Ok(Some(DLDecoderResult::Fill(i, 1, false))),
        );
    }
    // Copy 3 bytes from address 0 to address 2: memmove semantics.
    let r = feed(
        &mut dec,
        vec![0xaf, 0x62, 0x00, 0x00, 0x02, 0x03, 0x00, 0x00, 0x00],
    );
    assert_eq!(r[0], Ok(Some(DLDecoderResult::Memcpy(2, 3, false))));
    assert_eq!(dec.dumpbuffer(0, 5), vec![1, 2, 1, 2, 3]);
}

#[test]
fn memcpy16_doubles_count() {
    let mut dec = DLDecoder::default();
    let r = feed(&mut dec, vec![0xaf, 0x69, 0x00, 0x00, 0x00, 0x02, 0x02, 0x12, 0x34]);
    assert_eq!(r[0], Ok(Some(DLDecoderResult::Fill(0, 2, true))));
    // Copy 2 samples (4 bytes) from 0 to 0x100.
    let r = feed(
        &mut dec,
        vec![0xaf, 0x6a, 0x00, 0x01, 0x00, 0x02, 0x00, 0x00, 0x00],
    );
    assert_eq!(r[0], Ok(Some(DLDecoderResult::Memcpy(0x100, 2, true))));
    assert_eq!(dec.dumpbuffer(0x100, 4), vec![0x34, 0x12, 0x34, 0x12]);
}

#[test]
fn memcpy8_range_overflow() {
    let mut dec = DLDecoder::default();
    let r = feed(
        &mut dec,
        vec![0xaf, 0x62, 0xff, 0xff, 0xff, 0x02, 0x00, 0x00, 0x00],
    );
    assert_eq!(r[0], Err(DLError::RangeOverflow));
}

#[test]
fn setreg_then_get() {
    let mut dec = DLDecoder::default();
    let r = feed(&mut dec, vec![0xaf, 0x20, 0xff, 0xff]);
    assert_eq!(r[0], Ok(Some(DLDecoderResult::Setreg(0xff, 0xff))));
    assert_eq!(dec.get_reg(0xff), 0xff);
    assert_eq!(dec.get_reg(0x1f), 0);
}

#[test]
fn setreg_truncated() {
    let mut dec = DLDecoder::default();
    let r = feed(&mut dec, vec![0xaf, 0x20, 0x07]);
    assert_eq!(r[0], Err(DLError::Truncated));
}

#[test]
fn register_getters() {
    let mut dec = DLDecoder::default();
    let cmds = [
        (0x0fu8, 0x01u8),
        (0x10, 0x40),
        (0x17, 0x00),
        (0x18, 0xf0),
        (0x20, 0x12),
        (0x21, 0x34),
        (0x22, 0x56),
        (0x26, 0x00),
        (0x27, 0xab),
        (0x28, 0xcd),
    ];
    for (a, v) in cmds {
        let r = feed(&mut dec, vec![0xaf, 0x20, a, v]);
        assert_eq!(r[0], Ok(Some(DLDecoderResult::Setreg(a, v))));
    }
    assert_eq!(dec.get_width(), 0x0140);
    assert_eq!(dec.get_height(), 0x00f0);
    assert_eq!(dec.get_current_address_16(), 0x123456);
    assert_eq!(dec.get_current_address_8(), 0x00abcd);
}

#[test]
fn dumpreg_snapshot() {
    let mut dec = DLDecoder::default();
    feed(&mut dec, vec![0xaf, 0x20, 0x05, 0x77]);
    let regs = dec.dumpreg();
    assert_eq!(regs.len(), 256);
    assert_eq!(regs[5], 0x77);
    assert_eq!(regs[6], 0);
}

#[test]
fn state_sizes() {
    let mut dec = DLDecoder::default();
    assert_eq!(dec.dumpreg().len(), 256);
    assert_eq!(dec.dumpbuffer(0, 0x100_0000).len(), 0x100_0000);
    feed(&mut dec, vec![0xaf, 0x20, 0x00, 0x01]);
    assert_eq!(dec.dumpreg().len(), 256);
    assert_eq!(dec.dumpbuffer(0, 0x100_0000).len(), 0x100_0000);
}

#[test]
fn dumpbuffer_wraps_at_top() {
    let mut dec = DLDecoder::default();
    let r = feed(&mut dec, vec![0xaf, 0x61, 0xff, 0xff, 0xfe, 0x02, 0x02, 0x55]);
    assert_eq!(r[0], Ok(Some(DLDecoderResult::Fill(0xfffffe, 2, false))));
    let r = feed(&mut dec, vec![0xaf, 0x61, 0x00, 0x00, 0x00, 0x02, 0x02, 0x66]);
    assert_eq!(r[0], Ok(Some(DLDecoderResult::Fill(0, 2, false))));
    assert_eq!(dec.dumpbuffer(0xfffffe, 4), vec![0x55, 0x55, 0x66, 0x66]);
}

#[test]
fn load_table_overflow() {
    // 513 declared rows exceed the table.
    let mut dec = DLDecoder::default();
    let r = feed(&mut dec, vec![0xaf, 0xe0, 0, 0, 0, 0, 0x00, 0x00, 0x02, 0x01]);
    assert_eq!(r[0], Err(DLError::TableOverflow));
}

#[test]
fn load_table_truncated_row() {
    let mut dec = DLDecoder::default();
    let mut cmd = vec![0xaf, 0xe0, 0, 0, 0, 0, 0x00, 0x00, 0x00, 0x01];
    cmd.extend_from_slice(&[1, 2, 3, 4]);
    let r = feed(&mut dec, cmd);
    assert_eq!(r[0], Err(DLError::Truncated));
}

#[test]
fn packed_node_unpacking() {
    // Reserved bytes at offsets 2 and 7 are ignored.
    let buf = [0x12, 0x34, 0xff, 0x1f, 0xab, 0x56, 0x78, 0xee, 0x05];
    let nodes = DecompNode::read_from(&buf);
    assert_eq!(nodes[0].color, 0x1234);
    assert_eq!(nodes[0].next, 0x1fa);
    assert_eq!(nodes[1].color, 0x5678);
    assert_eq!(nodes[1].next, 0x05b);
}

#[test]
fn packed_node_roundtrip_values() {
    for (ca, na, cb, nb) in [(0u16, 0u16, 0u16, 0u16), (7, 0, 7, 0), (0xffff, 511, 0x8000, 256)] {
        let nodes = DecompNode::read_from(&packed_row(ca, na, cb, nb));
        assert_eq!((nodes[0].color, nodes[0].next), (ca, na as usize));
        assert_eq!((nodes[1].color, nodes[1].next), (cb, nb as usize));
    }
}

#[test]
fn decomp8_zero_table() {
    // The fresh table is all zero: every sample decodes to zero.
    let mut dec = DLDecoder::default();
    let r = feed(&mut dec, vec![0xaf, 0x70, 0x00, 0x00, 0x00, 0x04, 0x5a]);
    assert_eq!(r[0], Ok(Some(DLDecoderResult::Decomp(0, 4, false))));
    assert_eq!(dec.dumpbuffer(0, 4), vec![0, 0, 0, 0]);
}

#[test]
fn decomp8_trivial_table() {
    // Every row terminal with color 7: the accumulator is cumulative.
    let mut dec = DLDecoder::default();
    let rows = vec![packed_row(7, 0, 7, 0); 512];
    let r = feed(&mut dec, load_table_cmd(&rows));
    assert_eq!(r[0], Ok(Some(DLDecoderResult::Noop)));
    let r = feed(&mut dec, vec![0xaf, 0x70, 0x00, 0x00, 0x00, 0x03, 0xff]);
    assert_eq!(r[0], Ok(Some(DLDecoderResult::Decomp(0, 3, false))));
    assert_eq!(dec.dumpbuffer(0, 3), vec![7, 14, 21]);
}

#[test]
fn decomp8_unit_row_counts() {
    // Row 0 terminal with color 1: the samples are 1, 2, 3, ...
    let mut dec = DLDecoder::default();
    let r = feed(&mut dec, load_table_cmd(&[packed_row(1, 0, 1, 0)]));
    assert_eq!(r[0], Ok(Some(DLDecoderResult::Noop)));
    let r = feed(&mut dec, vec![0xaf, 0x70, 0x00, 0x00, 0x00, 0x05, 0x00]);
    assert_eq!(r[0], Ok(Some(DLDecoderResult::Decomp(0, 5, false))));
    assert_eq!(dec.dumpbuffer(0, 5), vec![1, 2, 3, 4, 5]);
}

#[test]
fn decomp8_two_step_walk() {
    // Row 0 chains to row 1; each sample takes two bits and adds 1 + 2.
    // Five samples need ten bits, spanning two input bytes.
    let mut dec = DLDecoder::default();
    let r = feed(
        &mut dec,
        load_table_cmd(&[packed_row(1, 1, 1, 1), packed_row(2, 0, 2, 0)]),
    );
    assert_eq!(r[0], Ok(Some(DLDecoderResult::Noop)));
    let r = feed(&mut dec, vec![0xaf, 0x70, 0x00, 0x00, 0x00, 0x05, 0x00, 0x00]);
    assert_eq!(r[0], Ok(Some(DLDecoderResult::Decomp(0, 5, false))));
    assert_eq!(dec.dumpbuffer(0, 5), vec![3, 6, 9, 12, 15]);
}

#[test]
fn decomp8_truncated_bits() {
    let mut dec = DLDecoder::default();
    let r = feed(&mut dec, vec![0xaf, 0x70, 0x00, 0x00, 0x00, 0x01]);
    assert_eq!(r[0], Err(DLError::Truncated));
}

#[test]
fn decomp16_reset_to_row_8() {
    // Row 8 is the start and reset row of the 16-bit mode; the
    // accumulator carries over between samples.
    let mut dec = DLDecoder::default();
    let mut rows = vec![packed_row(0, 0, 0, 0); 8];
    rows.push(packed_row(0x0102, 0, 0x0304, 0));
    let r = feed(&mut dec, load_table_cmd(&rows));
    assert_eq!(r[0], Ok(Some(DLDecoderResult::Noop)));
    // Bits LSB first from 0x02: bit 0 then bit 1.
    let r = feed(&mut dec, vec![0xaf, 0x78, 0x00, 0x00, 0x10, 0x02, 0x02]);
    assert_eq!(r[0], Ok(Some(DLDecoderResult::Decomp(0x10, 2, true))));
    assert_eq!(dec.dumpbuffer(0x10, 4), vec![0x02, 0x01, 0x06, 0x04]);
}

#[test]
fn decomp16_range_overflow() {
    let mut dec = DLDecoder::default();
    let r = feed(&mut dec, vec![0xaf, 0x78, 0xff, 0xff, 0xff, 0x01, 0x00]);
    assert_eq!(r[0], Err(DLError::RangeOverflow));
}

#[test]
fn wrap256_convention() {
    assert_eq!(wrap256(0), 256);
    assert_eq!(wrap256(1), 1);
    assert_eq!(wrap256(0xff), 255);
}

#[test]
fn fill16_malformed() {
    let mut dec = DLDecoder::default();
    let r = feed(
        &mut dec,
        vec![0xaf, 0x69, 0x00, 0x00, 0x00, 0x01, 0x02, 0xaa, 0xbb],
    );
    assert_eq!(r[0], Err(DLError::MalformedFill));
}

#[test]
fn fill16_range_overflow() {
    // Two samples starting two bytes below the top would write past it.
    let mut dec = DLDecoder::default();
    let r = feed(
        &mut dec,
        vec![0xaf, 0x69, 0xff, 0xff, 0xfe, 0x02, 0x02, 0xaa, 0xbb],
    );
    assert_eq!(r[0], Err(DLError::RangeOverflow));
}

#[test]
fn load_table_zero_rows() {
    let mut dec = DLDecoder::default();
    let r = feed(&mut dec, load_table_cmd(&[]));
    assert_eq!(r[0], Ok(Some(DLDecoderResult::Noop)));
    // The table is untouched: decompression still yields zeros.
    let r = feed(&mut dec, vec![0xaf, 0x70, 0x00, 0x00, 0x00, 0x02, 0x00]);
    assert_eq!(r[0], Ok(Some(DLDecoderResult::Decomp(0, 2, false))));
    assert_eq!(dec.dumpbuffer(0, 2), vec![0, 0]);
}

#[test]
fn load_table_truncated_header() {
    let mut dec = DLDecoder::default();
    let r = feed(&mut dec, vec![0xaf, 0xe0, 0, 0, 0, 0, 0x00]);
    assert_eq!(r[0], Err(DLError::Truncated));
}

#[test]
fn decomp16_truncated_bits() {
    // The second sample needs a ninth bit and the input has none.
    let mut dec = DLDecoder::default();
    let mut rows = vec![packed_row(0, 0, 0, 0); 8];
    rows.push(packed_row(5, 0, 5, 0));
    feed(&mut dec, load_table_cmd(&rows));
    // Nine samples, but a single input byte holds only eight bits.
    let r = feed(&mut dec, vec![0xaf, 0x78, 0x00, 0x00, 0x00, 0x09, 0x00]);
    assert_eq!(r[0], Err(DLError::Truncated));
    // The eight complete samples were already written.
    assert_eq!(dec.dumpbuffer(0, 2), vec![5, 0]);
}

#[test]
fn memcpy8_count_256() {
    let mut dec = DLDecoder::default();
    feed(&mut dec, vec![0xaf, 0x61, 0x00, 0x00, 0x00, 0x00, 0x00, 0x31]);
    let r = feed(
        &mut dec,
        vec![0xaf, 0x62, 0x00, 0x02, 0x00, 0x00, 0x00, 0x00, 0x00],
    );
    assert_eq!(r[0], Ok(Some(DLDecoderResult::Memcpy(0x200, 256, false))));
    let dump = dec.dumpbuffer(0x200, 256);
    assert!(dump.iter().all(|&b| b == 0x31));
}

#[test]
fn command_sequence_order() {
    // Effects of one command are visible to the next; events come in
    // stream order.
    let mut dec = DLDecoder::default();
    let mut bytes = vec![0xaf, 0x61, 0x00, 0x00, 0x00, 0x01, 0x01, 0x09];
    bytes.extend_from_slice(&[0xaf, 0x62, 0x00, 0x00, 0x01, 0x01, 0x00, 0x00, 0x00]);
    bytes.extend_from_slice(&[0xaf, 0x20, 0x01, 0x02]);
    let r = feed(&mut dec, bytes);
    assert_eq!(r[0], Ok(Some(DLDecoderResult::Fill(0, 1, false))));
    assert_eq!(r[1], Ok(Some(DLDecoderResult::Memcpy(1, 1, false))));
    assert_eq!(r[2], Ok(Some(DLDecoderResult::Setreg(1, 2))));
    assert_eq!(r[3], Ok(None));
    assert_eq!(dec.dumpbuffer(0, 2), vec![9, 9]);
}
