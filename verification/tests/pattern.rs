use ozone::pattern::{
    apply_command, decode_add_imm, decode_adrp, decode_branch, decode_ldr_imm, PatternCommand,
    PatternCommandBuffer, SearchCursor, SignatureSearchError,
};

#[test]
fn find_inst() {
    let memory = &[0x69, 0x69, 0x69, 0x69, 0x69, 0x69, 0x69, 0x69, 0x69, 0x69, 0x42, 0x69, 0x69, 0x69, 0x69, 0x69, 0x69, 0x69, 0x69, 0x69, 0x69, 0x69, 0x69, 0x69];

    let offset = PatternCommandBuffer::new()
        .find_pattern("42 69")
        .search(memory)
        .ok()
        .unwrap();

    assert_eq!(offset, 0xA)
}

#[test]
fn adrp() {
    // adrp x9, #0x43c000
    let memory = [0xe9, 0x21, 0x00, 0x90];
    let offset = decode_adrp(u32::from_le_bytes(memory));

    assert_eq!(offset, 0x43c000)
}

#[test]
fn ldr_imm() {
    // ldr x20, [x20, #0x40]
    let memory = [0x94, 0x22, 0x40, 0xf9];
    let offset = decode_ldr_imm(u32::from_le_bytes(memory));

    assert_eq!(offset, 0x40)
}

#[test]
fn add_imm() {
    // ldr x20, [x20, #0x40]
    let memory = [0x29, 0x81, 0x2f, 0x91];
    let offset = decode_add_imm(u32::from_le_bytes(memory));

    assert_eq!(offset, 0xBE0)
}

#[test]
fn bl() {
    // bl #0xfffffffffffffa1c
    let memory = [0x87, 0xfe, 0xff, 0x97];
    let offset = decode_branch(u32::from_le_bytes(memory), 0x2cb314);

    // Jumping backwards
    assert_eq!(offset, 0x2cad30);
}

#[test]
fn adrp_negative_page_is_sign_extended() {
    // immlo = 0, immhi = 0x20000: immediate 0x80000, page offset 0x8000_0000, which is
    // negative as a 32-bit number
    let insn: u32 = 0x9000_0000 | (0x20000 << 5);
    assert_eq!(decode_adrp(insn), 0xFFFF_FFFF_8000_0000usize);
}

#[test]
fn ldr_scales_by_size() {
    // ldr w0, [x1, #8]: size 2, imm12 = 2
    assert_eq!(decode_ldr_imm(0xB940_0820), 8);
    // ldrb w0, [x1, #3]: size 0, imm12 = 3
    assert_eq!(decode_ldr_imm(0x3940_0C20), 3);
}

#[test]
fn branch_wraps_to_26_bits() {
    // b #0: target is the address itself, reduced modulo 2^26
    assert_eq!(decode_branch(0x1400_0000, 0x0400_0010), 0x10);
}

#[test]
fn search_reports_missing_signature() {
    let memory = [0u8; 8];
    let result = PatternCommandBuffer::new().find_pattern("12 34").search(&memory);
    assert!(matches!(result, Err(SignatureSearchError::NotFound)));
}

#[test]
fn search_uses_last_find() {
    let memory = [0xAAu8, 0xBB, 0xCC, 0xDD, 0xEE];
    let result = PatternCommandBuffer::new()
        .find_pattern("CC")
        .find_pattern("BB ?? DD")
        .search(&memory);
    assert!(matches!(result, Ok(1)));
}

#[test]
fn search_with_no_command_is_zero() {
    let result = PatternCommandBuffer::new().search(&[1, 2, 3]);
    assert!(matches!(result, Ok(0)));
}

#[test]
fn apply_adrp_then_add_then_ldr() {
    // adrp x9, #0x43c000 ; add x9, x9, #0xbe0 ; ldr x20, [x20, #0x40]
    let data = [0xe9, 0x21, 0x00, 0x90, 0x29, 0x81, 0x2f, 0x91, 0x94, 0x22, 0x40, 0xf9];
    let c0 = SearchCursor { position: 0, offset: 0 };
    let c1 = apply_command(&PatternCommand::DecodeAdrp, &data, c0, None).unwrap();
    assert_eq!(c1, SearchCursor { position: 4, offset: 0x43c000 });
    let c2 = apply_command(&PatternCommand::DecodeAdd, &data, c1, None).unwrap();
    assert_eq!(c2, SearchCursor { position: 8, offset: 0x43c000 + 0xBE0 });
    let c3 = apply_command(&PatternCommand::DecodeLdr, &data, c2, None).unwrap();
    assert_eq!(c3, SearchCursor { position: 12, offset: 0x43c000 + 0xBE0 + 0x40 });
    // nothing left to read
    assert_eq!(apply_command(&PatternCommand::DecodeLdr, &data, c3, None), None);
}

#[test]
fn apply_branch_moves_cursor() {
    // b #8 at offset 0: target 0 + 4 + 8
    let data = [0x02, 0x00, 0x00, 0x14];
    let c = apply_command(&PatternCommand::DecodeBranch, &data, SearchCursor { position: 0, offset: 7 }, None).unwrap();
    assert_eq!(c, SearchCursor { position: 12, offset: 12 });
}

#[test]
fn apply_offset_moves_both_ways() {
    let c = SearchCursor { position: 10, offset: 3 };
    assert_eq!(apply_command(&PatternCommand::Offset(6), &[], c, None), Some(SearchCursor { position: 16, offset: 3 }));
    assert_eq!(apply_command(&PatternCommand::Offset(u64::MAX), &[], c, None), Some(SearchCursor { position: 9, offset: 3 }));
    assert_eq!(apply_command(&PatternCommand::Offset(0u64.wrapping_sub(11)), &[], c, None), None);
}

#[test]
fn apply_find_takes_scanner_result() {
    let cmd = PatternCommand::FindInstruction { pattern: "00".to_string() };
    let c = SearchCursor { position: 5, offset: 1 };
    assert_eq!(apply_command(&cmd, &[], c, Some(42)), Some(SearchCursor { position: 5, offset: 42 }));
    assert_eq!(apply_command(&cmd, &[], c, None), None);
}

#[test]
fn negative_page_plus_offset_wraps() {
    // adrp x0, #-0x1000 ; add x0, x0, #0xfff ; add x0, x0, #0x10
    let adrp: u32 = 0x9000_0000 | (0x7FFFF << 5) | (0b11 << 29);
    let add_fff: u32 = 0x9100_0000 | (0xFFF << 10);
    let add_10: u32 = 0x9100_0000 | (0x10 << 10);
    let mut data = Vec::new();
    for insn in [adrp, add_fff, add_10] {
        data.extend_from_slice(&insn.to_le_bytes());
    }
    assert_eq!(decode_adrp(adrp), 0usize.wrapping_sub(0x1000));
    let c1 = apply_command(&PatternCommand::DecodeAdrp, &data, SearchCursor { position: 0, offset: 0 }, None).unwrap();
    assert_eq!(c1, SearchCursor { position: 4, offset: 0usize.wrapping_sub(0x1000) });
    let c2 = apply_command(&PatternCommand::DecodeAdd, &data, c1, None).unwrap();
    assert_eq!(c2, SearchCursor { position: 8, offset: 0usize.wrapping_sub(1) });
    // crossing zero wraps around
    let c3 = apply_command(&PatternCommand::DecodeAdd, &data, c2, None).unwrap();
    assert_eq!(c3, SearchCursor { position: 12, offset: 0xF });
}

#[test]
fn branch_near_the_top_of_the_address_space() {
    // b #0x10 at usize::MAX - 3: the sum leaves usize, the low 26 bits are kept
    let target = decode_branch(0x1400_0004, usize::MAX - 3);
    assert_eq!(target, (usize::MAX - 3).wrapping_add(0x10) & 0x3FF_FFFF);
}

#[test]
fn default_buffer_is_empty() {
    let result = PatternCommandBuffer::default().search(&[9, 9]);
    assert!(matches!(result, Ok(0)));
}

#[test]
fn search_finds_the_leftmost_occurrence() {
    let memory = [0x11u8, 0x42, 0x69, 0x00, 0x42, 0x69];
    let result = PatternCommandBuffer::new().find_pattern("42 69").search(&memory);
    assert!(matches!(result, Ok(1)));
    let result = PatternCommandBuffer::new().find_pattern("42 69").find_pattern("77").search(&memory);
    assert!(matches!(result, Err(SignatureSearchError::NotFound)));
}
