use chip8asm::assemble::{assemble, AsmError};

fn image(src: &str) -> Vec<u8> {
    match assemble(src) {
        Ok(b) => b,
        Err(e) => panic!("assembly failed: {:?}", e),
    }
}

#[test]
fn cls_at_origin() {
    assert_eq!(image("cls"), vec![0x00, 0xE0]);
}

#[test]
fn ret_and_sys() {
    assert_eq!(image("ret\nsys"), vec![0x00, 0xEE, 0x00, 0x00]);
}

#[test]
fn ld_register_immediate() {
    assert_eq!(image("ld v3, 0x45"), vec![0x63, 0x45]);
}

#[test]
fn add_register_register() {
    assert_eq!(image("add v2, v1"), vec![0x82, 0x14]);
}

#[test]
fn add_register_immediate() {
    assert_eq!(image("add va, 255"), vec![0x7A, 0xFF]);
}

#[test]
fn jmp_forward_label() {
    let src = "jmp target\ncls\ntarget: ret";
    assert_eq!(image(src), vec![0x12, 0x04, 0x00, 0xE0, 0x00, 0xEE]);
}

#[test]
fn forward_and_backward_labels_match_literal() {
    let forward = image("jmp here\ncls\nhere:\nret");
    let backward = image("cls\ncls\nhere: ret\njmp here");
    let literal = image("jmp 0x204\ncls\nret");
    assert_eq!(forward[0..2], literal[0..2]);
    assert_eq!(backward[6..8], vec![0x12, 0x04][..]);
    assert_eq!(forward[0..2], vec![0x12, 0x04][..]);
}

#[test]
fn same_source_same_image() {
    let src = "start: ld v0, 1\nadd v0, 2\nse v0, 3\njmp start\n@db 7, 8";
    assert_eq!(assemble(src), assemble(src));
    assert_eq!(image(src), image(src));
}

#[test]
fn org_moves_the_counter() {
    let out = image("@org 0x300\ncls");
    assert_eq!(out.len(), 0x102);
    assert_eq!(out[0x100], 0x00);
    assert_eq!(out[0x101], 0xE0);
    assert!(out[..0x100].iter().all(|b| *b == 0));
}

#[test]
fn db_odd_count_is_padded() {
    let out = image("@db 1, 2, 3\ncls");
    assert_eq!(out, vec![1, 2, 3, 0, 0x00, 0xE0]);
}

#[test]
fn db_even_count() {
    assert_eq!(image("@db 0xff, 0b101"), vec![0xFF, 0x05]);
}

#[test]
fn undefined_label_fails() {
    assert_eq!(assemble("jmp nowhere"), Err(AsmError::UnresolvedLabel { line: 1 }));
    assert_eq!(assemble("cls\ncall nowhere"), Err(AsmError::UnresolvedLabel { line: 2 }));
    assert_eq!(assemble("ld I, sprite"), Err(AsmError::UnresolvedLabel { line: 1 }));
}

#[test]
fn wrong_operand_shape_fails() {
    assert_eq!(assemble("ld v3, v16"), Err(AsmError::InvalidOperand { line: 1 }));
    assert_eq!(assemble("add 5, v1"), Err(AsmError::InvalidOperand { line: 1 }));
    assert_eq!(assemble("rnd v1, 256"), Err(AsmError::InvalidOperand { line: 1 }));
    assert_eq!(assemble("drw v1, v2, 16"), Err(AsmError::InvalidOperand { line: 1 }));
    assert_eq!(assemble("skp 3"), Err(AsmError::InvalidOperand { line: 1 }));
    assert_eq!(assemble("sub v1, 3"), Err(AsmError::InvalidOperand { line: 1 }));
    assert_eq!(assemble("jmp v1, 0x200"), Err(AsmError::InvalidOperand { line: 1 }));
    assert_eq!(assemble("jmp here, 0x200\nhere: cls"), Err(AsmError::InvalidOperand { line: 1 }));
    assert_eq!(assemble("jmp v0, here\nhere: cls"), Err(AsmError::InvalidOperand { line: 1 }));
}

#[test]
fn unknown_instruction_fails() {
    assert_eq!(assemble("cls\nnop"), Err(AsmError::UnknownInstruction { line: 2 }));
}

#[test]
fn unknown_directive_fails() {
    assert_eq!(assemble("@align 2"), Err(AsmError::UnknownDirective { line: 1 }));
}

#[test]
fn operand_count_fails() {
    assert_eq!(assemble("cls v1"), Err(AsmError::OperandCount { line: 1 }));
    assert_eq!(assemble("@org"), Err(AsmError::OperandCount { line: 1 }));
    assert_eq!(assemble("@db"), Err(AsmError::OperandCount { line: 1 }));
}

#[test]
fn missing_comma_fails() {
    assert_eq!(assemble("ld v1 v2"), Err(AsmError::MissingComma { line: 1 }));
}

#[test]
fn org_out_of_bounds_fails() {
    assert_eq!(assemble("@org 0x1000"), Err(AsmError::OriginOutOfBounds { line: 1 }));
    assert_eq!(assemble("@org 0x1000\ncls"), Err(AsmError::OriginOutOfBounds { line: 1 }));
}

#[test]
fn org_below_origin_is_accepted() {
    assert_eq!(image("@org 0x100"), Vec::<u8>::new());
    assert_eq!(image("@org 0x100\n@org 0x202\ncls"), vec![0x00, 0x00, 0x00, 0xE0]);
}

#[test]
fn code_below_origin_fails() {
    assert_eq!(assemble("@org 0x100\ncls"), Err(AsmError::BelowOrigin { line: 2 }));
    assert_eq!(assemble("@org 0x1fe\n@db 1"), Err(AsmError::BelowOrigin { line: 2 }));
}

#[test]
fn special_register_forms_without_opcode_fail() {
    assert_eq!(assemble("ld v1, I"), Err(AsmError::MalformedOperand { line: 1 }));
    assert_eq!(assemble("ld v1, st"), Err(AsmError::MalformedOperand { line: 1 }));
    assert_eq!(assemble("cls\nld key, v1"), Err(AsmError::MalformedOperand { line: 2 }));
    assert_eq!(assemble("ld dt, 5"), Err(AsmError::InvalidOperand { line: 1 }));
}

#[test]
fn malformed_address_literal_fails() {
    assert_eq!(assemble("jmp 0x1000"), Err(AsmError::MalformedLiteral { line: 1 }));
    assert_eq!(assemble("call 4096"), Err(AsmError::MalformedLiteral { line: 1 }));
}

#[test]
fn db_advances_by_even_count() {
    let out = image("@org 0x300\n@db 9\nret");
    assert_eq!(out.len(), 0x104);
    assert_eq!(out[0x100..], vec![9, 0, 0x00, 0xEE][..]);
}

#[test]
fn image_overflow_fails() {
    assert_eq!(assemble("@org 0xfff\ncls"), Err(AsmError::ImageOverflow { line: 2 }));
}

#[test]
fn comments_and_blank_lines() {
    assert_eq!(image("; a comment\n\n   \ncls\n"), vec![0x00, 0xE0]);
}

#[test]
fn empty_source_gives_empty_image() {
    assert_eq!(image(""), Vec::<u8>::new());
}

#[test]
fn crlf_line_endings() {
    assert_eq!(image("cls\r\nret\r\n"), vec![0x00, 0xE0, 0x00, 0xEE]);
}

#[test]
fn opcode_families() {
    let src = "se v1, 0x22\nse v1, v2\nsne v3, 4\nsne v3, v4\nskp v5\nsknp v6\n\
               or v1, v2\nand v1, v2\nxor v1, v2\nsub v1, v2\nshr v1, v2\nsubn v1, v2\nshl v1, v2\n\
               rnd v7, 0x0f\ndrw v1, v2, 5\ncall 0x345\njmp v0, 0x123\nld I, 0x456";
    let out = image(src);
    let words: Vec<u16> = out.chunks(2).map(|c| ((c[0] as u16) << 8) | c[1] as u16).collect();
    assert_eq!(
        words,
        vec![
            0x3122, 0x5120, 0x4304, 0x9340, 0xE59E, 0xE6A1, 0x8121, 0x8122, 0x8123, 0x8125,
            0x8126, 0x8127, 0x812E, 0xC70F, 0xD125, 0x2345, 0xB123, 0xA456,
        ]
    );
}

#[test]
fn timer_and_key_loads() {
    let out = image("ld v1, dt\nld v2, key\nld dt, v3\nld st, v4\nld v5, v6");
    assert_eq!(out, vec![0xF1, 0x07, 0xF2, 0x0A, 0xF3, 0x15, 0xF4, 0x18, 0x85, 0x60]);
}

#[test]
fn label_with_instruction_on_same_line() {
    let out = image("cls\nloop: jmp loop");
    assert_eq!(out, vec![0x00, 0xE0, 0x12, 0x02]);
}

#[test]
fn ld_index_with_label() {
    let out = image("ld I, data\n@db 0xaa, 0xbb\ndata:\n@db 1, 2");
    assert_eq!(out, vec![0xA2, 0x04, 0xAA, 0xBB, 1, 2]);
}

#[test]
fn label_before_directive_is_not_a_directive() {
    assert_eq!(assemble("data: @db 1, 2"), Err(AsmError::UnknownInstruction { line: 1 }));
}
