use chip8asm::isa::{
    expected_params_for_directive, instruction_is_valid, num_params_valid_for_instruction,
    param_valid_for_instruction, Instr, Mnemonic, SpecialRegister,
};
use chip8asm::lexer::{is_label, is_preprocessor, remove_prefix, remove_suffix};
use chip8asm::number::{immediate_is_valid, num_for_string};

#[test]
fn labels_and_directives() {
    assert!(is_label("loop:"));
    assert!(!is_label("@org:"));
    assert!(!is_label("loop"));
    assert!(is_preprocessor("@org"));
    assert!(!is_preprocessor("org"));
}

#[test]
fn prefixes_and_suffixes() {
    assert_eq!(remove_suffix("loop:", ":"), "loop");
    assert_eq!(remove_suffix("loop", ":"), "loop");
    assert_eq!(remove_prefix("@db", "@"), "db");
    assert_eq!(remove_prefix("db", "@"), "db");
}

#[test]
fn immediates() {
    assert!(immediate_is_valid("255", 0xff));
    assert!(!immediate_is_valid("256", 0xff));
    assert!(immediate_is_valid("0xfff", 0xfff));
    assert!(!immediate_is_valid("0x1000", 0xfff));
    assert!(immediate_is_valid("0b1111", 0xf));
    assert!(!immediate_is_valid("0b2", 0xf));
    assert!(!immediate_is_valid("", 0xff));
    assert!(!immediate_is_valid("label", 0xfff));
    assert!(immediate_is_valid("+7", 0xff));
    assert!(!immediate_is_valid("-7", 0xff));
    assert!(!immediate_is_valid("70000", 0xffff));
}

#[test]
fn numbers() {
    assert_eq!(num_for_string("0x45", false), 0x45);
    assert_eq!(num_for_string("0b101", false), 5);
    assert_eq!(num_for_string("42", false), 42);
    assert_eq!(num_for_string("a", true), 10);
    assert_eq!(num_for_string("0x0x5", false), 5);
}

#[test]
fn mnemonics_and_counts() {
    assert!(instruction_is_valid("drw"));
    assert!(instruction_is_valid("subn"));
    assert!(!instruction_is_valid("mov"));
    assert!(num_params_valid_for_instruction(0, "cls"));
    assert!(num_params_valid_for_instruction(2, "jmp"));
    assert!(!num_params_valid_for_instruction(3, "jmp"));
    assert!(num_params_valid_for_instruction(3, "drw"));
    assert!(!num_params_valid_for_instruction(1, "mov"));
    assert_eq!(expected_params_for_directive("org"), 1);
    assert_eq!(expected_params_for_directive("db"), 1);
    assert_eq!(expected_params_for_directive("align"), 0);
}

#[test]
fn operand_hints() {
    let mut i = Instr::new(Mnemonic::Jmp, 0x200, 1);
    assert!(param_valid_for_instruction("somewhere", 0, &mut i));
    assert!(i.refs_label);

    let mut i = Instr::new(Mnemonic::Ld, 0x200, 1);
    assert!(param_valid_for_instruction("dt", 0, &mut i));
    assert_eq!(i.special_register, SpecialRegister::DelayTimer);
    assert!(!i.special_register_src);
    assert!(!param_valid_for_instruction("st", 1, &mut i));

    let mut i = Instr::new(Mnemonic::Ld, 0x200, 1);
    assert!(param_valid_for_instruction("v1", 0, &mut i));
    assert!(param_valid_for_instruction("0x12", 1, &mut i));
    assert!(i.has_immediate);

    let mut i = Instr::new(Mnemonic::Jmp, 0x200, 1);
    assert!(!param_valid_for_instruction("0x1000", 1, &mut i));
    assert!(!param_valid_for_instruction("loop", 1, &mut i));
    assert!(param_valid_for_instruction("0xfff", 1, &mut i));
    assert!(i.has_immediate);
    assert!(!i.refs_label);

    for (token, kind) in [
        ("I", SpecialRegister::Index),
        ("dt", SpecialRegister::DelayTimer),
        ("st", SpecialRegister::SoundTimer),
        ("key", SpecialRegister::KeyWait),
    ] {
        let mut i = Instr::new(Mnemonic::Ld, 0x200, 1);
        assert!(param_valid_for_instruction(token, 0, &mut i));
        assert_eq!(i.special_register, kind);
        assert!(!i.special_register_src);

        let mut i = Instr::new(Mnemonic::Ld, 0x200, 1);
        assert!(param_valid_for_instruction("v2", 0, &mut i));
        assert!(param_valid_for_instruction(token, 1, &mut i));
        assert_eq!(i.special_register, kind);
        assert!(i.special_register_src);
    }

    let mut i = Instr::new(Mnemonic::Ld, 0x200, 1);
    assert!(param_valid_for_instruction("key", 0, &mut i));
    assert!(param_valid_for_instruction("v4", 1, &mut i));

    let mut i = Instr::new(Mnemonic::Se, 0x200, 1);
    assert!(!param_valid_for_instruction("vg", 0, &mut i));
    assert!(!param_valid_for_instruction("V1", 0, &mut i));
}

#[test]
fn literal_round_trip() {
    for v in [0u16, 1, 9, 10, 15, 16, 0x45, 255, 256, 0xfff, 0x1000, 0xffff] {
        assert_eq!(num_for_string(&format!("{}", v), false), v);
        assert_eq!(num_for_string(&format!("0x{:x}", v), false), v);
        assert_eq!(num_for_string(&format!("0b{:b}", v), false), v);
    }
}
