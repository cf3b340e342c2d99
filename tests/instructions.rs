use gecko_codes::assembler::instruction_to_code;
use gecko_codes::code_text::parse_code_text;
use gecko_codes::ppc::{
    code_to_instruction, disassemble, encode_instruction, Instruction, Mnemonic, Operand,
};

#[test]
fn assemble_load_with_displacement() {
    assert_eq!(instruction_to_code("lwz r3, 0x4(r3)"), Some(0x80630004));
}

#[test]
fn disassemble_load_with_displacement() {
    let ins = disassemble(0x80630004).expect("known word");
    assert_eq!(ins.mnemonic, Mnemonic::Lwz);
    assert_eq!(ins.mnemonic.name(), "lwz");
    assert_eq!(
        ins.operands,
        vec![Operand::Register(3), Operand::Immediate(4), Operand::Register(3)]
    );
    assert_eq!(code_to_instruction(0x80630004), "lwz r3, 0x4(r3)");
}

#[test]
fn unknown_mnemonic_fails() {
    assert_eq!(instruction_to_code("frobnicate r3, r4"), None);
    assert_eq!(instruction_to_code(""), None);
}

#[test]
fn operand_count_mismatch_fails() {
    assert_eq!(instruction_to_code("lwz r3"), None);
    assert_eq!(instruction_to_code("addi r3, r4"), None);
    assert_eq!(instruction_to_code("blr r3"), None);
    assert_eq!(instruction_to_code("li r3, 1, 2"), None);
}

#[test]
fn bad_operands_fail() {
    assert_eq!(instruction_to_code("li r32, 1"), None);
    assert_eq!(instruction_to_code("li r3, 0x10000"), None);
    assert_eq!(instruction_to_code("li r3, -0x8001"), None);
    assert_eq!(instruction_to_code("li r3, r4"), None);
    assert_eq!(instruction_to_code("lwz r3, 4(x)"), None);
    assert_eq!(instruction_to_code("lwz r3, 4(r3"), None);
    assert_eq!(instruction_to_code("li r3, banana"), None);
}

#[test]
fn negative_displacement_round_trips() {
    assert_eq!(instruction_to_code("stwu r1, -0x20(r1)"), Some(0x9421FFE0));
    assert_eq!(code_to_instruction(0x9421FFE0), "stwu r1, -0x20(r1)");
    assert_eq!(instruction_to_code("addi r1, r1, -32"), Some(0x3821FFE0));
    assert_eq!(code_to_instruction(0x3821FFE0), "addi r1, r1, -0x20");
}

#[test]
fn floating_point_registers() {
    assert_eq!(instruction_to_code("lfs f1, 0x8(r3)"), Some(0xC0230008));
    assert_eq!(code_to_instruction(0xC0230008), "lfs f1, 0x8(r3)");
}

#[test]
fn words_without_operands() {
    assert_eq!(instruction_to_code("blr"), Some(0x4E800020));
    assert_eq!(instruction_to_code("nop"), Some(0x60000000));
    assert_eq!(code_to_instruction(0x4E800020), "blr");
    assert_eq!(code_to_instruction(0x60000000), "nop");
    assert_eq!(code_to_instruction(0x4E800421), "bctrl");
}

#[test]
fn simplified_mnemonics() {
    assert_eq!(instruction_to_code("li r3, 1"), Some(0x38600001));
    assert_eq!(code_to_instruction(0x38600001), "li r3, 0x1");
    assert_eq!(instruction_to_code("lis r4, 0x8000"), Some(0x3C808000));
    assert_eq!(code_to_instruction(0x3C808000), "lis r4, -0x8000");
    assert_eq!(instruction_to_code("mr r31, r3"), Some(0x7C7F1B78));
    assert_eq!(code_to_instruction(0x7C7F1B78), "mr r31, r3");
    assert_eq!(instruction_to_code("mflr r0"), Some(0x7C0802A6));
    assert_eq!(code_to_instruction(0x7C0802A6), "mflr r0");
}

#[test]
fn logical_and_compare_immediates() {
    assert_eq!(instruction_to_code("ori r3, r3, 0x1234"), Some(0x60631234));
    assert_eq!(code_to_instruction(0x60631234), "ori r3, r3, 0x1234");
    assert_eq!(instruction_to_code("cmpwi r3, 0"), Some(0x2C030000));
    assert_eq!(code_to_instruction(0x2C030000), "cmpwi r3, 0x0");
    assert_eq!(code_to_instruction(0x2C83FFFF), ".long 0x2C83FFFF");
}

#[test]
fn unknown_word_is_shown_as_data() {
    assert_eq!(code_to_instruction(0xFFFFFFFF), ".long 0xFFFFFFFF");
    assert!(disassemble(0xFFFFFFFF).is_none());
}

#[test]
fn structural_round_trip() {
    for word in [0x80630004u32, 0x9421FFE0, 0x7C7F1B78, 0x7C0803A6, 0x38600001, 0x60631234, 0x4E800020] {
        let ins = disassemble(word).expect("known word");
        assert_eq!(encode_instruction(&ins), Some(word));
        assert_eq!(instruction_to_code(&code_to_instruction(word)), Some(word));
    }
}

#[test]
fn encode_checks_operand_kinds() {
    let ins = Instruction {
        mnemonic: Mnemonic::Lwz,
        operands: vec![Operand::Register(3), Operand::Register(4), Operand::Register(3)],
    };
    assert_eq!(encode_instruction(&ins), None);
}

#[test]
fn code_text_parses_hex_words() {
    assert_eq!(
        parse_code_text("04001040 00000001\r\nC6000100 80001234\n"),
        Some(vec![0x04001040, 0x00000001, 0xC6000100, 0x80001234])
    );
    assert_eq!(parse_code_text("0400104G"), None);
    assert_eq!(parse_code_text("100000000"), None);
    assert_eq!(parse_code_text(""), Some(vec![]));
}
