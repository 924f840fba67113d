use chipasm::instructions::Opcode;
use chipasm::operand::Operand;
use chipasm::units::Instruction;

fn encode(mnemonic: &str, args: &[&str]) -> u16 {
    let inst = Instruction::new(
        mnemonic.to_string(),
        args.iter().map(|a| a.to_string()).collect(),
    );
    Opcode::from_instruction(inst).unwrap().to_bytes().unwrap()
}

fn encode_fails(mnemonic: &str, args: &[&str]) -> bool {
    let inst = Instruction::new(
        mnemonic.to_string(),
        args.iter().map(|a| a.to_string()).collect(),
    );
    match Opcode::from_instruction(inst) {
        None => true,
        Some(op) => op.to_bytes().is_err(),
    }
}

#[test]
fn encodes_system_ops() {
    assert_eq!(encode("CLS", &[]), 0x00E0);
    assert_eq!(encode("RET", &[]), 0x00EE);
    assert_eq!(encode("SYS", &["0x123"]), 0x0123);
    assert_eq!(encode("SCD", &["5"]), 0x00C5);
    assert_eq!(encode("SCR", &[]), 0x00FB);
    assert_eq!(encode("SCL", &[]), 0x00FC);
    assert_eq!(encode("EXIT", &[]), 0x00FD);
    assert_eq!(encode("LOW", &[]), 0x00FE);
    assert_eq!(encode("HIGH", &[]), 0x00FF);
}

#[test]
fn encodes_jumps_and_calls() {
    assert_eq!(encode("JP", &["0x204"]), 0x1204);
    assert_eq!(encode("JP", &["V0", "0x204"]), 0xB204);
    assert_eq!(encode("JP", &["v0", "0x204"]), 0xB204);
    assert_eq!(encode("CALL", &["0x345"]), 0x2345);
}

#[test]
fn encodes_skips() {
    assert_eq!(encode("SE", &["V1", "2"]), 0x3102);
    assert_eq!(encode("SE", &["V1", "V2"]), 0x5120);
    assert_eq!(encode("SNE", &["V1", "2"]), 0x4102);
    assert_eq!(encode("SNE", &["V1", "V2"]), 0x9120);
    assert_eq!(encode("SKP", &["V1"]), 0xE19E);
    assert_eq!(encode("SKNP", &["V1"]), 0xE1A1);
}

#[test]
fn encodes_arithmetic() {
    assert_eq!(encode("ADD", &["V1", "V2"]), 0x8124);
    assert_eq!(encode("ADD", &["V1", "5"]), 0x7105);
    assert_eq!(encode("ADD", &["I", "V3"]), 0xF31E);
    assert_eq!(encode("OR", &["V1", "V2"]), 0x8121);
    assert_eq!(encode("AND", &["V1", "V2"]), 0x8122);
    assert_eq!(encode("XOR", &["V1", "V2"]), 0x8123);
    assert_eq!(encode("SUB", &["V1", "V2"]), 0x8125);
    assert_eq!(encode("SUBN", &["V1", "V2"]), 0x8127);
    assert_eq!(encode("SHR", &["V1"]), 0x8106);
    assert_eq!(encode("SHR", &["V1", "V2"]), 0x8126);
    assert_eq!(encode("SHL", &["V1"]), 0x810E);
    assert_eq!(encode("SHL", &["V1", "V2"]), 0x812E);
}

#[test]
fn encodes_draw_and_random() {
    assert_eq!(encode("DRW", &["V1", "V2", "3"]), 0xD123);
    assert_eq!(encode("RND", &["V1", "0xFF"]), 0xC1FF);
}

#[test]
fn encodes_load_family() {
    assert_eq!(encode("LD", &["V1", "V2"]), 0x8120);
    assert_eq!(encode("LD", &["V1", "0xFF"]), 0x61FF);
    assert_eq!(encode("LD", &["I", "0x123"]), 0xA123);
    assert_eq!(encode("LD", &["V1", "DT"]), 0xF107);
    assert_eq!(encode("LD", &["DT", "V1"]), 0xF115);
    assert_eq!(encode("LD", &["ST", "V1"]), 0xF118);
    assert_eq!(encode("LD", &["V1", "K"]), 0xF10A);
    assert_eq!(encode("LD", &["F", "V1"]), 0xF129);
    assert_eq!(encode("LD", &["B", "V1"]), 0xF133);
    assert_eq!(encode("LD", &["[I]", "V1"]), 0xF155);
    assert_eq!(encode("LD", &["V1", "[I]"]), 0xF165);
    assert_eq!(encode("LD", &["HF", "V1"]), 0xF130);
    assert_eq!(encode("LD", &["R", "V1"]), 0xF175);
    assert_eq!(encode("LD", &["V1", "R"]), 0xF185);
    assert_eq!(encode("LD", &["V1", "V2", "I"]), 0x5121);
    assert_eq!(encode("LD", &["I", "V1", "V2"]), 0x5122);
}

#[test]
fn mnemonics_are_case_insensitive() {
    assert_eq!(encode("cls", &[]), 0x00E0);
    assert_eq!(encode("add", &["V1", "5"]), 0x7105);
    assert_eq!(encode("Ld", &["I", "0x123"]), 0xA123);
}

#[test]
fn unknown_mnemonic_is_rejected() {
    let inst = Instruction::new("FROB".to_string(), vec![]);
    assert!(Opcode::from_instruction(inst).is_none());
}

#[test]
fn bad_operands_are_rejected() {
    assert!(encode_fails("JP", &["xyz"]));
    assert!(encode_fails("LD", &["V1", "V20"]));
    assert!(encode_fails("ADD", &["V1"]));
    assert!(encode_fails("LD", &["V1", "V2", "Q"]));
}

#[test]
fn invalid_slot_combination_is_rejected() {
    let op = Opcode::new(0x1000)
        .set_nnn(Operand::new("0x123".to_string()))
        .set_vx(Operand::new("V1".to_string()));
    assert!(op.to_bytes().is_err());
}
