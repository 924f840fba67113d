use chipasm::assembly::Assembly;
use chipasm::units::Asm;
use chipasm::units::AsmEnum;
use chipasm::units::Define;
use chipasm::units::Directive;
use chipasm::units::Instruction;
use chipasm::units::Label;

fn instr(line: &str) -> AsmEnum {
    AsmEnum::Instruction(Instruction::from_line(line.to_string()))
}

fn label(line: &str) -> AsmEnum {
    AsmEnum::Label(Label::from_line(line.to_string()))
}

fn define(line: &str) -> AsmEnum {
    AsmEnum::Define(Define::from_line(line.to_string()))
}

fn directive(line: &str) -> AsmEnum {
    AsmEnum::Directive(Directive::from_line(line.to_string()))
}

#[test]
fn offsets_accumulate_unit_sizes() {
    let units = vec![
        instr("CLS"),
        instr("RET"),
        label("here:"),
        directive("db 1, 2, 3"),
        instr("CLS"),
    ];
    let program = Assembly::new(units, 0x200).unwrap();
    let offsets: Vec<usize> = program.instructions.iter().map(|p| p.1).collect();
    assert_eq!(offsets, vec![0x200, 0x202, 0x204, 0x204, 0x207]);
}

#[test]
fn label_offset_matches_running_sum() {
    // Two instructions, then the label, then a three-byte data directive.
    let units = vec![instr("CLS"), instr("RET"), label("spot:"), directive("db 1, 2, 3")];
    let program = Assembly::new(units, 0x200).unwrap();
    assert_eq!(program.instructions[2].1, 0x204);
}

#[test]
fn forward_label_resolves_to_exact_address() {
    let units = vec![instr("JP skip"), instr("CLS"), label("skip:"), instr("RET")];
    let mut program = Assembly::new(units, 0x200).unwrap();
    let bytes = program.to_bytes().unwrap();
    assert_eq!(bytes, vec![0x12, 0x04, 0x00, 0xE0, 0x00, 0xEE]);
}

#[test]
fn define_substitutes_operand_text() {
    let units = vec![define("define X 5"), instr("LD V0, X")];
    let mut program = Assembly::new(units, 0x200).unwrap();
    let bytes = program.to_bytes().unwrap();
    assert_eq!(bytes, vec![0x60, 0x05]);
}

#[test]
fn define_substitution_is_not_transitive() {
    let units = vec![define("define X 5"), define("define Y X"), instr("LD V0, Y")];
    let program = Assembly::new(units, 0x200).unwrap();
    match &program.instructions[2].0 {
        AsmEnum::Instruction(i) => assert_eq!(i.args[1].repr, "X"),
        _ => panic!("expected the instruction unit"),
    }
}

#[test]
fn define_substitutes_directive_arguments() {
    let units = vec![define("define N 3"), directive("offset N")];
    let mut program = Assembly::new(units, 0x200).unwrap();
    let bytes = program.to_bytes().unwrap();
    assert_eq!(bytes, vec![0, 0, 0]);
}

#[test]
fn db_emits_one_byte_per_argument() {
    let units = vec![directive("db 1, 2, 255")];
    let mut program = Assembly::new(units, 0).unwrap();
    assert_eq!(program.to_bytes().unwrap(), vec![0x01, 0x02, 0xFF]);
}

#[test]
fn dw_emits_big_endian_words() {
    let units = vec![directive("dw 0x1234")];
    let mut program = Assembly::new(units, 0).unwrap();
    assert_eq!(program.to_bytes().unwrap(), vec![0x12, 0x34]);
}

#[test]
fn text_emits_bytes_and_terminator() {
    let units = vec![directive("text \"hi\"")];
    let mut program = Assembly::new(units, 0).unwrap();
    assert_eq!(program.to_bytes().unwrap(), vec![b'h', b'i', 0x00]);
}

#[test]
fn offset_emits_zero_padding() {
    let units = vec![directive("offset 3")];
    let mut program = Assembly::new(units, 0).unwrap();
    assert_eq!(program.to_bytes().unwrap(), vec![0, 0, 0]);
}

#[test]
fn text_size_counts_terminator() {
    let units = vec![directive("text \"hi\""), label("after:")];
    let program = Assembly::new(units, 0).unwrap();
    assert_eq!(program.instructions[1].1, 3);
}

#[test]
fn unrecognized_mnemonic_is_fatal() {
    let units = vec![instr("FROB V1")];
    let mut program = Assembly::new(units, 0x200).unwrap();
    assert!(program.to_bytes().is_err());
}

#[test]
fn out_of_range_register_is_fatal() {
    let units = vec![instr("LD V0, V16")];
    let mut program = Assembly::new(units, 0x200).unwrap();
    assert!(program.to_bytes().is_err());
}

#[test]
fn unparsable_padding_count_is_rejected_at_construction() {
    let units = vec![directive("offset bogus")];
    assert!(Assembly::new(units, 0x200).is_err());
}

#[test]
fn base_offset_shifts_label_addresses() {
    let units = vec![instr("JP skip"), label("skip:"), instr("RET")];
    let mut program = Assembly::new(units, 0x400).unwrap();
    let bytes = program.to_bytes().unwrap();
    assert_eq!(bytes, vec![0x14, 0x02, 0x00, 0xEE]);
}

#[test]
fn byte_size_of_units() {
    assert_eq!(instr("CLS").get_byte_size(), 2);
    assert_eq!(instr("!marker").get_byte_size(), 0);
    assert_eq!(label("x:").get_byte_size(), 0);
    assert_eq!(define("define A 1").get_byte_size(), 0);
    assert_eq!(directive("db 1, 2").get_byte_size(), 2);
    assert_eq!(directive("dw 1, 2").get_byte_size(), 4);
    assert_eq!(directive("text \"abc\"").get_byte_size(), 4);
    assert_eq!(directive("offset 7").get_byte_size(), 7);
}
