use chipasm::loader::extract_label;
use chipasm::loader::format_line;
use chipasm::loader::without_comments;
use chipasm::loader::Scanner;
use chipasm::units::AsmEnum;

fn scan_all(lines: &[&str]) -> Vec<AsmEnum> {
    let mut scanner = Scanner::new(lines.iter().map(|l| l.to_string()).collect());
    let mut units = Vec::new();
    while let Some(line) = scanner.next_formatted() {
        units.push(scanner.consume(line).unwrap());
    }
    units
}

#[test]
fn comments_are_stripped() {
    assert_eq!(without_comments("LD V0, 2 ; load".to_string()), "LD V0, 2 ");
    assert_eq!(without_comments("; whole line".to_string()), "");
    assert_eq!(without_comments("no comment".to_string()), "no comment");
}

#[test]
fn format_line_trims_and_drops_blanks() {
    assert_eq!(format_line("  LD V0, 2  ".to_string()).unwrap(), "LD V0, 2");
    assert_eq!(format_line("  CLS ; tail".to_string()).unwrap(), "CLS");
    assert!(format_line("   ".to_string()).is_none());
    assert!(format_line(" ; only a comment".to_string()).is_none());
}

#[test]
fn labels_are_extracted_with_remainder() {
    let (lab, rem) = extract_label("loop: CLS".to_string()).unwrap();
    assert_eq!(lab, ":loop");
    assert_eq!(rem.unwrap(), "CLS");

    let (lab, rem) = extract_label("alone:".to_string()).unwrap();
    assert_eq!(lab, ":alone");
    assert!(rem.is_none());

    assert!(extract_label("no marker".to_string()).is_none());
}

#[test]
fn quoted_marker_is_not_a_label() {
    assert!(extract_label("text \"a:b\"".to_string()).is_none());
}

#[test]
fn scanner_splits_label_lines() {
    let units = scan_all(&["start: CLS", "RET"]);
    assert_eq!(units.len(), 3);
    match &units[0] {
        AsmEnum::Label(l) => assert_eq!(l.name, "start"),
        _ => panic!("expected a label first"),
    }
    match &units[1] {
        AsmEnum::Instruction(i) => assert_eq!(i.mnemonic, "CLS"),
        _ => panic!("expected the instruction after the label"),
    }
}

#[test]
fn scanner_joins_trailing_comma_lines() {
    let units = scan_all(&["db 1, 2,", "3, 4"]);
    assert_eq!(units.len(), 1);
    match &units[0] {
        AsmEnum::Directive(d) => {
            assert_eq!(d.mnemonic, "db");
            assert_eq!(d.args, vec!["1", "2", "3", "4"]);
        },
        _ => panic!("expected one joined directive"),
    }
}

#[test]
fn scanner_joins_bare_data_token() {
    let units = scan_all(&["db", "1, 2"]);
    assert_eq!(units.len(), 1);
    match &units[0] {
        AsmEnum::Directive(d) => assert_eq!(d.args, vec!["1", "2"]),
        _ => panic!("expected one joined directive"),
    }
}

#[test]
fn blank_line_stops_continuation() {
    let units = scan_all(&["db 1,", "", "2"]);
    assert_eq!(units.len(), 2);
    match &units[0] {
        AsmEnum::Directive(d) => assert_eq!(d.args, vec!["1", ""]),
        _ => panic!("expected the data directive first"),
    }
}

#[test]
fn dispatch_recognizes_each_kind() {
    let units = scan_all(&["define K 9", "dw 0x1234", "text \"s\"", "offset 2", "ADD V0, 1"]);
    assert!(matches!(units[0], AsmEnum::Define(_)));
    assert!(matches!(units[1], AsmEnum::Directive(_)));
    assert!(matches!(units[2], AsmEnum::Directive(_)));
    assert!(matches!(units[3], AsmEnum::Directive(_)));
    assert!(matches!(units[4], AsmEnum::Instruction(_)));
}

#[test]
fn quoted_arguments_keep_separators() {
    let units = scan_all(&["text \"a, b\""]);
    match &units[0] {
        AsmEnum::Directive(d) => assert_eq!(d.args, vec!["a, b"]),
        _ => panic!("expected the text directive"),
    }
}

#[test]
fn short_define_is_an_error() {
    let mut scanner = Scanner::new(vec!["define X".to_string()]);
    let line = scanner.next_formatted().unwrap();
    assert!(scanner.consume(line).is_err());
}

#[test]
fn label_remainder_can_hold_another_label() {
    let units = scan_all(&["a: b: CLS"]);
    assert_eq!(units.len(), 3);
    assert!(matches!(units[0], AsmEnum::Label(_)));
    assert!(matches!(units[1], AsmEnum::Label(_)));
    assert!(matches!(units[2], AsmEnum::Instruction(_)));
}

#[test]
fn whole_program_assembles() {
    let units = scan_all(&[
        "; a tiny program",
        "define SPRITE 0x204",
        "start:",
        "  JP end   ; skip the data",
        "  db 1, 2,",
        "     3",
        "end: RET",
    ]);
    let mut program = chipasm::assembly::Assembly::new(units, 0x200).unwrap();
    let bytes = program.to_bytes().unwrap();
    assert_eq!(bytes, vec![0x12, 0x05, 0x01, 0x02, 0x03, 0x00, 0xEE]);
}
