use chipasm::operand::Operand;

#[test]
fn numeric_hex_prefixed() {
    assert_eq!(Operand::parse_numeric_str("0x1F".to_string()).unwrap(), 31);
    assert_eq!(Operand::parse_numeric_str("0x0".to_string()).unwrap(), 0);
    assert_eq!(Operand::parse_numeric_str("0xFFFF".to_string()).unwrap(), 0xFFFF);
}

#[test]
fn numeric_hash_prefixed() {
    assert_eq!(Operand::parse_numeric_str("#FF".to_string()).unwrap(), 255);
    assert_eq!(Operand::parse_numeric_str("#1a".to_string()).unwrap(), 26);
}

#[test]
fn numeric_binary() {
    assert_eq!(Operand::parse_numeric_str("%1010".to_string()).unwrap(), 10);
    assert_eq!(Operand::parse_numeric_str("%0".to_string()).unwrap(), 0);
}

#[test]
fn numeric_char_literal() {
    assert_eq!(Operand::parse_numeric_str("'A'".to_string()).unwrap(), 65);
    assert_eq!(Operand::parse_numeric_str("'0'".to_string()).unwrap(), 48);
}

#[test]
fn numeric_decimal() {
    assert_eq!(Operand::parse_numeric_str("12".to_string()).unwrap(), 12);
    assert_eq!(Operand::parse_numeric_str("+12".to_string()).unwrap(), 12);
    assert_eq!(Operand::parse_numeric_str("65535".to_string()).unwrap(), 65535);
}

#[test]
fn numeric_repeated_hex_marks() {
    assert_eq!(Operand::parse_numeric_str("0x0x10".to_string()).unwrap(), 16);
}

#[test]
fn numeric_invalid() {
    assert!(Operand::parse_numeric_str("xyz".to_string()).is_err());
    assert!(Operand::parse_numeric_str("".to_string()).is_err());
    assert!(Operand::parse_numeric_str("65536".to_string()).is_err());
    assert!(Operand::parse_numeric_str("0xFFFFF".to_string()).is_err());
    assert!(Operand::parse_numeric_str("%2".to_string()).is_err());
    assert!(Operand::parse_numeric_str("12a".to_string()).is_err());
}

#[test]
fn register_all_sixteen() {
    for i in 0..16u16 {
        let upper = format!("V{:X}", i);
        let lower = format!("v{:x}", i);
        assert_eq!(Operand::parse_register_str(upper).unwrap(), i);
        assert_eq!(Operand::parse_register_str(lower).unwrap(), i);
    }
}

#[test]
fn register_out_of_range() {
    assert!(Operand::parse_register_str("V10".to_string()).is_err());
    assert!(Operand::parse_register_str("VFF".to_string()).is_err());
}

#[test]
fn register_unparsable() {
    assert!(Operand::parse_register_str("VG".to_string()).is_err());
    assert!(Operand::parse_register_str("V".to_string()).is_err());
}

#[test]
fn is_register_is_syntactic() {
    assert!(Operand::new("V1".to_string()).is_register());
    assert!(Operand::new("v1".to_string()).is_register());
    assert!(Operand::new("VG".to_string()).is_register());
    assert!(!Operand::new("12".to_string()).is_register());
    assert!(!Operand::new("".to_string()).is_register());
}

#[test]
fn parse_dispatches() {
    assert_eq!(Operand::new("V2".to_string()).parse().unwrap(), 2);
    assert_eq!(Operand::new("0x10".to_string()).parse().unwrap(), 16);
    assert_eq!(Operand::new("7".to_string()).parse().unwrap(), 7);
    assert!(Operand::new("V10".to_string()).parse().is_err());
}
