use server_program::frame::{branch_code, payload_text, trim_bounds, ByteClass};

#[test]
fn branch_code_is_second_field() {
    assert_eq!(branch_code(b"HEADER~BR01"), Some(b"BR01".to_vec()));
    assert_eq!(branch_code(b"X~BR02~ignored~more"), Some(b"BR02".to_vec()));
}

#[test]
fn branch_code_is_trimmed_of_ascii_whitespace() {
    assert_eq!(branch_code(b"H~ \tBR09\r\n"), Some(b"BR09".to_vec()));
    assert_eq!(branch_code(b"H~  ~x"), Some(Vec::new()));
}

#[test]
fn branch_code_needs_a_tilde() {
    assert_eq!(branch_code(b"BR03"), None);
    assert_eq!(branch_code(b""), None);
}

#[test]
fn branch_code_of_trailing_tilde_is_empty() {
    assert_eq!(branch_code(b"H~"), Some(Vec::new()));
    assert_eq!(branch_code(b"~~BR"), Some(Vec::new()));
}

#[test]
fn payload_text_strips_outer_tildes_only() {
    assert_eq!(payload_text(b"~~aGVs~bG8=~"), b"aGVs~bG8=".to_vec());
    assert_eq!(payload_text(b"aGVsbG8="), b"aGVsbG8=".to_vec());
    assert_eq!(payload_text(b"~~~"), Vec::<u8>::new());
}

#[test]
fn trim_bounds_of_whitespace() {
    assert_eq!(trim_bounds(b"  ab c ", ByteClass::AsciiWhitespace), (2, 6));
    assert_eq!(trim_bounds(b"   ", ByteClass::AsciiWhitespace), (3, 3));
}
