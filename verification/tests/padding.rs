use repc::parser::Padding;

#[test]
fn main_test_padding() {
    assert_eq!(0b11u8.with_padding(), "00000011");
}

#[test]
fn parser_test_padding() {
    assert_eq!(0b11u8.with_padding(), "00000011");
}

#[test]
fn padding_to_pads_hex() {
    assert_eq!(
        0xA3u8.with_padding_to(repc::parser::to_hexadecimal_string, 4),
        "00a3"
    );
}

#[test]
fn padding_keeps_wide_content() {
    assert_eq!(0xFFu8.with_padding_to(repc::string::to_binary_string, 4), "11111111");
}

#[test]
fn binary_strings_drop_leading_zeros() {
    assert_eq!(repc::string::to_binary_string(0), "0");
    assert_eq!(repc::string::to_binary_string(1), "1");
    assert_eq!(repc::string::to_binary_string(5), "101");
    assert_eq!(repc::string::to_binary_string(0xFF), "11111111");
}

#[test]
fn hexadecimal_strings_are_lower_case() {
    assert_eq!(repc::string::to_hexadecimal_string(0), "0");
    assert_eq!(repc::string::to_hexadecimal_string(0xA3), "a3");
    assert_eq!(repc::string::to_hexadecimal_string(0x20AC), "20ac");
    assert_eq!(repc::parser::to_hexadecimal_string(0x24), "24");
}
