use repc::string::to_binary_string;
use repc::string::Padding;

#[test]
fn string_test_padding() {
    assert_eq!(0b11u8.with_padding(to_binary_string, 8), "00000011");
}
