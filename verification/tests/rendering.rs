use repc::renderer::align_text_center;
use repc::renderer::align_text_left;
use repc::renderer::align_text_right;
use repc::renderer::colorize;
use repc::renderer::colorize_pairs;
use repc::renderer::render;
use repc::renderer::render_bcp;
use repc::renderer::render_bu8;
use repc::renderer::render_hu8;
use repc::renderer::split_utf8_unit;
use repc::renderer::TextRepresentation;

fn in_red(s: &str) -> String {
    format!("\u{1b}[0;91m{}\u{1b}[0m", s)
}

fn in_green(s: &str) -> String {
    format!("\u{1b}[0;92m{}\u{1b}[0m", s)
}

fn in_blue(s: &str) -> String {
    format!("\u{1b}[0;94m{}\u{1b}[0m", s)
}

fn in_white(s: &str) -> String {
    format!("\u{1b}[0;97m{}\u{1b}[0m", s)
}

fn in_purple(s: &str) -> String {
    format!("\u{1b}[0;95m{}\u{1b}[0m", s)
}

#[test]
fn colorize_cycles_and_reverses() {
    let joined = colorize(vec![String::from("lo"), String::from("hi")]);
    assert_eq!(joined, format!("{}{}", in_green("hi"), in_red("lo")));
}

#[test]
fn colorize_pairs_counts_colors_backwards() {
    let pairs = vec![
        (String::from("110"), String::from("00010")),
        (String::from("10"), String::from("100011")),
    ];
    let colored = colorize_pairs(pairs);
    assert_eq!(colored.len(), 2);
    assert_eq!(colored[0], format!("{}{}", in_white("110"), in_green("00010")));
    assert_eq!(colored[1], format!("{}{}", in_white("10"), in_red("100011")));
}

#[test]
fn split_two_byte_unit() {
    let pairs = split_utf8_unit(&[0x02, 0x23], 2);
    assert_eq!(pairs.len(), 2);
    assert_eq!(pairs[0], (String::from("110"), String::from("00010")));
    assert_eq!(pairs[1], (String::from("10"), String::from("100011")));
}

#[test]
fn split_one_byte_unit_has_no_marker() {
    let pairs = split_utf8_unit(&[0x24], 1);
    assert_eq!(pairs.len(), 1);
    assert_eq!(pairs[0], (String::from("0"), String::from("0100100")));
}

#[test]
fn hex_bytes_of_one_byte_form() {
    assert_eq!(render_hu8(&[0x24]), in_red("24"));
}

#[test]
fn hex_bytes_color_last_byte_first() {
    let expected = format!("{} {}", in_green("c2"), in_red("a3"));
    assert_eq!(render_hu8(&[0xC2, 0xA3]), expected);
}

#[test]
fn binary_bytes_of_one_byte_form() {
    let expected = format!("{}{}", in_white("0"), in_red("0100100"));
    assert_eq!(render_bu8(&[0x24], 1), expected);
}

#[test]
fn binary_bytes_of_two_byte_form() {
    let expected = format!(
        "{}{} {}{}",
        in_white("110"),
        in_green("00010"),
        in_white("10"),
        in_red("100011")
    );
    assert_eq!(render_bu8(&[0x02, 0x23], 2), expected);
}

#[test]
fn code_point_bits_of_one_byte_form() {
    let (text, width) = render_bcp(0x24, 1);
    assert_eq!(text, in_red("010 0100"));
    assert_eq!(width, 8);
}

#[test]
fn code_point_bits_of_two_byte_form() {
    let (text, width) = render_bcp(0xA3, 2);
    assert_eq!(text, format!("{}{}", in_green("000 10"), in_red("10 0011")));
    assert_eq!(width, 13);
}

#[test]
fn code_point_bits_of_three_byte_form() {
    let (text, width) = render_bcp(0x20AC, 3);
    let expected = format!(
        "{}{}{}",
        in_blue("0010"),
        in_green(" 0000 10"),
        in_red("10 1100")
    );
    assert_eq!(text, expected);
    assert_eq!(width, 19);
}

#[test]
fn code_point_bits_of_four_byte_form() {
    let (text, width) = render_bcp(0x10348, 4);
    let expected = format!(
        "{}{}{}{}",
        in_purple("0 00"),
        in_blue("01 0000"),
        in_green(" 0011 01"),
        in_red("00 1000")
    );
    assert_eq!(text, expected);
    assert_eq!(width, 26);
}

#[test]
fn hex_bytes_of_four_byte_form() {
    let expected = format!(
        "{} {} {} {}",
        in_purple("f0"),
        in_blue("90"),
        in_green("8d"),
        in_red("88")
    );
    assert_eq!(render_hu8(&[0xF0, 0x90, 0x8D, 0x88]), expected);
}

#[test]
fn binary_bytes_of_four_byte_form() {
    let expected = format!(
        "{}{} {}{} {}{} {}{}",
        in_white("11110"),
        in_purple("000"),
        in_white("10"),
        in_blue("010000"),
        in_white("10"),
        in_green("001101"),
        in_white("10"),
        in_red("001000")
    );
    assert_eq!(render_bu8(&[0x00, 0x10, 0x0D, 0x08], 4), expected);
}

#[test]
fn centering_splits_padding_evenly() {
    assert_eq!(align_text_center("ab", 5), (String::from(" ab  "), 5));
    assert_eq!(align_text_center("abc", 2), (String::from("abc"), 3));
    assert_eq!(align_text_center("ab", 4), (String::from(" ab "), 4));
}

#[test]
fn centering_is_idempotent_in_total_width() {
    let (once, span) = align_text_center("Hex UTF-8", 17);
    let (twice, span2) = align_text_center(once.as_str(), 17);
    assert_eq!(once, twice);
    assert_eq!(span, span2);
}

#[test]
fn left_and_right_alignment() {
    assert_eq!(align_text_left("ab", 4), (String::from("ab  "), 4));
    assert_eq!(align_text_right("ab", 4), (String::from("  ab"), 4));
    assert_eq!(align_text_left("abcde", 4), (String::from("abcde"), 5));
    assert_eq!(align_text_right("abcde", 4), (String::from("abcde"), 5));
}

#[test]
fn text_representation_widths_follow_length() {
    let rep = repc::parser::decode("€").unwrap();
    let t = TextRepresentation::from(&rep);
    assert_eq!(t.unicode, "U+20ac");
    assert_eq!(t.binary_utf8_length, 3 * 8 + 3 - 1);
    assert_eq!(t.hex_utf8_length, 3 * 3 - 1);
    assert_eq!(t.binary_code_point_length, 19);
}

#[test]
fn rendered_table_of_dollar() {
    let rep = repc::parser::decode("$").unwrap();
    let lines = render(&rep);
    assert_eq!(lines.len(), 3);
    assert_eq!(
        lines[0],
        " Character Binary code point Binary UTF-8 Hex UTF-8"
    );
    assert_eq!(lines[1], "-".repeat(57));
    let expected = format!(
        "|$| U+0024|{}|{}{}|{}|",
        in_red("010 0100"),
        in_white("0"),
        in_red("0100100"),
        in_red("24")
    );
    assert_eq!(lines[2], expected);
}

#[test]
fn display_row_of_pound() {
    let rep = repc::parser::decode("£").unwrap();
    let row = rep.display_row();
    let expected = format!(
        "│£│U+00a3│{}{}│{}{} {}{}│{} {}│\n",
        in_green("000 10"),
        in_red("10 0011"),
        in_white("110"),
        in_green("00010"),
        in_white("10"),
        in_red("100011"),
        in_green("c2"),
        in_red("a3")
    );
    assert_eq!(row, expected);
}
