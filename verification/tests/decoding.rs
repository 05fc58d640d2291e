use repc::parser::decode;
use repc::parser::decode_bytes;
use repc::parser::u32_as_u8;
use repc::parser::utf8_to_unicode;

#[test]
fn main_test_u32_to_u8() {
    let unicode = 0b0000_0000_0000_0001_0000_0011_0100_1000;
    let binary = u32_as_u8(unicode);
    assert_eq!(
        &binary as &[u8],
        [0b0100_1000, 0b0000_0011, 0b0000_0001, 0b0000_0000]
    );
    let hex_utf8: u32 = 0xf0908d88;
    let bin_utf8 = u32_as_u8(hex_utf8);
    assert_eq!(
        &bin_utf8 as &[u8],
        [0b1000_1000, 0b1000_1101, 0b1001_0000, 0b1111_0000]
    )
}

#[test]
fn parser_test_u32_to_u8() {
    let unicode = 0b0000_0000_0000_0001_0000_0011_0100_1000;
    let binary = u32_as_u8(unicode);
    assert_eq!(
        &binary as &[u8],
        [0b0100_1000, 0b0000_0011, 0b0000_0001, 0b0000_0000]
    );
    let hex_utf8: u32 = 0xf0908d88;
    let bin_utf8 = u32_as_u8(hex_utf8);
    assert_eq!(
        &bin_utf8 as &[u8],
        [0b1000_1000, 0b1000_1101, 0b1001_0000, 0b1111_0000]
    )
}

#[test]
fn main_test_utf8_to_u8() {
    {
        let ch = "𐍈";
        let unicode = utf8_to_unicode(ch).unwrap().0;
        let binary = u32_as_u8(unicode);
        assert_eq!(
            &binary as &[u8],
            [0b0100_1000, 0b0000_0011, 0b0000_0001, 0b0000_0000]
        );
        assert_eq!(unicode, 0x10348);
    }
    {
        let ch = "€";
        let unicode = utf8_to_unicode(ch).unwrap().0;
        let binary = u32_as_u8(unicode);
        assert_eq!(
            &binary as &[u8],
            [0b1010_1100, 0b0010_0000, 0b0000_0000, 0b0000_0000]
        );
        assert_eq!(unicode, 0x20ac);
    }
    {
        let ch = "£";
        let unicode = utf8_to_unicode(ch).unwrap().0;
        let binary = u32_as_u8(unicode);
        assert_eq!(
            &binary as &[u8],
            [0b1010_0011, 0b0000_0000, 0b0000_0000, 0b0000_0000]
        );
        assert_eq!(unicode, 0x00a3);
    }
    {
        let ch = "$";
        let unicode = utf8_to_unicode(ch).unwrap().0;
        let binary = u32_as_u8(unicode);
        assert_eq!(
            &binary as &[u8],
            [0b010_0100, 0b0000_0000, 0b0000_0000, 0b0000_0000]
        );
        assert_eq!(unicode, 0x0024);
    }
}

#[test]
fn parser_test_utf8_to_u8() {
    {
        let ch = "𐍈";
        let unicode = utf8_to_unicode(ch).unwrap().0;
        let binary = u32_as_u8(unicode);
        assert_eq!(
            &binary as &[u8],
            [0b0100_1000, 0b0000_0011, 0b0000_0001, 0b0000_0000]
        );
        assert_eq!(unicode, 0x10348);
    }
    {
        let ch = "€";
        let unicode = utf8_to_unicode(ch).unwrap().0;
        let binary = u32_as_u8(unicode);
        assert_eq!(
            &binary as &[u8],
            [0b1010_1100, 0b0010_0000, 0b0000_0000, 0b0000_0000]
        );
        assert_eq!(unicode, 0x20ac);
    }
    {
        let ch = "£";
        let unicode = utf8_to_unicode(ch).unwrap().0;
        let binary = u32_as_u8(unicode);
        assert_eq!(
            &binary as &[u8],
            [0b1010_0011, 0b0000_0000, 0b0000_0000, 0b0000_0000]
        );
        assert_eq!(unicode, 0x00a3);
    }
    {
        let ch = "$";
        let unicode = utf8_to_unicode(ch).unwrap().0;
        let binary = u32_as_u8(unicode);
        assert_eq!(
            &binary as &[u8],
            [0b010_0100, 0b0000_0000, 0b0000_0000, 0b0000_0000]
        );
        assert_eq!(unicode, 0x0024);
    }
}

#[test]
fn one_byte_form_keeps_its_payload() {
    let (unicode, frags) = decode_bytes(&[0x24]).unwrap();
    assert_eq!(unicode, 0x0024);
    assert_eq!(&frags as &[u8], [0x24]);
}

#[test]
fn two_byte_form_strips_framing() {
    let (unicode, frags) = decode_bytes(&[0xC2, 0xA3]).unwrap();
    assert_eq!(unicode, 0x00A3);
    assert_eq!(&frags as &[u8], [0x02, 0x23]);
}

#[test]
fn three_byte_form_recovers_scalar() {
    let (unicode, frags) = decode_bytes(&[0xE2, 0x82, 0xAC]).unwrap();
    assert_eq!(unicode, 0x20AC);
    assert_eq!(&frags as &[u8], [0x02, 0x02, 0x2C]);
}

#[test]
fn four_byte_form_recovers_scalar() {
    let (unicode, frags) = decode_bytes(&[0xF0, 0x90, 0x8D, 0x88]).unwrap();
    assert_eq!(unicode, 0x10348);
    assert_eq!(&frags as &[u8], [0x00, 0x10, 0x0D, 0x08]);
}

#[test]
fn empty_input_is_rejected() {
    assert!(decode_bytes(&[]).is_err());
    assert!(utf8_to_unicode("").is_err());
    assert!(decode("").is_err());
}

#[test]
fn five_bytes_are_rejected() {
    assert!(decode_bytes(&[0x68, 0x65, 0x6C, 0x6C, 0x6F]).is_err());
    assert!(utf8_to_unicode("hello").is_err());
    assert!(decode("hello").is_err());
}

#[test]
fn decode_fills_every_field() {
    let rep = decode("£").unwrap();
    assert_eq!(rep.input, "£");
    assert_eq!(&rep.hu8 as &[u8], [0xC2, 0xA3]);
    assert_eq!(rep.unicode, 0x00A3);
    assert_eq!(&rep.utf8_frags as &[u8], [0x02, 0x23]);
}
