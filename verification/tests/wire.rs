use vmm_core::numparse::parse_radix;
use vmm_core::text::{append, chars_of, lit, push_decimal, push_hex, push_hex_padded, str_eq};
use vmm_core::wire::{number, put_bytes, put_u64, take, Reader};

#[test]
fn u64_and_byte_fields_round_trip() {
    let mut out = Vec::new();
    put_u64(&mut out, 0x1122_3344_5566_7788);
    put_bytes(&mut out, b"abc");
    out.push(7);
    assert_eq!(&out[..8], &[0x88, 0x77, 0x66, 0x55, 0x44, 0x33, 0x22, 0x11]);
    assert_eq!(&out[8..16], &3u64.to_le_bytes());
    let mut r = Reader::new(&out);
    assert_eq!(r.u64(), Ok(0x1122_3344_5566_7788));
    assert_eq!(r.bytes(16), Ok(b"abc".to_vec()));
    assert!(!r.empty());
    assert_eq!(r.byte(), Ok(7));
    assert!(r.empty());
    assert_eq!(r.byte(), Err("truncated exec state"));
}

#[test]
fn reader_refuses_oversized_and_truncated_fields() {
    let mut out = Vec::new();
    put_bytes(&mut out, b"abcdef");
    let mut r = Reader::new(&out);
    assert_eq!(r.bytes(5), Err("exec field exceeds bound"));
    let mut r = Reader::new(&out[..10]);
    assert_eq!(r.bytes(16), Err("truncated exec state"));
    let mut r = Reader::new(&out[..7]);
    assert_eq!(r.u64(), Err("truncated exec state"));
    assert_eq!(r.take(7), Ok(&out[..7]));
    assert_eq!(r.take(1), Err("truncated exec state"));
    let huge = u64::MAX.to_le_bytes();
    let mut r = Reader::new(&huge);
    assert!(r.bytes(usize::MAX).is_err());
}

#[test]
fn control_state_take_and_number() {
    let bytes = [1u8, 0, 0, 0, 0, 0, 0, 0, 9, 9];
    let mut input: &[u8] = &bytes;
    assert_eq!(number(&mut input), Ok(1));
    assert_eq!(input, &[9, 9]);
    assert_eq!(take(&mut input, 3), Err("truncated control state"));
    assert_eq!(input, &[9, 9]);
    assert_eq!(take(&mut input, 2), Ok(&[9u8, 9][..]));
    assert!(input.is_empty());
    assert_eq!(number(&mut input), Err("truncated control state"));
}

#[test]
fn text_renderings() {
    let mut v = Vec::new();
    push_decimal(&mut v, 0);
    v.push(b' ');
    push_decimal(&mut v, u128::MAX);
    v.push(b' ');
    push_hex(&mut v, 0xbeef);
    v.push(b' ');
    push_hex_padded(&mut v, 0xf, 4);
    v.push(b' ');
    push_hex_padded(&mut v, 0x12345, 2);
    append(&mut v, b"!");
    assert_eq!(
        String::from_utf8(v).unwrap(),
        "0 340282366920938463463374607431768211455 beef 000f 12345!"
    );
    assert_eq!(lit("abc"), "abc".to_string());
    assert!(str_eq("SHA", "SHA"));
    assert!(!str_eq("SHA", "SHA1"));
    assert_eq!(chars_of("aé"), vec!['a', 'é']);
}

#[test]
fn radix_parsing_matches_from_str_radix() {
    let c: Vec<char> = "x+ff9".chars().collect();
    assert_eq!(parse_radix(&c, 1, 4, 16), Some(0xff));
    assert_eq!(parse_radix(&c, 1, 5, 16), Some(0xff9));
    assert_eq!(parse_radix(&c, 4, 5, 10), Some(9));
    assert_eq!(parse_radix(&c, 2, 4, 10), None);
    assert_eq!(parse_radix(&c, 1, 2, 10), None);
    assert_eq!(parse_radix(&c, 3, 3, 10), None);
    for s in ["0", "18446744073709551615", "18446744073709551616", "+1", "1_0", "ABC"] {
        let c: Vec<char> = s.chars().collect();
        assert_eq!(parse_radix(&c, 0, c.len(), 10), u64::from_str_radix(s, 10).ok(), "{s}");
        assert_eq!(parse_radix(&c, 0, c.len(), 16), u64::from_str_radix(s, 16).ok(), "{s}");
    }
}
