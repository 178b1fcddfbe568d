use octo::accession::{
    b000_tail, cv_ref_from_code, is_attr_prefix, is_cv_prefix, is_cv_prefix_slice, make_accession,
    parse_acc_tail, parse_accession_tail_str, split_prefix, tail_slice, unit_cv_ref,
};
use octo::text::{
    ascii_text, bytes_eq, find_first, find_last, parse_scattered_u32, parse_u32, push_decimal,
    str_eq, text_from_utf8,
};

#[test]
fn text_from_bytes_accepts_utf8_only() {
    assert_eq!(text_from_utf8(vec![0x6d, 0x2f, 0x7a]), Some("m/z".to_string()));
    assert_eq!(text_from_utf8(vec![0xc3, 0xa9]), Some("é".to_string()));
    assert_eq!(text_from_utf8(Vec::new()), Some(String::new()));
    assert_eq!(text_from_utf8(vec![0xff, 0x41]), None);
    assert_eq!(text_from_utf8(vec![0xc3]), None);
}

#[test]
fn ascii_bytes_become_text() {
    assert_eq!(ascii_text(vec![77, 83]), "MS");
    assert_eq!(ascii_text(Vec::new()), "");
}

#[test]
fn byte_slices_compare_by_content() {
    assert!(bytes_eq(b"abc", b"abc"));
    assert!(!bytes_eq(b"abc", b"abd"));
    assert!(!bytes_eq(b"abc", b"ab"));
    assert!(bytes_eq(b"", b""));
    assert!(str_eq("MS", "MS"));
    assert!(!str_eq("MS", "UO"));
    assert!(!str_eq("MS", "MS "));
}

#[test]
fn first_and_last_separator_are_found() {
    assert_eq!(find_first(b"a:b:c", b':'), Some(1));
    assert_eq!(find_last(b"a:b:c", b':'), Some(3));
    assert_eq!(find_first(b"abc", b':'), None);
    assert_eq!(find_last(b"abc", b':'), None);
    assert_eq!(find_first(b"", b':'), None);
    assert_eq!(find_first(b":", b':'), Some(0));
    assert_eq!(find_last(b":", b':'), Some(0));
}

#[test]
fn decimals_are_padded_with_zeros() {
    let mut out = vec![b'x'];
    push_decimal(&mut out, 514, 7);
    assert_eq!(out, b"x0000514");
    let mut out = Vec::new();
    push_decimal(&mut out, 0, 1);
    assert_eq!(out, b"0");
    let mut out = Vec::new();
    push_decimal(&mut out, 12345678, 7);
    assert_eq!(out, b"12345678");
    let mut out = Vec::new();
    push_decimal(&mut out, u32::MAX, 0);
    assert_eq!(out, b"4294967295");
    let mut out = Vec::new();
    push_decimal(&mut out, 7, 16);
    assert_eq!(out, b"0000000000000007");
}

#[test]
fn strict_numbers_are_all_digits() {
    assert_eq!(parse_u32(b"0"), Some(0));
    assert_eq!(parse_u32(b"1000514"), Some(1000514));
    assert_eq!(parse_u32(b"+12"), Some(12));
    assert_eq!(parse_u32(b"0000012"), Some(12));
    assert_eq!(parse_u32(b"4294967295"), Some(u32::MAX));
    assert_eq!(parse_u32(b"4294967296"), None);
    assert_eq!(parse_u32(b"99999999999999999999"), None);
    assert_eq!(parse_u32(b""), None);
    assert_eq!(parse_u32(b"+"), None);
    assert_eq!(parse_u32(b"-1"), None);
    assert_eq!(parse_u32(b"12a"), None);
    assert_eq!(parse_u32(b" 12"), None);
    assert_eq!(parse_u32(b"C123"), None);
}

#[test]
fn lenient_numbers_skip_what_is_no_digit() {
    assert_eq!(parse_scattered_u32(b"C12345"), 12345);
    assert_eq!(parse_scattered_u32(b"1a2b3"), 123);
    assert_eq!(parse_scattered_u32(b"abc"), 0);
    assert_eq!(parse_scattered_u32(b""), 0);
    assert_eq!(parse_scattered_u32(b"4294967295"), u32::MAX);
    assert_eq!(parse_scattered_u32(b"4294967296"), 0);
    assert_eq!(parse_scattered_u32(b"0001000514"), 1000514);
}

#[test]
fn vocabulary_codes_name_their_prefixes() {
    assert_eq!(cv_ref_from_code(0), Some("MS"));
    assert_eq!(cv_ref_from_code(1), Some("UO"));
    assert_eq!(cv_ref_from_code(2), Some("NCIT"));
    assert_eq!(cv_ref_from_code(3), Some("PEFF"));
    assert_eq!(cv_ref_from_code(4), None);
    assert_eq!(cv_ref_from_code(0xff), None);
}

#[test]
fn four_prefixes_are_vocabularies() {
    for p in ["MS", "UO", "NCIT", "PEFF"] {
        assert!(is_cv_prefix(p));
        assert!(is_cv_prefix_slice(p.as_bytes()));
    }
    for p in ["", "ms", "B000", "MSX", "M", "NCI"] {
        assert!(!is_cv_prefix(p));
        assert!(!is_cv_prefix_slice(p.as_bytes()));
    }
    assert!(is_attr_prefix(b"B000"));
    assert!(!is_attr_prefix(b"B00"));
    assert!(!is_attr_prefix(b"MS"));
}

#[test]
fn accessions_are_made_from_prefix_and_tail() {
    assert_eq!(make_accession(Some("MS"), 1000514), Some("MS:1000514".to_string()));
    assert_eq!(make_accession(Some("MS"), 1), Some("MS:0000001".to_string()));
    assert_eq!(make_accession(Some("UO"), 21), Some("UO:0000021".to_string()));
    assert_eq!(make_accession(Some("PEFF"), 42), Some("PEFF:0000042".to_string()));
    assert_eq!(make_accession(Some("NCIT"), 12345), Some("NCIT:C12345".to_string()));
    assert_eq!(make_accession(Some("NCIT"), 7), Some("NCIT:C00007".to_string()));
    assert_eq!(make_accession(Some("B000"), 9900001), Some("B000:9900001".to_string()));
    assert_eq!(make_accession(Some("X"), 5), Some("X:5".to_string()));
    assert_eq!(make_accession(None, 77), Some("77".to_string()));
    assert_eq!(make_accession(Some("MS"), 12345678), Some("MS:12345678".to_string()));
    assert_eq!(make_accession(Some("MS"), 0), None);
    assert_eq!(make_accession(None, 0), None);
}

#[test]
fn tail_stands_behind_the_last_colon() {
    assert_eq!(tail_slice(b"MS:1000514"), b"1000514");
    assert_eq!(tail_slice(b"a:b:c"), b"c");
    assert_eq!(tail_slice(b"abc"), b"abc");
    assert_eq!(tail_slice(b"abc:"), b"");
    assert_eq!(tail_slice(b""), b"");
}

#[test]
fn strict_tail_must_be_a_number() {
    assert_eq!(parse_acc_tail(Some("MS:1000514")), 1000514);
    assert_eq!(parse_acc_tail(Some("MS:0000001")), 1);
    assert_eq!(parse_acc_tail(Some("1000514")), 1000514);
    assert_eq!(parse_acc_tail(Some("NCIT:C12345")), 0);
    assert_eq!(parse_acc_tail(Some("MS:")), 0);
    assert_eq!(parse_acc_tail(Some("MS:99999999999")), 0);
    assert_eq!(parse_acc_tail(None), 0);
}

#[test]
fn lenient_tail_reads_the_digits() {
    assert_eq!(parse_accession_tail_str("NCIT:C12345"), 12345);
    assert_eq!(parse_accession_tail_str("MS:1000514"), 1000514);
    assert_eq!(parse_accession_tail_str("MS:0000000"), 0);
    assert_eq!(parse_accession_tail_str("MS:abc"), 0);
    assert_eq!(parse_accession_tail_str("12"), 12);
    assert_eq!(parse_accession_tail_str(""), 0);
    assert_eq!(parse_accession_tail_str("MS1:22"), 22);
}

#[test]
fn accession_is_split_at_its_first_colon() {
    assert_eq!(split_prefix("MS:1000514"), Some(("MS", "1000514")));
    assert_eq!(split_prefix("a:b:c"), Some(("a", "b:c")));
    assert_eq!(split_prefix(":x"), Some(("", "x")));
    assert_eq!(split_prefix("x:"), Some(("x", "")));
    assert_eq!(split_prefix("é:ü"), Some(("é", "ü")));
    assert_eq!(split_prefix("abc"), None);
    assert_eq!(split_prefix(""), None);
}

#[test]
fn unit_vocabulary_is_the_prefix_of_the_unit() {
    assert_eq!(unit_cv_ref(&Some("UO:0000031".to_string())), Some("UO".to_string()));
    assert_eq!(unit_cv_ref(&Some("MS:1000040".to_string())), Some("MS".to_string()));
    assert_eq!(unit_cv_ref(&Some("minute".to_string())), None);
    assert_eq!(unit_cv_ref(&None), None);
}

#[test]
fn attribute_tails_need_the_reserved_prefix() {
    assert_eq!(b000_tail(Some("B000:9900001")), Some(9900001));
    assert_eq!(b000_tail(Some("B000:12")), Some(12));
    assert_eq!(b000_tail(Some("B000:")), None);
    assert_eq!(b000_tail(Some("B000:x1")), None);
    assert_eq!(b000_tail(Some("MS:1000514")), None);
    assert_eq!(b000_tail(Some("9900001")), None);
    assert_eq!(b000_tail(None), None);
}
