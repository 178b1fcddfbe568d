use octo::items::{
    parse_items_spec, parse_range, parse_trimmed_items, parse_usize, slice_indices, split_at_dash,
    ItemsError, ItemsSpec,
};

#[test]
fn one_index_names_one_item() {
    assert_eq!(parse_items_spec("3"), Ok(ItemsSpec::One(3)));
    assert_eq!(parse_items_spec("0"), Ok(ItemsSpec::One(0)));
    assert_eq!(parse_items_spec("+7"), Ok(ItemsSpec::One(7)));
    assert_eq!(parse_items_spec("007"), Ok(ItemsSpec::One(7)));
    assert_eq!(parse_items_spec("18446744073709551615"), Ok(ItemsSpec::One(usize::MAX)));
}

#[test]
fn white_space_around_the_text_is_passed_over() {
    assert_eq!(parse_items_spec("  3\t\n"), Ok(ItemsSpec::One(3)));
    assert_eq!(parse_items_spec("\u{a0}12\u{2003}"), Ok(ItemsSpec::One(12)));
    assert_eq!(parse_items_spec(" 2 - 5 "), Ok(ItemsSpec::Range { start: 2, end_exclusive: 5 }));
    assert_eq!(parse_items_spec("2 -\t5"), Ok(ItemsSpec::Range { start: 2, end_exclusive: 5 }));
    assert_eq!(parse_items_spec("1 2"), Err(ItemsError::BadIndex));
    assert_eq!(parse_trimmed_items(" 3"), Err(ItemsError::BadIndex));
    assert_eq!(parse_trimmed_items(" 3 - 4 "), Ok(ItemsSpec::Range { start: 3, end_exclusive: 4 }));
}

#[test]
fn a_dash_parts_the_ends_of_a_range() {
    assert_eq!(parse_items_spec("2-5"), Ok(ItemsSpec::Range { start: 2, end_exclusive: 5 }));
    assert_eq!(parse_items_spec("4-4"), Ok(ItemsSpec::Range { start: 4, end_exclusive: 4 }));
    assert_eq!(parse_items_spec("0-18446744073709551615"), Ok(ItemsSpec::Range { start: 0, end_exclusive: usize::MAX }));
    assert_eq!(parse_range("1", " 9 "), Ok(ItemsSpec::Range { start: 1, end_exclusive: 9 }));
}

#[test]
fn texts_that_name_no_items_are_refused() {
    assert_eq!(parse_items_spec(""), Err(ItemsError::BadIndex));
    assert_eq!(parse_items_spec("   "), Err(ItemsError::BadIndex));
    assert_eq!(parse_items_spec("x"), Err(ItemsError::BadIndex));
    assert_eq!(parse_items_spec("1.5"), Err(ItemsError::BadIndex));
    assert_eq!(parse_items_spec("18446744073709551616"), Err(ItemsError::BadIndex));
    assert_eq!(parse_items_spec("-"), Err(ItemsError::BadStart));
    assert_eq!(parse_items_spec("-5"), Err(ItemsError::BadStart));
    assert_eq!(parse_items_spec("a-5"), Err(ItemsError::BadStart));
    assert_eq!(parse_items_spec("a-b"), Err(ItemsError::BadStart));
    assert_eq!(parse_items_spec("5-"), Err(ItemsError::BadEnd));
    assert_eq!(parse_items_spec("5-b"), Err(ItemsError::BadEnd));
    assert_eq!(parse_items_spec("1-2-3"), Err(ItemsError::BadEnd));
    assert_eq!(parse_items_spec("5-4"), Err(ItemsError::EndBeforeStart));
    assert_eq!(ItemsError::BadStart.message(), "bad items start");
    assert_eq!(ItemsError::BadEnd.message(), "bad items end");
    assert_eq!(ItemsError::EndBeforeStart.message(), "items end must be >= start");
    assert_eq!(ItemsError::BadIndex.message(), "bad items index");
}

#[test]
fn numbers_of_the_word_size_are_parsed() {
    assert_eq!(parse_usize(b"0"), Some(0));
    assert_eq!(parse_usize(b"+0"), Some(0));
    assert_eq!(parse_usize(b"1234567890123"), Some(1234567890123));
    assert_eq!(parse_usize(b"18446744073709551615"), Some(usize::MAX));
    assert_eq!(parse_usize(b"18446744073709551616"), None);
    assert_eq!(parse_usize(b"99999999999999999999999"), None);
    assert_eq!(parse_usize(b""), None);
    assert_eq!(parse_usize(b"+"), None);
    assert_eq!(parse_usize(b"++1"), None);
    assert_eq!(parse_usize(b"-1"), None);
    assert_eq!(parse_usize(b"1_000"), None);
}

#[test]
fn text_is_split_at_its_first_dash() {
    assert_eq!(split_at_dash("1-2"), Some(("1", "2")));
    assert_eq!(split_at_dash("1-2-3"), Some(("1", "2-3")));
    assert_eq!(split_at_dash("-"), Some(("", "")));
    assert_eq!(split_at_dash("é-ü"), Some(("é", "ü")));
    assert_eq!(split_at_dash("12"), None);
    assert_eq!(split_at_dash(""), None);
}

#[test]
fn places_outside_the_list_are_left_out() {
    assert_eq!(slice_indices(10, &ItemsSpec::One(3)), (3, 4, true));
    assert_eq!(slice_indices(10, &ItemsSpec::One(9)), (9, 10, true));
    assert_eq!(slice_indices(10, &ItemsSpec::One(10)), (10, 10, true));
    assert_eq!(slice_indices(10, &ItemsSpec::One(usize::MAX)), (10, 10, true));
    assert_eq!(slice_indices(0, &ItemsSpec::One(0)), (0, 0, true));
    assert_eq!(slice_indices(10, &ItemsSpec::Range { start: 2, end_exclusive: 5 }), (2, 5, false));
    assert_eq!(slice_indices(10, &ItemsSpec::Range { start: 2, end_exclusive: 50 }), (2, 10, false));
    assert_eq!(slice_indices(10, &ItemsSpec::Range { start: 20, end_exclusive: 50 }), (10, 10, false));
    assert_eq!(slice_indices(10, &ItemsSpec::Range { start: 0, end_exclusive: 0 }), (0, 0, false));
    assert_eq!(slice_indices(10, &ItemsSpec::Range { start: 7, end_exclusive: 3 }), (7, 3, false));
}

#[test]
fn every_white_space_character_is_passed_over() {
    let spaces = [
        0x09u32, 0x0a, 0x0b, 0x0c, 0x0d, 0x20, 0x85, 0xa0, 0x1680, 0x2000, 0x2001, 0x2002, 0x2003,
        0x2004, 0x2005, 0x2006, 0x2007, 0x2008, 0x2009, 0x200a, 0x2028, 0x2029, 0x202f, 0x205f,
        0x3000,
    ];
    for n in spaces {
        let c = char::from_u32(n).unwrap();
        assert_eq!(parse_items_spec(&format!("{c}{c}5{c}")), Ok(ItemsSpec::One(5)));
        assert_eq!(
            parse_items_spec(&format!("1{c}-{c}2")),
            Ok(ItemsSpec::Range { start: 1, end_exclusive: 2 })
        );
    }
    for n in [0x08u32, 0x0e, 0x1f, 0x21, 0x84, 0x86, 0x9f, 0xa1, 0x180e, 0x1fff, 0x200b, 0x2027, 0x202a, 0x2060, 0x3001, 0xfeff] {
        let c = char::from_u32(n).unwrap();
        assert_eq!(parse_items_spec(&format!("{c}5")), Err(ItemsError::BadIndex));
        assert_eq!(parse_items_spec(&format!("5{c}")), Err(ItemsError::BadIndex));
    }
}
