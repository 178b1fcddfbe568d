use octo::bytes::{
    le_u32_at, le_u32_vec_at, le_u64_at, le_u64_vec_at, push_u32_le, push_u64_le, read_f64_vec,
    read_slice, read_u32_at, read_u32_le_at, read_u32_vec, read_u64_at, read_u64_le_at,
    read_u8_at, slice_at, take, u32_from_le, u32s_to_le, u64_from_le, u64s_to_le,
};
use octo::error::{DecodeError, ErrorKind};
use octo::shuffle::{byte_unshuffle_into, shuffle, unshuffle_into};

#[test]
fn little_endian_words_are_read() {
    assert_eq!(u32_from_le(&[0x78, 0x56, 0x34, 0x12]), 0x1234_5678);
    assert_eq!(u64_from_le(&[8, 7, 6, 5, 4, 3, 2, 1]), 0x0102_0304_0506_0708);
    let b = [0xffu8, 1, 0, 0, 0, 2, 0, 0, 0, 0, 0, 0, 0];
    assert_eq!(le_u32_at(&b, 1), 1);
    assert_eq!(le_u64_at(&b, 5), 2);
    assert_eq!(le_u32_at(&b, 9), 0);
}

#[test]
fn reads_inside_the_buffer_succeed() {
    let b = [1u8, 2, 3, 4, 5, 6, 7, 8, 9];
    assert_eq!(read_u8_at(&b, 8), Ok(9));
    assert_eq!(read_u32_at(&b, 5), Ok(u32::from_le_bytes([6, 7, 8, 9])));
    assert_eq!(read_u64_at(&b, 1), Ok(u64::from_le_bytes([2, 3, 4, 5, 6, 7, 8, 9])));
    assert_eq!(read_slice(&b, 2, 3), Ok(&b[2..5]));
    assert_eq!(read_slice(&b, 9, 0), Ok(&b[9..9]));
}

#[test]
fn reads_past_the_end_are_truncated() {
    let b = [1u8, 2, 3, 4, 5, 6, 7, 8, 9];
    assert_eq!(read_u8_at(&b, 9), Err(DecodeError::UnexpectedEnd));
    assert_eq!(read_u32_at(&b, 6), Err(DecodeError::UnexpectedEnd));
    assert_eq!(read_u64_at(&b, 2), Err(DecodeError::UnexpectedEnd));
    assert_eq!(read_slice(&b, 2, 8), Err(DecodeError::UnexpectedEnd));
    assert_eq!(read_slice(&b, usize::MAX, 2), Err(DecodeError::UnexpectedEnd));
    assert_eq!(read_u32_at(&b, usize::MAX), Err(DecodeError::UnexpectedEnd));
    assert_eq!(DecodeError::UnexpectedEnd.kind(), ErrorKind::Truncated);
}

#[test]
fn slice_at_checks_offset_and_length() {
    let b = [10u8, 11, 12, 13, 14];
    assert_eq!(slice_at(&b, 1, 3, "region"), Ok(&b[1..4]));
    assert_eq!(slice_at(&b, 5, 0, "region"), Ok(&b[5..5]));
    assert!(slice_at(&b, 3, 3, "region").is_err());
    assert!(slice_at(&b, 6, 0, "region").is_err());
    assert!(slice_at(&b, u64::MAX, 2, "region").is_err());
    assert!(slice_at(&b, 1, u64::MAX, "region").is_err());
}

#[test]
fn cursor_moves_only_on_success() {
    let b = [1u8, 0, 0, 0, 2, 0, 0, 0, 0, 0, 0, 0, 9];
    let mut pos = 0usize;
    assert_eq!(read_u32_le_at(&b, &mut pos, "a"), Ok(1));
    assert_eq!(pos, 4);
    assert_eq!(read_u64_le_at(&b, &mut pos, "b"), Ok(2));
    assert_eq!(pos, 12);
    assert_eq!(take(&b, &mut pos, 1, "c"), Ok(&b[12..13]));
    assert_eq!(pos, 13);
    assert!(take(&b, &mut pos, 1, "d").is_err());
    assert_eq!(pos, 13);
    assert!(read_u32_le_at(&b, &mut pos, "e").is_err());
    assert_eq!(pos, 13);
    let mut pos = 10usize;
    assert!(read_u64_le_at(&b, &mut pos, "f").is_err());
    assert_eq!(pos, 10);
    assert_eq!(take(&b, &mut pos, 0, "g"), Ok(&b[10..10]));
    assert_eq!(pos, 10);
}

#[test]
fn vectors_of_words_are_read() {
    let b = [9u8, 1, 0, 0, 0, 2, 0, 0, 0, 3, 0, 0, 0, 0, 0, 0, 0];
    assert_eq!(le_u32_vec_at(&b, 1, 3), vec![1, 2, 3]);
    assert_eq!(le_u32_vec_at(&b, 1, 0), Vec::<u32>::new());
    assert_eq!(le_u64_vec_at(&b, 1, 2), vec![0x0000_0002_0000_0001, 3]);
    assert_eq!(read_u32_vec(&b[1..], 4), Ok(vec![1, 2, 3, 0]));
    assert_eq!(read_u32_vec(&b[1..], 2), Ok(vec![1, 2]));
    assert!(read_u32_vec(&b[1..], 5).is_err());
    assert!(read_u32_vec(&b, usize::MAX).is_err());
    assert_eq!(read_f64_vec(&b[1..], 2), Ok(vec![0x0000_0002_0000_0001, 3]));
    assert!(read_f64_vec(&b[1..], 3).is_err());
    let one = 1.0f64.to_le_bytes();
    assert_eq!(read_f64_vec(&one, 1), Ok(vec![1.0f64.to_bits()]));
}

#[test]
fn words_are_written_little_endian() {
    let mut out = vec![7u8];
    push_u32_le(&mut out, 0x1234_5678);
    push_u64_le(&mut out, 0x0102_0304_0506_0708);
    assert_eq!(out, vec![7, 0x78, 0x56, 0x34, 0x12, 8, 7, 6, 5, 4, 3, 2, 1]);
    assert_eq!(u32s_to_le(&[1, 0x0200]), vec![1, 0, 0, 0, 0, 2, 0, 0]);
    assert_eq!(u64s_to_le(&[1]), vec![1, 0, 0, 0, 0, 0, 0, 0]);
    assert_eq!(u32s_to_le(&[]), Vec::<u8>::new());
    assert_eq!(u64s_to_le(&[2.5f64.to_bits()]), 2.5f64.to_le_bytes().to_vec());
}

#[test]
fn shuffle_groups_bytes_by_lane() {
    let src = [0x11u8, 0x12, 0x13, 0x14, 0x21, 0x22, 0x23, 0x24, 0x31, 0x32, 0x33, 0x34];
    let out = shuffle(&src, 4);
    assert_eq!(
        out,
        vec![0x11, 0x21, 0x31, 0x12, 0x22, 0x32, 0x13, 0x23, 0x33, 0x14, 0x24, 0x34]
    );
    assert_eq!(shuffle(&src, 1), src.to_vec());
    assert_eq!(shuffle(&[], 8), Vec::<u8>::new());
}

#[test]
fn unshuffle_undoes_shuffle_of_three_doubles() {
    let values = [1.5f64, -2.25, 1.0e300];
    let mut src = Vec::new();
    for v in values {
        src.extend_from_slice(&v.to_le_bytes());
    }
    let shuffled = shuffle(&src, 8);
    assert_eq!(shuffled.len(), 24);
    for lane in 0..8 {
        for k in 0..3 {
            assert_eq!(shuffled[lane * 3 + k], src[k * 8 + lane]);
        }
    }
    let mut back = vec![0u8; 24];
    assert_eq!(unshuffle_into(&mut back, &shuffled, 8), Ok(()));
    assert_eq!(back, src);
    let mut again = vec![0u8; 24];
    byte_unshuffle_into(&shuffled, &mut again, 8);
    assert_eq!(again, src);
}

#[test]
fn shuffle_undoes_unshuffle() {
    let bytes: Vec<u8> = (0u8..40).collect();
    for elem in [1usize, 2, 4, 5, 8, 10, 20, 40] {
        let mut un = vec![0u8; 40];
        assert_eq!(unshuffle_into(&mut un, &bytes, elem), Ok(()));
        assert_eq!(shuffle(&un, elem), bytes);
        let sh = shuffle(&bytes, elem);
        let mut back = vec![0u8; 40];
        byte_unshuffle_into(&sh, &mut back, elem);
        assert_eq!(back, bytes);
    }
}

#[test]
fn unshuffle_refuses_ragged_input() {
    let mut out = vec![9u8; 5];
    let r = unshuffle_into(&mut out, &[1, 2, 3, 4, 5], 4);
    assert_eq!(r, Err(DecodeError::RaggedElements));
    assert_eq!(r.unwrap_err().kind(), ErrorKind::BadArrayLayout);
    assert_eq!(out, vec![9u8; 5]);
}

#[test]
fn unshuffle_refuses_output_of_another_length() {
    let mut out = vec![9u8; 3];
    let r = unshuffle_into(&mut out, &[1, 2, 3, 4], 4);
    assert_eq!(r, Err(DecodeError::BlockSizeMismatch));
    assert_eq!(r.unwrap_err().kind(), ErrorKind::BadCompression);
    assert_eq!(out, vec![9u8; 3]);
}

#[test]
fn unshuffle_of_single_byte_elements_copies() {
    let mut out = vec![0u8; 3];
    assert_eq!(unshuffle_into(&mut out, &[5, 6, 7], 1), Ok(()));
    assert_eq!(out, vec![5, 6, 7]);
    let mut out = vec![0u8; 3];
    assert_eq!(unshuffle_into(&mut out, &[5, 6, 7], 0), Ok(()));
    assert_eq!(out, vec![5, 6, 7]);
    let mut out = Vec::new();
    assert_eq!(unshuffle_into(&mut out, &[], 4), Ok(()));
    assert_eq!(out, Vec::<u8>::new());
}

#[test]
fn unshuffle_keeps_what_lies_behind_the_last_whole_element() {
    let input = [0x11u8, 0x21, 0x12, 0x22, 0xee];
    let mut out = vec![0xaau8; 5];
    byte_unshuffle_into(&input, &mut out, 2);
    assert_eq!(out, vec![0x11, 0x12, 0x21, 0x22, 0xaa]);
}

#[test]
fn unshuffle_needs_room_for_the_whole_elements_only() {
    let input = [0x11u8, 0x21, 0x12, 0x22, 0xee];
    let mut exact = vec![0xaau8; 4];
    byte_unshuffle_into(&input, &mut exact, 2);
    assert_eq!(exact, vec![0x11, 0x12, 0x21, 0x22]);
    let mut longer = vec![0xaau8; 7];
    byte_unshuffle_into(&input, &mut longer, 2);
    assert_eq!(longer, vec![0x11, 0x12, 0x21, 0x22, 0xaa, 0xaa, 0xaa]);
    let mut none = vec![0xaau8; 1];
    byte_unshuffle_into(&[1, 2, 3], &mut none, 4);
    assert_eq!(none, vec![0xaa]);
}
