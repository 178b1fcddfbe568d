use octo::binary_array::ArrayData;
use octo::codec::{
    compress_block, decode_block, decompress_meta_if_needed, decompress_zlib_allow_pad0,
    decompress_zstd, decompress_zstd_allow_aligned_padding, decompress_zstd_allow_pad0,
    BytesMaybeOwned,
};
use octo::container::Container;
use octo::cursor::vs_len_bytes;
use octo::decode::{
    bytes_to_f32_exact, bytes_to_f64_exact, decode_array_by_fmt_from_bytes, open_container,
};
use octo::error::{DecodeError, ErrorKind};
use octo::header::{fmt_elem_size, min_nonzero_usize, read_index_entry_with_blocks};
use octo::reader::{
    bytes_to_f32_vec, bytes_to_f64_vec,
    compute_block_starts, compute_block_starts_for_cx, compute_block_starts_for_cy,
    compute_block_starts_for_x, compute_block_starts_for_y, decode_item_array, ChromIndexEntry,
    ContainerReader, SpectrumIndexEntry,
};

fn plane_layout(src: &[u8], elem: usize) -> Vec<u8> {
    let n = src.len() / elem;
    let mut out = vec![0u8; src.len()];
    for i in 0..n {
        for p in 0..elem {
            out[p * n + i] = src[i * elem + p];
        }
    }
    out
}

/// A container whose blocks are stored as given, with the plain sizes
/// given beside them.
fn container_of(stored: &[(Vec<u8>, u64)]) -> Vec<u8> {
    let mut dir = Vec::new();
    let mut payload = Vec::new();
    for (bytes, plain_len) in stored {
        dir.extend_from_slice(&(payload.len() as u64).to_le_bytes());
        dir.extend_from_slice(&(bytes.len() as u64).to_le_bytes());
        dir.extend_from_slice(&plain_len.to_le_bytes());
        dir.extend_from_slice(&0u64.to_le_bytes());
        payload.extend_from_slice(bytes);
    }
    dir.extend_from_slice(&payload);
    dir
}

fn doubles(xs: &[f64]) -> Vec<u8> {
    xs.iter().flat_map(|x| x.to_le_bytes()).collect()
}

#[test]
fn zstd_block_comes_back_from_the_block_decoder() {
    let plain: Vec<u8> = (0..200u32).flat_map(|x| (x % 7).to_le_bytes()).collect();
    let stored = compress_block(&plain, 3).unwrap();
    assert_ne!(stored, plain);
    assert_eq!(decode_block(1, &stored, plain.len() as u64), Ok(plain.clone()));
    assert_eq!(decompress_zstd(&stored), Ok(plain.clone()));
    assert_eq!(decompress_zstd_allow_pad0(&stored), Ok(plain.clone()));
    assert_eq!(decompress_zstd_allow_aligned_padding(&stored), Ok(plain));
}

#[test]
fn zstd_block_decoder_needs_room_for_the_block() {
    let plain = vec![5u8; 100];
    let stored = compress_block(&plain, 1).unwrap();
    assert_eq!(decode_block(1, &stored, 99), Err(DecodeError::CodecFailed));
    assert_eq!(decode_block(1, &stored, u64::MAX), Err(DecodeError::SizeOverflow));
    assert_eq!(DecodeError::SizeOverflow.kind(), ErrorKind::BadCompression);
}

#[test]
fn zlib_block_is_inflated() {
    let plain = b"an array block, an array block, an array block".to_vec();
    let stored = miniz_oxide::deflate::compress_to_vec_zlib(&plain, 6);
    assert_eq!(decode_block(0, &stored, plain.len() as u64), Ok(plain.clone()));
    assert_eq!(decompress_zlib_allow_pad0(&stored), Ok(plain));
    assert_eq!(decode_block(0, &[1, 2, 3], 3), Err(DecodeError::CodecFailed));
}

#[test]
fn block_of_unknown_codec_is_refused() {
    assert_eq!(decode_block(2, &[1, 2, 3], 3), Err(DecodeError::UnknownCodec));
    assert_eq!(decode_block(15, &[], 0), Err(DecodeError::UnknownCodec));
    assert_eq!(DecodeError::UnknownCodec.kind(), ErrorKind::BadCompression);
}

#[test]
fn up_to_seven_zero_bytes_behind_a_stream_pass() {
    let plain = b"metadata metadata metadata".to_vec();
    let zlib = miniz_oxide::deflate::compress_to_vec_zlib(&plain, 6);
    let zst = zstd::stream::encode_all(&plain[..], 3).unwrap();
    for pad in 0..=7usize {
        let mut a = zlib.clone();
        a.extend(std::iter::repeat(0u8).take(pad));
        assert_eq!(decompress_zlib_allow_pad0(&a), Ok(plain.clone()));
        let mut b = zst.clone();
        b.extend(std::iter::repeat(0u8).take(pad));
        assert_eq!(decompress_zstd_allow_pad0(&b), Ok(plain.clone()));
        assert_eq!(decompress_zstd_allow_aligned_padding(&b), Ok(plain.clone()));
    }
}

#[test]
fn damaged_streams_fail() {
    assert_eq!(decompress_zstd(&[1, 2, 3, 4]), Err(DecodeError::CodecFailed));
    assert_eq!(decompress_zstd_allow_pad0(&[1, 2, 3, 0, 0]), Err(DecodeError::CodecFailed));
    assert_eq!(decompress_zlib_allow_pad0(&[9, 9, 9]), Err(DecodeError::CodecFailed));
    assert_eq!(decompress_zlib_allow_pad0(&[]), Err(DecodeError::CodecFailed));
    let mut padded = zstd::stream::encode_all(&b"abc"[..], 3).unwrap();
    padded.extend_from_slice(&[0, 0, 1]);
    assert_eq!(decompress_zstd_allow_pad0(&padded), Err(DecodeError::CodecFailed));
}

#[test]
fn metadata_region_is_decoded_only_where_flagged() {
    let plain = b"plain block".to_vec();
    match decompress_meta_if_needed(1, false, &plain) {
        Ok(BytesMaybeOwned::Borrowed(b)) => assert_eq!(b, &plain[..]),
        _ => panic!("a raw region is borrowed"),
    }
    let zst = zstd::stream::encode_all(&plain[..], 3).unwrap();
    let got = decompress_meta_if_needed(1, true, &zst).ok().unwrap();
    assert_eq!(got.as_slice(), &plain[..]);
    let zlib = miniz_oxide::deflate::compress_to_vec_zlib(&plain, 6);
    let got = decompress_meta_if_needed(0, true, &zlib).ok().unwrap();
    assert_eq!(got.as_slice(), &plain[..]);
    assert!(matches!(decompress_meta_if_needed(7, true, &zst), Err(DecodeError::UnknownCodec)));
    assert!(matches!(decompress_meta_if_needed(0, true, &zst), Err(DecodeError::CodecFailed)));
    assert!(matches!(decompress_meta_if_needed(7, false, &zst), Ok(_)));
}

#[test]
fn element_size_follows_the_format_code() {
    assert_eq!(fmt_elem_size(1), Ok(4));
    assert_eq!(fmt_elem_size(2), Ok(8));
    assert_eq!(fmt_elem_size(0), Err(DecodeError::BadFloatFormat));
    assert_eq!(fmt_elem_size(3), Err(DecodeError::BadFloatFormat));
    assert_eq!(DecodeError::BadFloatFormat.kind(), ErrorKind::BadArrayLayout);
}

#[test]
fn least_number_above_zero_is_found() {
    assert_eq!(min_nonzero_usize(&[0, 5, 3, 0, 9]), Some(3));
    assert_eq!(min_nonzero_usize(&[0, 0]), None);
    assert_eq!(min_nonzero_usize(&[]), None);
    assert_eq!(min_nonzero_usize(&[7]), Some(7));
}

#[test]
fn index_entry_is_read_field_by_field() {
    let mut b = Vec::new();
    for k in 0..2u64 {
        b.extend_from_slice(&(100 + k).to_le_bytes());
        b.extend_from_slice(&(200 + k).to_le_bytes());
        b.extend_from_slice(&(3 + k as u32).to_le_bytes());
        b.extend_from_slice(&(4 + k as u32).to_le_bytes());
        b.extend_from_slice(&(5 + k as u32).to_le_bytes());
        b.extend_from_slice(&(6 + k as u32).to_le_bytes());
    }
    assert_eq!(read_index_entry_with_blocks(&b, 0), Ok((100, 200, 3, 4, 5, 6)));
    assert_eq!(read_index_entry_with_blocks(&b, 1), Ok((101, 201, 4, 5, 6, 7)));
    assert_eq!(read_index_entry_with_blocks(&b, 2), Err(DecodeError::UnexpectedEnd));
    assert_eq!(read_index_entry_with_blocks(&b[..63], 1), Err(DecodeError::UnexpectedEnd));
    assert_eq!(read_index_entry_with_blocks(&b, usize::MAX), Err(DecodeError::UnexpectedEnd));
}

#[test]
fn exact_float_bytes_become_bit_patterns() {
    let b = doubles(&[1.5, -0.0]);
    assert_eq!(bytes_to_f64_exact(&b), Ok(vec![1.5f64.to_bits(), (-0.0f64).to_bits()]));
    assert_eq!(bytes_to_f64_exact(&b[..15]), Err(DecodeError::RaggedElements));
    assert_eq!(bytes_to_f64_exact(&[]), Ok(vec![]));
    let s: Vec<u8> = [2.5f32, f32::MAX].iter().flat_map(|x| x.to_le_bytes()).collect();
    assert_eq!(bytes_to_f32_exact(&s), Ok(vec![2.5f32.to_bits(), f32::MAX.to_bits()]));
    assert_eq!(bytes_to_f32_exact(&s[..7]), Err(DecodeError::RaggedElements));
    assert_eq!(decode_array_by_fmt_from_bytes(&s, 1), Ok((vec![2.5f32.to_bits(), f32::MAX.to_bits()], vec![])));
    assert_eq!(decode_array_by_fmt_from_bytes(&b, 2), Ok((vec![], vec![1.5f64.to_bits(), (-0.0f64).to_bits()])));
    assert_eq!(decode_array_by_fmt_from_bytes(&b, 0), Err(DecodeError::BadFloatFormat));
    assert_eq!(decode_array_by_fmt_from_bytes(&b[..9], 2), Err(DecodeError::RaggedElements));
}

#[test]
fn raw_container_hands_out_slices() {
    let b0 = doubles(&[1.0, 2.0, 3.0]);
    let b1 = doubles(&[4.0, 5.0]);
    let mut file = vec![0xeeu8; 10];
    file.extend(container_of(&[(b0.clone(), 24), (b1.clone(), 16)]));
    let size = file.len() - 10;
    file.extend_from_slice(&[0xee; 3]);
    let mut c = Container::new(&file, 10, size, 2, 1, 0, 8, 0).ok().unwrap();
    assert_eq!(c.block_count(), 2);
    assert_eq!(c.block_bytes(0).ok().unwrap(), &b0[..]);
    assert_eq!(c.block_bytes(1).ok().unwrap(), &b1[..]);
    assert_eq!(c.slice_elems(0, 1, 2).ok().unwrap(), &b0[8..24]);
    assert_eq!(c.slice_elems(1, 3, 2).ok().unwrap(), &b1[..]);
    assert_eq!(c.slice_elems(1, 4, 1).ok().unwrap(), &b1[8..]);
    assert_eq!(c.slice_elems(1, 4, 0).ok().unwrap(), &b1[8..8]);
    assert_eq!(c.slice_elems(1, 2, 1).err(), Some(DecodeError::OffsetBeforeBlock));
    assert_eq!(c.slice_elems(1, 4, 2).err(), Some(DecodeError::SliceOutOfBlock));
    assert_eq!(c.slice_elems(2, 0, 0).err(), Some(DecodeError::BlockIdOutOfRange));
    assert_eq!(c.block_bytes(2).err(), Some(DecodeError::BlockIdOutOfRange));
    assert_eq!(c.ensure_block(1), Ok(()));
    assert_eq!(c.ensure_block(5), Err(DecodeError::BlockIdOutOfRange));
    assert_eq!(DecodeError::OffsetBeforeBlock.kind(), ErrorKind::BadArrayLayout);
    assert_eq!(DecodeError::SliceOutOfBlock.kind(), ErrorKind::BadArrayLayout);
    assert_eq!(DecodeError::BlockIdOutOfRange.kind(), ErrorKind::BadArrayLayout);
}

#[test]
fn shuffled_and_compressed_container_hands_out_slices() {
    let plain = doubles(&[1.0, 2.0, 3.0, 4.0]);
    let stored = compress_block(&plain_layout_of(&plain), 5).unwrap();
    let file = container_of(&[(stored, 32)]);
    let mut c = Container::new(&file, 0, file.len(), 1, 1, 5, 8, 1).ok().unwrap();
    assert_eq!(c.slice_elems(0, 0, 4).ok().unwrap(), &plain[..]);
    assert_eq!(c.slice_elems(0, 2, 1).ok().unwrap(), &plain[16..24]);
    let stored = miniz_oxide::deflate::compress_to_vec_zlib(&plain, 6);
    let file = container_of(&[(stored, 32)]);
    let mut c = Container::new(&file, 0, file.len(), 1, 0, 6, 8, 0).ok().unwrap();
    assert_eq!(c.slice_elems(0, 3, 1).ok().unwrap(), &plain[24..]);
}

fn plain_layout_of(plain: &[u8]) -> Vec<u8> {
    plane_layout(plain, 8)
}

#[test]
fn container_without_blocks_is_empty() {
    let c = Container::empty();
    assert_eq!(c.block_count(), 0);
    let file = [1u8, 2, 3];
    let mut c = Container::new(&file, 0, 0, 4, 1, 0, 8, 0).ok().unwrap();
    assert_eq!(c.block_count(), 0);
    assert_eq!(c.block_bytes(0).err(), Some(DecodeError::BlockIdOutOfRange));
    let c = Container::new(&file, 1, 2, 0, 1, 0, 8, 0).ok().unwrap();
    assert_eq!(c.block_count(), 0);
    let c = open_container(&file, 0, 0, 0, 1, 0, 0, 0).ok().unwrap();
    assert_eq!(c.block_count(), 0);
}

#[test]
fn container_that_does_not_fit_is_refused() {
    let b0 = doubles(&[1.0]);
    let file = container_of(&[(b0.clone(), 8)]);
    assert_eq!(Container::new(&file, 0, file.len() + 1, 1, 1, 0, 8, 0).err(), Some(DecodeError::UnexpectedEnd));
    assert_eq!(Container::new(&file, 1, file.len(), 1, 1, 0, 8, 0).err(), Some(DecodeError::UnexpectedEnd));
    assert_eq!(Container::new(&file, 0, 31, 1, 1, 0, 8, 0).err(), Some(DecodeError::UnexpectedEnd));
    assert_eq!(Container::new(&file, 0, file.len(), 2, 1, 0, 8, 0).err(), Some(DecodeError::UnexpectedEnd));
    assert_eq!(Container::new(&file, 0, file.len(), 1, 1, 0, 0, 0).err(), Some(DecodeError::BadFloatFormat));
    assert_eq!(Container::new(&file, 0, file.len(), 1, 1, 0, 3, 0).err(), Some(DecodeError::RaggedElements));
    assert_eq!(
        open_container(&file, u64::MAX, 40, 1, 1, 0, 8, 0).err(),
        Some(DecodeError::UnexpectedEnd)
    );
    assert!(open_container(&file, 0, file.len() as u64, 1, 1, 0, 8, 0).is_ok());
}

#[test]
fn block_stored_outside_the_payload_is_truncated() {
    let mut file = container_of(&[(doubles(&[1.0]), 8)]);
    file[8] = 9;
    let mut c = Container::new(&file, 0, file.len(), 1, 1, 0, 8, 0).ok().unwrap();
    assert_eq!(c.block_bytes(0).err(), Some(DecodeError::UnexpectedEnd));
    assert_eq!(c.ensure_block(0), Err(DecodeError::UnexpectedEnd));
}

#[test]
fn block_of_another_size_than_promised_is_refused() {
    let file = container_of(&[(doubles(&[1.0, 2.0]), 8)]);
    let mut c = Container::new(&file, 0, file.len(), 1, 1, 0, 8, 0).ok().unwrap();
    let e = c.block_bytes(0).err().unwrap();
    assert_eq!(e, DecodeError::BlockSizeMismatch);
    assert_eq!(e.kind(), ErrorKind::BadCompression);
    assert_eq!(e.message(), "block size mismatch");
}

#[test]
fn block_starts_are_the_least_offsets() {
    let pairs = vec![(1u32, 30u64), (0, 5), (1, 20), (0, 7), (3, 0)];
    assert_eq!(compute_block_starts(&pairs, 4), Ok(vec![5, 20, u64::MAX, 0]));
    assert_eq!(compute_block_starts(&pairs, 3), Err(DecodeError::BlockIdOutOfRange));
    assert_eq!(compute_block_starts(&vec![], 2), Ok(vec![u64::MAX, u64::MAX]));
    assert_eq!(compute_block_starts(&vec![], 0), Ok(vec![]));
}

#[test]
fn block_starts_follow_each_axis() {
    let spectra = vec![
        SpectrumIndexEntry {
            mz_element_off: 0,
            inten_element_off: 100,
            mz_element_len: 3,
            inten_element_len: 3,
            mz_block_id: 0,
            inten_block_id: 1,
        },
        SpectrumIndexEntry {
            mz_element_off: 3,
            inten_element_off: 90,
            mz_element_len: 2,
            inten_element_len: 2,
            mz_block_id: 1,
            inten_block_id: 1,
        },
    ];
    assert_eq!(compute_block_starts_for_x(&spectra, 2), Ok(vec![0, 3]));
    assert_eq!(compute_block_starts_for_y(&spectra, 2), Ok(vec![u64::MAX, 90]));
    assert_eq!(compute_block_starts_for_x(&spectra, 1), Err(DecodeError::BlockIdOutOfRange));
    let chroms = vec![ChromIndexEntry {
        time_element_off: 11,
        inten_element_off: 22,
        time_element_len: 1,
        inten_element_len: 1,
        time_block_id: 0,
        inten_block_id: 2,
    }];
    assert_eq!(compute_block_starts_for_cx(&chroms, 1), Ok(vec![11]));
    assert_eq!(compute_block_starts_for_cy(&chroms, 3), Ok(vec![u64::MAX, u64::MAX, 22]));
    assert_eq!(compute_block_starts_for_cy(&chroms, 2), Err(DecodeError::BlockIdOutOfRange));
}

#[test]
fn reader_decodes_arrays_from_stream_blocks() {
    let plain = doubles(&[1.0, 2.0, 3.0, 4.0]);
    let stored = zstd::stream::encode_all(&plane_layout(&plain, 8)[..], 3).unwrap();
    let raw = doubles(&[9.0]);
    let file = container_of(&[(stored, 32), (raw, 8)]);
    let mut r = ContainerReader::new(&file, 2, 8, 3, 1).ok().unwrap();
    assert_eq!(r.block_bytes(0).ok().unwrap(), &plain[..]);
    assert_eq!(r.ensure_block(0), Ok(()));
    let starts = [10u64, u64::MAX];
    assert_eq!(
        decode_item_array(&mut r, &starts, 0, 11, 2),
        Ok(ArrayData::F64(vec![2.0f64.to_bits(), 3.0f64.to_bits()]))
    );
    assert_eq!(decode_item_array(&mut r, &starts, 0, 10, 0), Ok(ArrayData::F64(vec![])));
    assert_eq!(decode_item_array(&mut r, &starts, 0, 9, 1), Err(DecodeError::OffsetBeforeBlock));
    assert_eq!(decode_item_array(&mut r, &starts, 0, 13, 2), Err(DecodeError::SliceOutOfBlock));
    assert_eq!(decode_item_array(&mut r, &starts, 1, 0, 1), Err(DecodeError::BlockStartUnknown));
    assert_eq!(decode_item_array(&mut r, &starts, 2, 0, 1), Err(DecodeError::BlockIdOutOfRange));
    assert_eq!(DecodeError::BlockStartUnknown.kind(), ErrorKind::BadArrayLayout);
    assert_eq!(r.block_bytes(1).err(), Some(DecodeError::CodecFailed));
}

#[test]
fn reader_decodes_raw_single_precision() {
    let plain: Vec<u8> = [1.0f32, 2.0, 3.0].iter().flat_map(|x| x.to_le_bytes()).collect();
    let file = container_of(&[(plain.clone(), 12)]);
    let mut r = ContainerReader::new(&file, 1, 4, 0, 0).ok().unwrap();
    assert_eq!(
        decode_item_array(&mut r, &[0], 0, 1, 2),
        Ok(ArrayData::F32(vec![2.0f32.to_bits(), 3.0f32.to_bits()]))
    );
    let mut r = ContainerReader::new(&file, 1, 2, 0, 0).ok().unwrap();
    assert_eq!(decode_item_array(&mut r, &[0], 0, 0, 1), Err(DecodeError::BadFloatFormat));
    assert_eq!(ContainerReader::new(&file, 2, 4, 0, 0).err(), Some(DecodeError::UnexpectedEnd));
    let mut r = ContainerReader::new(&file, 1, 8, 0, 1).ok().unwrap();
    assert_eq!(r.block_bytes(0).err(), Some(DecodeError::RaggedElements));
}

#[test]
fn text_table_length_is_the_furthest_end() {
    let kinds = [1u8, 0, 1];
    let indices = [1u32, 0, 0];
    let offsets = [0u32, 4];
    let lengths = [4u32, 6];
    assert_eq!(vs_len_bytes(&kinds, &indices, &offsets, &lengths), Ok(10));
    assert_eq!(vs_len_bytes(&[0, 2], &[5, 5], &offsets, &lengths), Ok(0));
    assert_eq!(vs_len_bytes(&[], &[], &[], &[]), Ok(0));
    assert!(vs_len_bytes(&[1], &[2], &offsets, &lengths).is_err());
}

#[test]
fn whole_elements_are_read_and_the_rest_passed_over() {
    let mut b = doubles(&[1.5, -2.0]);
    assert_eq!(bytes_to_f64_vec(&b), vec![1.5f64.to_bits(), (-2.0f64).to_bits()]);
    b.extend_from_slice(&[1, 2, 3]);
    assert_eq!(bytes_to_f64_vec(&b), vec![1.5f64.to_bits(), (-2.0f64).to_bits()]);
    assert_eq!(bytes_to_f64_vec(&b[..7]), Vec::<u64>::new());
    assert_eq!(bytes_to_f64_vec(&[]), Vec::<u64>::new());
    let s: Vec<u8> = [0.5f32, 8.0].iter().flat_map(|x| x.to_le_bytes()).collect();
    assert_eq!(bytes_to_f32_vec(&s), vec![0.5f32.to_bits(), 8.0f32.to_bits()]);
    assert_eq!(bytes_to_f32_vec(&s[..6]), vec![0.5f32.to_bits()]);
    assert_eq!(bytes_to_f32_vec(&s[..3]), Vec::<u32>::new());
}

#[test]
fn a_block_asked_for_twice_is_the_same() {
    let plain = doubles(&[1.0, 2.0, 3.0, 4.0]);
    let stored = compress_block(&plane_layout(&plain, 8), 5).unwrap();
    let file = container_of(&[(stored, 32)]);
    let mut c = Container::new(&file, 0, file.len(), 1, 1, 5, 8, 1).ok().unwrap();
    assert!(c.cache[0].is_none());
    let first = c.block_bytes(0).ok().unwrap().to_vec();
    assert!(c.cache[0].is_some());
    let kept = c.cache[0].as_ref().unwrap().as_ptr();
    let second = c.block_bytes(0).ok().unwrap().to_vec();
    assert_eq!(first, second);
    assert_eq!(first, plain);
    assert_eq!(c.cache[0].as_ref().unwrap().as_ptr(), kept);
    let stream = zstd::stream::encode_all(&plane_layout(&plain, 8)[..], 3).unwrap();
    let file = container_of(&[(stream, 32)]);
    let mut r = ContainerReader::new(&file, 1, 8, 3, 1).ok().unwrap();
    assert!(r.cache[0].is_none());
    let first = r.block_bytes(0).ok().unwrap().to_vec();
    let kept = r.cache[0].as_ref().unwrap().as_ptr();
    let second = r.block_bytes(0).ok().unwrap().to_vec();
    assert_eq!(first, second);
    assert_eq!(r.cache[0].as_ref().unwrap().as_ptr(), kept);
}
