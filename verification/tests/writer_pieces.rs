use octo::container::Container;
use octo::container_writer::store_blocks;
use octo::error::{DecodeError, EncodeError, ErrorKind};
use octo::file_writer::{
    encode_flat, make_containers, make_metas, store_meta, write_container, write_index, FlatFile,
};
use octo::global::GlobalCounts;
use octo::header::{parse_header, Header};
use octo::header_writer::write_header;
use octo::packing::pack_arrays;
use octo::params::{CvParam, ParamValue};
use octo::reader::parse_chrom_index;

fn doubles(xs: &[f64]) -> Vec<u8> {
    xs.iter().flat_map(|x| x.to_le_bytes()).collect()
}

fn no_counts() -> GlobalCounts {
    GlobalCounts { n_fd: 0, n_rpg: 0, n_samp: 0, n_inst: 0, n_soft: 0, n_dp: 0, n_acq: 0, n_cvs: 0 }
}

fn flat(xs: Vec<Vec<u8>>, ys: Vec<Vec<u8>>, fmt: u8) -> FlatFile {
    FlatFile {
        spec_params: xs.iter().map(|_| Vec::new()).collect(),
        spec_x: xs,
        spec_y: ys,
        chrom_params: vec![],
        chrom_x: vec![],
        chrom_y: vec![],
        counts: no_counts(),
        global_items: vec![],
        fmt,
    }
}

fn sample_header() -> Header {
    Header {
        off_spec_index: 192,
        off_chrom_index: 0x0102_0304_0506_0708,
        off_spec_meta: 3,
        off_chrom_meta: 4,
        off_global_meta: 5,
        size_container_spect_x: 6,
        off_container_spect_x: 7,
        size_container_spect_y: 8,
        off_container_spect_y: 9,
        size_container_chrom_x: 10,
        off_container_chrom_x: 11,
        size_container_chrom_y: 12,
        off_container_chrom_y: u64::MAX,
        spectrum_count: 13,
        chrom_count: 14,
        spec_meta_count: 15,
        spec_num_count: 16,
        spec_str_count: 17,
        chrom_meta_count: 18,
        chrom_num_count: 19,
        chrom_str_count: 20,
        global_meta_count: 21,
        global_num_count: 22,
        global_str_count: 23,
        block_count_spect_x: 24,
        block_count_spect_y: 25,
        block_count_chrom_x: 26,
        block_count_chrom_y: u32::MAX,
        codec_flags: 0x71,
        chrom_x_fmt: 2,
        chrom_y_fmt: 1,
        spect_x_fmt: 2,
        spect_y_fmt: 1,
        compression_level: 9,
        array_filter: 1,
    }
}

#[test]
fn header_is_written_as_it_is_read() {
    let h = sample_header();
    let b = write_header(&h);
    assert_eq!(b.len(), 192);
    assert_eq!(&b[..4], b"B000");
    assert_eq!(b[4], 0);
    assert_eq!(&b[8..16], &192u64.to_le_bytes());
    assert_eq!(&b[16..24], &0x0102_0304_0506_0708u64.to_le_bytes());
    assert_eq!(&b[112..116], &13u32.to_le_bytes());
    assert_eq!(&b[168..172], &u32::MAX.to_le_bytes());
    assert_eq!(&b[172..179], &[0x71, 2, 1, 2, 1, 9, 1]);
    assert!(b[179..].iter().all(|x| *x == 0));
    assert_eq!(parse_header(&b), Ok(h));
}

#[test]
fn header_flags_are_told_apart() {
    let h = sample_header();
    assert_eq!(h.codec(), 1);
    assert!(h.has_flag(0x10));
    assert!(h.has_flag(0x20));
    assert!(h.has_flag(0x40));
    assert!(!h.has_flag(0x80));
    let mut raw = h;
    raw.codec_flags = 0x20;
    assert_eq!(raw.codec(), 0);
    assert!(!raw.has_flag(0x10));
    assert!(raw.has_flag(0x20));
}

#[test]
fn header_needs_its_tag_and_byte_order() {
    let b = write_header(&sample_header());
    assert_eq!(parse_header(&b[..191]), Err(DecodeError::ShortHeader));
    assert_eq!(parse_header(&[]), Err(DecodeError::ShortHeader));
    assert_eq!(DecodeError::ShortHeader.kind(), ErrorKind::Truncated);
    for i in 0..4 {
        let mut bad = b.clone();
        bad[i] ^= 1;
        assert_eq!(parse_header(&bad), Err(DecodeError::WrongMagic));
    }
    let mut bad = b.clone();
    bad[4] = 1;
    assert_eq!(parse_header(&bad), Err(DecodeError::WrongEndianness));
    assert_eq!(DecodeError::WrongMagic.kind(), ErrorKind::BadMagic);
    assert_eq!(DecodeError::WrongEndianness.kind(), ErrorKind::BadMagic);
    let mut longer = b.clone();
    longer.extend_from_slice(&[1, 2, 3]);
    assert_eq!(parse_header(&longer), Ok(sample_header()));
}

#[test]
fn small_arrays_share_a_block() {
    let arrays = vec![doubles(&[1.0, 2.0]), doubles(&[]), doubles(&[3.0])];
    let p = pack_arrays(&arrays, 8).unwrap();
    assert_eq!(p.blocks, vec![doubles(&[1.0, 2.0, 3.0])]);
    assert_eq!(p.entries, vec![(0, 2, 0), (2, 0, 0), (2, 1, 0)]);
    let none = pack_arrays(&vec![], 8).unwrap();
    assert!(none.blocks.is_empty() && none.entries.is_empty());
    let empty = pack_arrays(&vec![vec![], vec![]], 4).unwrap();
    assert_eq!(empty.blocks, vec![Vec::<u8>::new()]);
    assert_eq!(empty.entries, vec![(0, 0, 0), (0, 0, 0)]);
}

#[test]
fn a_block_is_closed_at_the_threshold() {
    let big = vec![7u8; 1 << 20];
    let small = vec![1u8; 8];
    let arrays = vec![small.clone(), big.clone(), small.clone(), small.clone(), big.clone()];
    let p = pack_arrays(&arrays, 8).unwrap();
    assert_eq!(p.blocks.len(), 2);
    assert_eq!(p.blocks[0].len(), 8 + (1 << 20));
    assert_eq!(p.blocks[1].len(), 16 + (1 << 20));
    assert_eq!(
        p.entries,
        vec![
            (0, 1, 0),
            (1, 131072, 0),
            (131073, 1, 1),
            (131074, 1, 1),
            (131075, 131072, 1),
        ]
    );
    let exact = pack_arrays(&vec![big.clone(), small.clone()], 8).unwrap();
    assert_eq!(exact.blocks.len(), 2);
    assert_eq!(exact.entries, vec![(0, 131072, 0), (131072, 1, 1)]);
    let alone = pack_arrays(&vec![big], 8).unwrap();
    assert_eq!(alone.blocks.len(), 1);
    assert_eq!(alone.entries, vec![(0, 131072, 0)]);
}

#[test]
fn arrays_that_cannot_be_packed_are_refused() {
    assert_eq!(pack_arrays(&vec![vec![0u8; 8]], 0).err(), Some(EncodeError::BadElementSize));
    assert_eq!(pack_arrays(&vec![], 0).err(), Some(EncodeError::BadElementSize));
    assert_eq!(pack_arrays(&vec![vec![0u8; 8], vec![0u8; 7]], 8).err(), Some(EncodeError::RaggedArray));
    assert_eq!(pack_arrays(&vec![vec![0u8; 6]], 4).err(), Some(EncodeError::RaggedArray));
    assert!(pack_arrays(&vec![vec![0u8; 6]], 3).is_ok());
}

#[test]
fn raw_blocks_are_stored_behind_their_directory() {
    let blocks = vec![doubles(&[1.0, 2.0]), doubles(&[3.0])];
    let bytes = store_blocks(&blocks, 8, 0, 0).unwrap();
    let mut want = Vec::new();
    for (off, len) in [(0u64, 16u64), (16, 8)] {
        want.extend_from_slice(&off.to_le_bytes());
        want.extend_from_slice(&len.to_le_bytes());
        want.extend_from_slice(&len.to_le_bytes());
        want.extend_from_slice(&0u64.to_le_bytes());
    }
    want.extend_from_slice(&blocks[0]);
    want.extend_from_slice(&blocks[1]);
    assert_eq!(bytes, want);
    assert_eq!(store_blocks(&vec![], 8, 0, 0), Ok(vec![]));
    assert_eq!(store_blocks(&vec![vec![0u8; 5]], 4, 0, 0), Err(EncodeError::RaggedArray));
}

#[test]
fn shuffled_raw_blocks_are_stored_in_planes() {
    let block = vec![0x11u8, 0x12, 0x21, 0x22, 0x31, 0x32];
    let bytes = store_blocks(&vec![block.clone()], 2, 0, 1).unwrap();
    assert_eq!(&bytes[32..], &[0x11, 0x21, 0x31, 0x12, 0x22, 0x32]);
    let mut c = Container::new(&bytes, 0, bytes.len(), 1, 1, 0, 2, 1).ok().unwrap();
    assert_eq!(c.block_bytes(0).ok().unwrap(), &block[..]);
    let plain = store_blocks(&vec![block.clone()], 1, 0, 1).unwrap();
    assert_eq!(&plain[32..], &block[..]);
}

#[test]
fn compressed_blocks_open_again() {
    let blocks = vec![doubles(&[1.0, 2.0, 3.0, 4.0]), doubles(&[]), doubles(&[5.0])];
    for (level, filter) in [(1u8, 1u8), (7, 0), (22, 1)] {
        let bytes = store_blocks(&blocks, 8, level, filter).unwrap();
        let mut c = Container::new(&bytes, 0, bytes.len(), 3, 1, level, 8, filter).ok().unwrap();
        assert_eq!(c.block_bytes(0).ok().unwrap(), &blocks[0][..]);
        assert_eq!(c.block_bytes(1).ok().unwrap(), &blocks[1][..]);
        assert_eq!(c.block_bytes(2).ok().unwrap(), &blocks[2][..]);
        assert_eq!(c.slice_elems(2, 4, 1).ok().unwrap(), &blocks[2][..]);
    }
}

#[test]
fn container_is_packed_and_stored() {
    let arrays = vec![doubles(&[1.0, 2.0]), doubles(&[3.0])];
    let c = write_container(&arrays, 8, 0).unwrap();
    assert_eq!(c.block_count, 1);
    assert_eq!(c.entries, vec![(0, 2, 0), (2, 1, 0)]);
    assert_eq!(c.bytes, store_blocks(&vec![doubles(&[1.0, 2.0, 3.0])], 8, 0, 0).unwrap());
    let z = write_container(&arrays, 8, 4).unwrap();
    assert_eq!(z.entries, c.entries);
    let mut opened = Container::new(&z.bytes, 0, z.bytes.len(), 1, 1, 4, 8, 1).ok().unwrap();
    assert_eq!(opened.slice_elems(0, 2, 1).ok().unwrap(), &doubles(&[3.0])[..]);
    let none = write_container(&vec![], 8, 0).unwrap();
    assert_eq!(none.block_count, 0);
    assert!(none.bytes.is_empty() && none.entries.is_empty());
    assert_eq!(write_container(&vec![vec![1u8; 9]], 8, 0).err(), Some(EncodeError::RaggedArray));
}

#[test]
fn index_entries_are_32_bytes_each() {
    let xs = vec![(1u64, 2u32, 3u32), (7, 8, 9)];
    let ys = vec![(4u64, 5u32, 6u32), (10, 11, 12)];
    let b = write_index(&xs, &ys);
    assert_eq!(b.len(), 64);
    let mut want = Vec::new();
    want.extend_from_slice(&1u64.to_le_bytes());
    want.extend_from_slice(&4u64.to_le_bytes());
    want.extend_from_slice(&2u32.to_le_bytes());
    want.extend_from_slice(&5u32.to_le_bytes());
    want.extend_from_slice(&3u32.to_le_bytes());
    want.extend_from_slice(&6u32.to_le_bytes());
    assert_eq!(&b[..32], &want[..]);
    assert_eq!(&b[32..40], &7u64.to_le_bytes());
    assert_eq!(&b[60..64], &12u32.to_le_bytes());
    assert!(write_index(&vec![], &vec![]).is_empty());
}

#[test]
fn chromatogram_index_is_read_from_the_file() {
    let mut h = sample_header();
    h.off_chrom_index = 5;
    h.chrom_count = 2;
    let mut file = vec![0xaau8; 5];
    file.extend(write_index(&vec![(1, 2, 3), (7, 8, 9)], &vec![(4, 5, 6), (10, 11, 12)]));
    let got = parse_chrom_index(&file, &h).unwrap();
    assert_eq!(got.len(), 2);
    assert_eq!(got[0].time_element_off, 1);
    assert_eq!(got[0].inten_element_off, 4);
    assert_eq!(got[0].time_element_len, 2);
    assert_eq!(got[0].inten_element_len, 5);
    assert_eq!(got[0].time_block_id, 3);
    assert_eq!(got[0].inten_block_id, 6);
    assert_eq!(got[1].time_element_off, 7);
    assert_eq!(got[1].inten_block_id, 12);
    assert_eq!(parse_chrom_index(&file[..file.len() - 1], &h).err(), Some(DecodeError::UnexpectedEnd));
    h.chrom_count = 0;
    assert_eq!(parse_chrom_index(&file, &h).unwrap(), vec![]);
    h.off_chrom_index = 1000;
    assert_eq!(parse_chrom_index(&file, &h).err(), Some(DecodeError::UnexpectedEnd));
}

#[test]
fn metadata_is_stored_raw_at_level_zero() {
    let plain = b"a metadata block, a metadata block".to_vec();
    assert_eq!(store_meta(plain.clone(), 0), Some(plain.clone()));
    let z = store_meta(plain.clone(), 3).unwrap();
    assert_ne!(z, plain);
    assert_eq!(zstd::stream::decode_all(&z[..]).unwrap(), plain);
    assert_eq!(store_meta(vec![], 0), Some(vec![]));
}

#[test]
fn containers_and_indices_of_a_file_are_made() {
    let f = flat(
        vec![doubles(&[1.0, 2.0]), doubles(&[3.0])],
        vec![doubles(&[4.0, 5.0]), doubles(&[6.0])],
        2,
    );
    let p = make_containers(&f, 0).unwrap();
    assert_eq!(p.block_counts, (1, 1, 0, 0));
    assert_eq!(p.spect_x, write_container(&f.spec_x, 8, 0).unwrap().bytes);
    assert_eq!(p.spect_y, write_container(&f.spec_y, 8, 0).unwrap().bytes);
    assert!(p.chrom_x.is_empty() && p.chrom_y.is_empty() && p.chrom_index.is_empty());
    assert_eq!(p.spec_index, write_index(&vec![(0, 2, 0), (2, 1, 0)], &vec![(0, 2, 0), (2, 1, 0)]));
    let ragged = flat(vec![vec![0u8; 8]], vec![vec![0u8; 4]], 2);
    assert_eq!(make_containers(&ragged, 0).err(), Some(EncodeError::RaggedArray));
    let narrow = flat(vec![vec![0u8; 8]], vec![vec![0u8; 4]], 1);
    assert_eq!(make_containers(&narrow, 0).unwrap().block_counts, (1, 1, 0, 0));
}

#[test]
fn metadata_regions_of_a_file_are_made() {
    let mut f = flat(vec![vec![]], vec![vec![]], 2);
    let mut p = CvParam::empty();
    p.accession = Some("MS:1000511".to_string());
    p.value = ParamValue::Number(1.0f64.to_bits());
    f.spec_params = vec![vec![p]];
    f.counts.n_fd = 1;
    f.global_items = vec![vec![]];
    let m = make_metas(&f, 0).unwrap();
    assert_eq!(m.spec_counts, (1, 1, 0));
    assert_eq!(m.chrom_counts, (0, 0, 0));
    assert_eq!(m.global_counts, (0, 0, 0));
    assert_eq!(m.chrom_meta, vec![0, 0, 0, 0]);
    assert_eq!(m.global_meta.len(), 32 + 8);
    assert_eq!(&m.global_meta[..4], &1u32.to_le_bytes());
    assert_eq!(&m.spec_meta[..8], &[0, 0, 0, 0, 1, 0, 0, 0]);
}

#[test]
fn uneven_input_is_refused() {
    let mut f = flat(vec![vec![]], vec![vec![]], 2);
    f.spec_y.push(vec![]);
    assert_eq!(encode_flat(&f, 0), Err(EncodeError::UnevenParts));
    let mut f = flat(vec![vec![]], vec![vec![]], 2);
    f.spec_params.clear();
    assert_eq!(encode_flat(&f, 0), Err(EncodeError::UnevenParts));
    let mut f = flat(vec![], vec![], 2);
    f.chrom_x.push(vec![]);
    assert_eq!(encode_flat(&f, 0), Err(EncodeError::UnevenParts));
    let mut f = flat(vec![], vec![], 2);
    f.counts.n_samp = 1;
    assert_eq!(encode_flat(&f, 0), Err(EncodeError::UnevenParts));
    let mut f = flat(vec![], vec![], 2);
    f.global_items.push(vec![]);
    assert_eq!(encode_flat(&f, 0), Err(EncodeError::UnevenParts));
    let f = flat(vec![], vec![], 0);
    assert_eq!(encode_flat(&f, 0), Err(EncodeError::BadElementSize));
    let f = flat(vec![], vec![], 3);
    assert_eq!(encode_flat(&f, 0), Err(EncodeError::BadElementSize));
    let f = flat(vec![vec![1u8; 12]], vec![vec![]], 2);
    assert_eq!(encode_flat(&f, 0), Err(EncodeError::RaggedArray));
    let f = flat(vec![vec![1u8; 12]], vec![vec![]], 1);
    assert!(encode_flat(&f, 0).is_ok());
}

#[test]
fn encode_errors_have_their_texts() {
    assert_eq!(EncodeError::BadElementSize.message(), "element size is zero");
    assert_eq!(EncodeError::RaggedArray.message(), "array is not a whole number of elements");
    assert_eq!(EncodeError::TooLarge.message(), "count does not fit its field");
    assert_eq!(EncodeError::CodecFailed.message(), "compression failed");
    assert_eq!(EncodeError::UnevenParts.message(), "parts of the input do not match in length");
}

#[test]
fn decode_errors_have_their_kinds_and_texts() {
    let all = [
        (DecodeError::ShortHeader, ErrorKind::Truncated),
        (DecodeError::UnexpectedEnd, ErrorKind::Truncated),
        (DecodeError::WrongMagic, ErrorKind::BadMagic),
        (DecodeError::WrongEndianness, ErrorKind::BadMagic),
        (DecodeError::MetaOffsets, ErrorKind::InconsistentOffsets),
        (DecodeError::ContainerOffsets, ErrorKind::InconsistentOffsets),
        (DecodeError::UnknownCodec, ErrorKind::BadCompression),
        (DecodeError::CodecFailed, ErrorKind::BadCompression),
        (DecodeError::BlockSizeMismatch, ErrorKind::BadCompression),
        (DecodeError::SizeOverflow, ErrorKind::BadCompression),
        (DecodeError::BadFloatFormat, ErrorKind::BadArrayLayout),
        (DecodeError::BlockIdOutOfRange, ErrorKind::BadArrayLayout),
        (DecodeError::OffsetBeforeBlock, ErrorKind::BadArrayLayout),
        (DecodeError::SliceOutOfBlock, ErrorKind::BadArrayLayout),
        (DecodeError::RaggedElements, ErrorKind::BadArrayLayout),
        (DecodeError::BlockStartUnknown, ErrorKind::BadArrayLayout),
        (DecodeError::ValueIndexOutOfRange, ErrorKind::BadMetadata),
        (DecodeError::ItemIndexNotMonotonic, ErrorKind::BadMetadata),
        (DecodeError::TooManyItems, ErrorKind::BadMetadata),
        (DecodeError::TextOverflow, ErrorKind::BadMetadata),
        (DecodeError::InvalidUtf8, ErrorKind::BadMetadata),
        (DecodeError::UnexpectedElement, ErrorKind::SchemaViolation),
    ];
    for (e, k) in all {
        assert_eq!(e.kind(), k);
        assert!(!e.message().is_empty());
    }
    assert_eq!(DecodeError::BlockSizeMismatch.message(), "block size mismatch");
}

#[test]
fn index_entries_tile_their_blocks() {
    let mut arrays: Vec<Vec<u8>> = Vec::new();
    for i in 0..40usize {
        arrays.push(vec![i as u8; 8 * (i * 5000 % 70001)]);
    }
    let c = write_container(&arrays, 8, 0).unwrap();
    let blocks = c.block_count as usize;
    assert!(blocks > 1);
    let sizes: Vec<u64> = (0..blocks)
        .map(|b| u64::from_le_bytes(c.bytes[32 * b + 16..32 * b + 24].try_into().unwrap()))
        .collect();
    let total: u64 = arrays.iter().map(|a| a.len() as u64 / 8).sum();
    assert_eq!(sizes.iter().map(|s| s / 8).sum::<u64>(), total);
    let mut next = 0u64;
    let mut block_start = vec![0u64; blocks + 1];
    for b in 0..blocks {
        block_start[b + 1] = block_start[b] + sizes[b] / 8;
    }
    for (i, (off, len, block)) in c.entries.iter().enumerate() {
        assert_eq!(*off, next);
        assert_eq!(*len as usize, arrays[i].len() / 8);
        let b = *block as usize;
        assert!(b < blocks);
        assert!(block_start[b] <= *off && off + *len as u64 <= block_start[b + 1]);
        next = off + *len as u64;
    }
    assert_eq!(next, total);
    let mut opened = Container::new(&c.bytes, 0, c.bytes.len(), c.block_count, 1, 0, 8, 0).ok().unwrap();
    for (i, (off, len, block)) in c.entries.iter().enumerate() {
        assert_eq!(opened.slice_elems(*block, *off, *len).ok().unwrap(), &arrays[i][..]);
    }
}
