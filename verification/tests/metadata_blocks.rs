use octo::cv_table::CvTable;
use octo::error::{DecodeError, EncodeError, ErrorKind};
use octo::global::{decode_global_meta_structs, take_params, GlobalSections};
use octo::interner::{NumberTable, TextTable};
use octo::meta_encode::{code_and_tail, encode_meta_block};
use octo::meta_writer::{write_meta_block, MetaColumns};
use octo::metadata::{cv_name_from_code, decode_meta_block, MetaShape, Regions};
use octo::params::{CvParam, ParamValue};

fn table() -> CvTable {
    let mut t = CvTable::new();
    t.insert("MS:1000511", "ms level".to_string());
    t.insert("MS:1000016", "scan start time".to_string());
    t.insert("UO:0000031", "minute".to_string());
    t.insert("NCIT:0012345", "a thesaurus term".to_string());
    t
}

fn term(acc: &str, value: ParamValue) -> CvParam {
    let mut p = CvParam::empty();
    p.accession = Some(acc.to_string());
    p.value = value;
    p
}

fn num(x: f64) -> ParamValue {
    ParamValue::Number(x.to_bits())
}

fn text(s: &str) -> ParamValue {
    ParamValue::Text(s.to_string())
}

/// Reads the `(n+1)` prefix sums at the start of a block.
fn prefix_sums(block: &[u8], items: usize) -> Vec<u32> {
    (0..=items).map(|i| u32::from_le_bytes(block[4 * i..4 * i + 4].try_into().unwrap())).collect()
}

#[test]
fn table_files_names_under_accessions() {
    let mut t = CvTable::new();
    assert_eq!(t.lookup(b"MS:1000511"), None);
    t.insert("MS:1000511", "ms level".to_string());
    t.insert("MS:1000512", "filter string".to_string());
    assert_eq!(t.lookup(b"MS:1000511"), Some(&"ms level".to_string()));
    assert_eq!(t.lookup(b"MS:1000512"), Some(&"filter string".to_string()));
    assert_eq!(t.lookup(b"MS:1000513"), None);
    assert_eq!(t.lookup(b""), None);
    t.insert("MS:1000511", "renamed".to_string());
    assert_eq!(t.lookup(b"MS:1000511"), Some(&"renamed".to_string()));
    assert_eq!(t.lookup(b"MS:1000512"), Some(&"filter string".to_string()));
    t.insert("", "empty key".to_string());
    assert_eq!(t.lookup(b""), Some(&"empty key".to_string()));
}

#[test]
fn table_holds_many_names() {
    let mut t = CvTable::new();
    for i in 0..2000u32 {
        t.insert(&format!("MS:{:07}", i), format!("term {i}"));
    }
    for i in 0..2000u32 {
        assert_eq!(t.lookup(format!("MS:{:07}", i).as_bytes()), Some(&format!("term {i}")));
    }
    assert_eq!(t.lookup(b"MS:0002000"), None);
}

#[test]
fn names_are_looked_up_by_prefix_and_tail() {
    let t = table();
    assert_eq!(cv_name_from_code(Some("MS"), 1000511, &t), Some("ms level".to_string()));
    assert_eq!(cv_name_from_code(Some("UO"), 31, &t), Some("minute".to_string()));
    assert_eq!(cv_name_from_code(Some("NCIT"), 12345, &t), Some("a thesaurus term".to_string()));
    assert_eq!(cv_name_from_code(Some("MS"), 1000512, &t), None);
    assert_eq!(cv_name_from_code(Some("UO"), 1000511, &t), None);
    assert_eq!(cv_name_from_code(None, 1000511, &t), None);
    assert_eq!(cv_name_from_code(Some("MS"), 0, &t), None);
}

#[test]
fn regions_of_a_block_follow_each_other() {
    let s = MetaShape { item_count: 2, meta_count: 3, num_count: 1, str_count: 2 };
    let g = Regions::locate(s, 100).unwrap();
    assert_eq!(g.ref_codes, 12);
    assert_eq!(g.accessions, 15);
    assert_eq!(g.unit_refs, 27);
    assert_eq!(g.unit_accessions, 30);
    assert_eq!(g.value_kinds, 42);
    assert_eq!(g.value_indices, 45);
    assert_eq!(g.numeric_values, 57);
    assert_eq!(g.string_offsets, 65);
    assert_eq!(g.string_lengths, 73);
    assert_eq!(g.strings_data, 81);
    assert!(Regions::locate(s, 81).is_some());
    assert!(Regions::locate(s, 80).is_none());
    let big = MetaShape { item_count: u32::MAX, meta_count: u32::MAX, num_count: u32::MAX, str_count: u32::MAX };
    assert!(Regions::locate(big, 1 << 20).is_none());
    let none = MetaShape { item_count: 0, meta_count: 0, num_count: 0, str_count: 0 };
    assert_eq!(Regions::locate(none, 4).unwrap().strings_data, 4);
    assert!(Regions::locate(none, 3).is_none());
}

#[test]
fn accessions_split_into_code_and_tail() {
    assert_eq!(code_and_tail(&Some("MS:1000511".to_string())), (0, 1000511));
    assert_eq!(code_and_tail(&Some("UO:0000031".to_string())), (1, 31));
    assert_eq!(code_and_tail(&Some("NCIT:C12345".to_string())), (2, 12345));
    assert_eq!(code_and_tail(&Some("PEFF:0000042".to_string())), (3, 42));
    assert_eq!(code_and_tail(&Some("B000:9900001".to_string())), (0xff, 9900001));
    assert_eq!(code_and_tail(&Some("9900001".to_string())), (0xff, 9900001));
    assert_eq!(code_and_tail(&Some("lab:note".to_string())), (0xff, 0));
    assert_eq!(code_and_tail(&Some(String::new())), (0xff, 0));
    assert_eq!(code_and_tail(&None), (0xff, 0));
}

#[test]
fn numbers_are_interned_once() {
    let mut t = NumberTable::new();
    assert_eq!(t.intern(7), Some(0));
    assert_eq!(t.intern(9), Some(1));
    assert_eq!(t.intern(7), Some(0));
    assert_eq!(t.intern(0), Some(2));
    assert_eq!(t.intern(9), Some(1));
    assert_eq!(t.as_slice(), &[7, 9, 0]);
    let mut zero = NumberTable::new();
    assert_eq!(zero.as_slice(), &[] as &[u64]);
    assert_eq!(zero.intern(1.0f64.to_bits()), Some(0));
    assert_eq!(zero.intern((-1.0f64).to_bits()), Some(1));
}

#[test]
fn texts_are_interned_once() {
    let mut t = TextTable::new();
    assert_eq!(t.intern(b"abc"), Some(0));
    assert_eq!(t.intern(b""), Some(1));
    assert_eq!(t.intern(b"abd"), Some(2));
    assert_eq!(t.intern(b"abc"), Some(0));
    assert_eq!(t.intern(b""), Some(1));
    assert_eq!(t.as_slice(), &[b"abc".to_vec(), b"".to_vec(), b"abd".to_vec()]);
    for i in 0..500u32 {
        assert_eq!(t.intern(format!("text {i}").as_bytes()), Some(3 + i));
    }
    for i in 0..500u32 {
        assert_eq!(t.intern(format!("text {i}").as_bytes()), Some(3 + i));
    }
    assert_eq!(t.as_slice().len(), 503);
}

#[test]
fn columns_are_written_region_by_region() {
    let c = MetaColumns {
        item_indices: vec![0, 1, 2],
        codes: vec![0, 0xff],
        tails: vec![1000511, 0],
        unit_codes: vec![1, 0xff],
        unit_tails: vec![31, 0],
        kinds: vec![0, 1],
        indices: vec![0, 0],
        numbers: vec![2.0f64.to_bits()],
        text_offsets: vec![0],
        text_lengths: vec![2],
        text_data: b"ab".to_vec(),
    };
    let mut want = Vec::new();
    for x in [0u32, 1, 2] {
        want.extend_from_slice(&x.to_le_bytes());
    }
    want.extend_from_slice(&[0, 0xff]);
    want.extend_from_slice(&1000511u32.to_le_bytes());
    want.extend_from_slice(&0u32.to_le_bytes());
    want.extend_from_slice(&[1, 0xff]);
    want.extend_from_slice(&31u32.to_le_bytes());
    want.extend_from_slice(&0u32.to_le_bytes());
    want.extend_from_slice(&[0, 1]);
    want.extend_from_slice(&0u32.to_le_bytes());
    want.extend_from_slice(&0u32.to_le_bytes());
    want.extend_from_slice(&2.0f64.to_le_bytes());
    want.extend_from_slice(&0u32.to_le_bytes());
    want.extend_from_slice(&2u32.to_le_bytes());
    want.extend_from_slice(b"ab");
    assert_eq!(write_meta_block(&c), want);
    let t = table();
    let items = decode_meta_block(&want, 2, 2, 1, 1, &t).unwrap();
    assert_eq!(items.len(), 2);
    assert_eq!(items[0][0].accession.as_deref(), Some("MS:1000511"));
    assert_eq!(items[0][0].name, "ms level");
    assert_eq!(items[0][0].value, num(2.0));
    assert_eq!(items[0][0].unit_accession.as_deref(), Some("UO:0000031"));
    assert_eq!(items[0][0].unit_cv_ref.as_deref(), Some("UO"));
    assert_eq!(items[0][0].unit_name.as_deref(), Some("minute"));
    assert_eq!(items[1][0].accession, None);
    assert_eq!(items[1][0].cv_ref, None);
    assert_eq!(items[1][0].value, text("ab"));
}

#[test]
fn encoded_block_shares_equal_values() {
    let items = vec![
        vec![term("MS:1000511", num(1.0)), term("MS:1000016", text("x"))],
        vec![],
        vec![term("MS:1000511", num(1.0)), term("MS:1000016", text("x")), term("MS:1000016", text("y"))],
        vec![term("MS:1000511", num(2.0)), term("MS:1000130", ParamValue::Empty)],
    ];
    let e = encode_meta_block(&items).unwrap();
    assert_eq!(e.meta_count, 7);
    assert_eq!(e.num_count, 2);
    assert_eq!(e.str_count, 2);
    assert_eq!(prefix_sums(&e.bytes, 4), vec![0, 2, 2, 5, 7]);
    let g = Regions::locate(
        MetaShape { item_count: 4, meta_count: 7, num_count: 2, str_count: 2 },
        e.bytes.len(),
    )
    .unwrap();
    assert_eq!(&e.bytes[g.value_kinds..g.value_kinds + 7], &[0, 1, 0, 1, 1, 0, 2]);
    let idx: Vec<u32> = (0..7)
        .map(|m| u32::from_le_bytes(e.bytes[g.value_indices + 4 * m..g.value_indices + 4 * m + 4].try_into().unwrap()))
        .collect();
    assert_eq!(idx, vec![0, 0, 0, 0, 1, 1, 0]);
    assert_eq!(&e.bytes[g.strings_data..], b"xy");
    assert_eq!(e.bytes.len(), g.strings_data + 2);
}

#[test]
fn encoded_block_decodes_to_what_went_in() {
    let t = table();
    let mut timed = term("MS:1000016", num(5.8905));
    timed.unit_accession = Some("UO:0000031".to_string());
    let items = vec![
        vec![term("MS:1000511", text("2")), timed],
        vec![],
        vec![term("NCIT:C12345", ParamValue::Empty), term("9900001", text("é"))],
    ];
    let e = encode_meta_block(&items).unwrap();
    let back = decode_meta_block(&e.bytes, 3, e.meta_count, e.num_count, e.str_count, &t).unwrap();
    assert_eq!(back.len(), 3);
    assert_eq!(back[0].len(), 2);
    assert_eq!(back[0][0].accession.as_deref(), Some("MS:1000511"));
    assert_eq!(back[0][0].cv_ref.as_deref(), Some("MS"));
    assert_eq!(back[0][0].name, "ms level");
    assert_eq!(back[0][0].value, text("2"));
    assert_eq!(back[0][1].value, num(5.8905));
    assert_eq!(back[0][1].name, "scan start time");
    assert_eq!(back[0][1].unit_name.as_deref(), Some("minute"));
    assert!(back[1].is_empty());
    assert_eq!(back[2][0].accession.as_deref(), Some("NCIT:C12345"));
    assert_eq!(back[2][0].name, "a thesaurus term");
    assert_eq!(back[2][0].value, ParamValue::Empty);
    assert_eq!(back[2][1].accession.as_deref(), Some("9900001"));
    assert_eq!(back[2][1].cv_ref, None);
    assert_eq!(back[2][1].value, text("é"));
}

#[test]
fn block_of_no_items_is_one_zero() {
    let e = encode_meta_block(&vec![]).unwrap();
    assert_eq!(e.bytes, vec![0, 0, 0, 0]);
    assert_eq!((e.meta_count, e.num_count, e.str_count), (0, 0, 0));
    let t = table();
    assert_eq!(decode_meta_block(&e.bytes, 0, 0, 0, 0, &t), Ok(vec![]));
    assert_eq!(decode_meta_block(&[], 0, 0, 0, 0, &t), Ok(vec![]));
}

#[test]
fn damaged_blocks_are_refused() {
    let t = table();
    let items = vec![vec![term("MS:1000511", num(1.0)), term("MS:1000016", text("abc"))]];
    let e = encode_meta_block(&items).unwrap();
    let ok = decode_meta_block(&e.bytes, 1, 2, 1, 1, &t);
    assert!(ok.is_ok());
    let cut = decode_meta_block(&e.bytes[..e.bytes.len() - 1], 1, 2, 1, 1, &t).unwrap_err();
    assert_eq!(cut, DecodeError::ValueIndexOutOfRange);
    let short = decode_meta_block(&e.bytes[..10], 1, 2, 1, 1, &t).unwrap_err();
    assert_eq!(short.kind(), ErrorKind::Truncated);
    let g = Regions::locate(
        MetaShape { item_count: 1, meta_count: 2, num_count: 1, str_count: 1 },
        e.bytes.len(),
    )
    .unwrap();
    let mut dangling = e.bytes.clone();
    dangling[g.value_indices] = 1;
    assert_eq!(decode_meta_block(&dangling, 1, 2, 1, 1, &t), Err(DecodeError::ValueIndexOutOfRange));
    let mut dangling = e.bytes.clone();
    dangling[g.value_indices + 4] = 1;
    assert_eq!(decode_meta_block(&dangling, 1, 2, 1, 1, &t), Err(DecodeError::ValueIndexOutOfRange));
    assert_eq!(DecodeError::ValueIndexOutOfRange.kind(), ErrorKind::BadMetadata);
    let mut sums = e.bytes.clone();
    sums[0] = 1;
    sums[4] = 0;
    assert_eq!(decode_meta_block(&sums, 1, 2, 1, 1, &t), Err(DecodeError::ItemIndexNotMonotonic));
    let mut sums = e.bytes.clone();
    sums[4] = 1;
    assert_eq!(decode_meta_block(&sums, 1, 2, 1, 1, &t), Err(DecodeError::ItemIndexNotMonotonic));
    assert_eq!(DecodeError::ItemIndexNotMonotonic.kind(), ErrorKind::BadMetadata);
    let mut bad_text = e.bytes.clone();
    bad_text[g.strings_data] = 0xff;
    assert_eq!(decode_meta_block(&bad_text, 1, 2, 1, 1, &t), Err(DecodeError::InvalidUtf8));
    assert_eq!(DecodeError::InvalidUtf8.kind(), ErrorKind::BadMetadata);
}

#[test]
fn global_sections_are_cut_by_their_counts() {
    let t = table();
    let items = vec![
        vec![term("MS:1000580", ParamValue::Empty)],
        vec![term("MS:1000511", num(1.0))],
        vec![term("MS:1000511", num(2.0))],
        vec![term("MS:1000031", text("instrument"))],
        vec![term("MS:1000531", text("software"))],
        vec![term("MS:1000544", ParamValue::Empty)],
        vec![term("MS:1000016", num(3.0))],
        vec![
            term("9900001", text("MS")),
            term("9900002", text("Proteomics Standards Initiative")),
            term("9900003", text("4.1.0")),
            term("9900004", text("https://example.org/ms.obo")),
        ],
        vec![term("9900001", text("UO"))],
    ];
    let e = encode_meta_block(&items).unwrap();
    let mut bytes = Vec::new();
    for c in [1u32, 0, 2, 1, 1, 1, 1, 2] {
        bytes.extend_from_slice(&c.to_le_bytes());
    }
    bytes.extend_from_slice(&e.bytes);
    let g = decode_global_meta_structs(&bytes, e.meta_count, e.num_count, e.str_count, &t).unwrap();
    assert_eq!(g.file_description.file_content.cv_params.len(), 1);
    assert_eq!(g.file_description.file_content.cv_params[0].accession.as_deref(), Some("MS:1000580"));
    assert_eq!(g.referenceable_param_group_list, None);
    let samples = g.sample_list.unwrap();
    assert_eq!(samples.count, Some(2));
    assert_eq!(samples.samples[0].cv_params[0].value, num(1.0));
    assert_eq!(samples.samples[1].cv_params[0].value, num(2.0));
    let inst = g.instrument_list.unwrap();
    assert_eq!(inst.count, Some(1));
    assert_eq!(inst.instrument[0].cv_param[0].value, text("instrument"));
    let soft = g.software_list.unwrap();
    assert_eq!(soft.software[0].cv_param[0].value, text("software"));
    let dp = g.data_processing_list.unwrap();
    assert_eq!(dp.data_processing[0].processing_method.len(), 1);
    assert_eq!(dp.data_processing[0].processing_method[0].cv_param[0].accession.as_deref(), Some("MS:1000544"));
    let acq = g.scan_settings_list.unwrap();
    assert_eq!(acq.scan_settings[0].cv_params[0].value, num(3.0));
    let cvs = g.cv_list.unwrap();
    assert_eq!(cvs.count, Some(2));
    assert_eq!(cvs.cv[0].id, text("MS"));
    assert_eq!(cvs.cv[0].full_name, text("Proteomics Standards Initiative"));
    assert_eq!(cvs.cv[0].version, text("4.1.0"));
    assert_eq!(cvs.cv[0].uri, text("https://example.org/ms.obo"));
    assert_eq!(cvs.cv[1].id, text("UO"));
    assert_eq!(cvs.cv[1].version, ParamValue::Empty);
}

#[test]
fn short_global_metadata_stands_for_none() {
    let t = table();
    assert_eq!(decode_global_meta_structs(&[], 0, 0, 0, &t), Ok(GlobalSections::empty()));
    assert_eq!(decode_global_meta_structs(&[0u8; 31], 5, 5, 5, &t), Ok(GlobalSections::empty()));
}

#[test]
fn global_counts_must_fit_the_block() {
    let t = table();
    let mut bytes = Vec::new();
    for c in [u32::MAX, 1, 0, 0, 0, 0, 0, 0] {
        bytes.extend_from_slice(&c.to_le_bytes());
    }
    let e = decode_global_meta_structs(&bytes, 0, 0, 0, &t).unwrap_err();
    assert_eq!(e, DecodeError::TooManyItems);
    assert_eq!(e.kind(), ErrorKind::BadMetadata);
    let mut bytes = Vec::new();
    for c in [1u32, 0, 0, 0, 0, 0, 0, 1] {
        bytes.extend_from_slice(&c.to_le_bytes());
    }
    bytes.extend_from_slice(&[0, 0, 0, 0]);
    let e = decode_global_meta_structs(&bytes, 0, 0, 0, &t).unwrap_err();
    assert_eq!(e.kind(), ErrorKind::Truncated);
}

#[test]
fn parameters_are_taken_out_of_their_item() {
    let mut items = vec![vec![term("MS:1", num(1.0))], vec![term("MS:2", num(2.0)), term("MS:3", num(3.0))]];
    let got = take_params(&mut items, 1);
    assert_eq!(got.len(), 2);
    assert_eq!(got[1].accession.as_deref(), Some("MS:3"));
    assert_eq!(items.len(), 2);
    assert_eq!(items[0].len(), 1);
    assert!(items[1].is_empty());
}

#[test]
fn encode_errors_read_as_text() {
    assert_eq!(EncodeError::TooLarge.message(), "count does not fit its field");
}

#[test]
fn records_that_no_item_owns_are_refused() {
    let t = table();
    let mut block = Vec::new();
    block.extend_from_slice(&1u32.to_le_bytes());
    block.push(0);
    block.extend_from_slice(&1000511u32.to_le_bytes());
    block.push(0xff);
    block.extend_from_slice(&0u32.to_le_bytes());
    block.push(0);
    block.extend_from_slice(&9u32.to_le_bytes());
    assert_eq!(decode_meta_block(&block, 0, 1, 0, 0, &t), Err(DecodeError::ItemIndexNotMonotonic));
    let items = vec![vec![term("MS:1000511", num(1.0))]];
    let e = encode_meta_block(&items).unwrap();
    let mut shifted = e.bytes.clone();
    shifted[0] = 1;
    assert_eq!(decode_meta_block(&shifted, 1, 1, 1, 0, &t), Err(DecodeError::ItemIndexNotMonotonic));
    assert!(decode_meta_block(&e.bytes, 1, 1, 1, 0, &t).is_ok());
}

#[test]
fn empty_block_must_claim_nothing() {
    let t = table();
    assert_eq!(decode_meta_block(&[], 0, 0, 0, 0, &t), Ok(vec![]));
    assert_eq!(decode_meta_block(&[], 0, 1, 0, 0, &t), Err(DecodeError::UnexpectedEnd));
    assert_eq!(decode_meta_block(&[], 0, 0, 1, 0, &t), Err(DecodeError::UnexpectedEnd));
    assert_eq!(decode_meta_block(&[], 0, 0, 0, 1, &t), Err(DecodeError::UnexpectedEnd));
    assert_eq!(decode_meta_block(&[], 1, 0, 0, 0, &t), Err(DecodeError::UnexpectedEnd));
    assert_eq!(decode_meta_block(&[0, 0, 0], 0, 0, 0, 0, &t), Err(DecodeError::UnexpectedEnd));
    assert_eq!(DecodeError::UnexpectedEnd.kind(), ErrorKind::Truncated);
}
