use std::collections::{HashMap, HashSet};

use octo::array_list::{
    apply_binary_data_array_metadatum, find_tag, inherit_array_length_from_parent,
    new_binary_data_array, parse_binary_data_array, parse_binary_data_array_list,
};
use octo::binary_array::{
    attach_xy_arrays_to_bdal, bda_has_array_kind, decoded_len, ensure_float_flag, find_kind,
    is_y_array, ms_float_param, xy_lengths_from_bdal, ArrayData,
};
use octo::child_index::{key_parent_tag, ordered_unique_owner_ids, ChildIndex};
use octo::cv_table::CvTable;
use octo::metadatum::{
    as_string, as_u32, clone_metadatum, get_attr_text, get_attr_u32, number_as_u32, opt_str,
    value_to_opt_string, value_to_param, Metadatum, MetadatumValue, TagId,
};
use octo::params::{CvParam, ParamValue};
use octo::run::{BinaryDataArray, BinaryDataArrayList, NumericType};
use octo::subtree::collect_subtree_owner_ids;

fn num(x: f64) -> MetadatumValue {
    MetadatumValue::Number { bits: x.to_bits(), text: format!("{x}") }
}

fn text(s: &str) -> MetadatumValue {
    MetadatumValue::Text(s.to_string())
}

fn rec(item: u32, owner: u32, parent: u32, tag: TagId, acc: &str, value: MetadatumValue) -> Metadatum {
    Metadatum {
        item_index: item,
        owner_id: owner,
        parent_index: parent,
        tag_id: tag,
        accession: Some(acc.to_string()),
        unit_accession: None,
        value,
    }
}

fn table() -> CvTable {
    let mut t = CvTable::new();
    t.insert("MS:1000514", "m/z array".to_string());
    t.insert("MS:1000515", "intensity array".to_string());
    t.insert("MS:1000523", "64-bit float".to_string());
    t.insert("UO:0000031", "minute".to_string());
    t
}

fn term(acc: &str) -> CvParam {
    let mut p = CvParam::empty();
    p.cv_ref = Some("MS".to_string());
    p.accession = Some(acc.to_string());
    p
}

fn array_of_kind(acc: &str) -> BinaryDataArray {
    let mut a = new_binary_data_array();
    a.cv_params.push(term(acc));
    a
}

#[test]
fn whole_numbers_below_two_to_the_32_are_counts() {
    for x in [0.0f64, 1.0, 2.0, 3.0, 255.0, 65536.0, 1000514.0, 4294967295.0] {
        assert_eq!(number_as_u32(x.to_bits()), Some(x as u32));
    }
    assert_eq!(number_as_u32((-0.0f64).to_bits()), Some(0));
    for x in [0.5f64, 1.5, -1.0, 4294967296.0, 1e300, f64::NAN, f64::INFINITY, 5e-324, 0.999999] {
        assert_eq!(number_as_u32(x.to_bits()), None);
    }
}

#[test]
fn values_read_as_counts_and_texts() {
    assert_eq!(as_u32(&num(42.0)), Some(42));
    assert_eq!(as_u32(&num(42.5)), None);
    assert_eq!(as_u32(&text("17")), Some(17));
    assert_eq!(as_u32(&text("x17")), None);
    assert_eq!(as_u32(&MetadatumValue::Empty), None);
    assert_eq!(as_string(&num(2.5)), Some("2.5".to_string()));
    assert_eq!(as_string(&text("abc")), Some("abc".to_string()));
    assert_eq!(as_string(&MetadatumValue::Empty), None);
    assert_eq!(value_to_opt_string(&text("")), Some(String::new()));
    assert_eq!(value_to_opt_string(&MetadatumValue::Empty), None);
    assert_eq!(value_to_param(&num(2.5)), ParamValue::Number(2.5f64.to_bits()));
    assert_eq!(value_to_param(&text("abc")), ParamValue::Text("abc".to_string()));
    assert_eq!(value_to_param(&MetadatumValue::Empty), ParamValue::Empty);
    assert_eq!(opt_str(&Some("a".to_string())), Some("a"));
    assert_eq!(opt_str(&None), None);
}

#[test]
fn attributes_are_found_by_their_tail() {
    let a = rec(0, 1, 0, TagId::Spectrum, "MS:1000511", num(2.0));
    let b = rec(0, 1, 0, TagId::Spectrum, "B000:9900001", text("scan=1"));
    let c = rec(0, 1, 0, TagId::Spectrum, "B000:9900006", num(7.0));
    let d = rec(0, 1, 0, TagId::Spectrum, "B000:9900006", text("8"));
    let e = rec(0, 1, 0, TagId::Spectrum, "nocolon", text("x"));
    let f = rec(0, 1, 0, TagId::Spectrum, "B000:9900009", text("late"));
    let rows = [&a, &b, &c, &d, &e, &f];
    assert_eq!(get_attr_text(&rows, 9900001), Some("scan=1".to_string()));
    assert_eq!(get_attr_text(&rows, 9900006), Some("7".to_string()));
    assert_eq!(get_attr_u32(&rows, 9900006), Some(7));
    assert_eq!(get_attr_u32(&rows, 9900001), None);
    assert_eq!(get_attr_text(&rows, 9900009), None);
    assert_eq!(get_attr_text(&rows, 1000511), None);
    assert_eq!(get_attr_text(&[], 9900001), None);
    let copy = clone_metadatum(&b);
    assert_eq!(copy, b);
}

#[test]
fn key_holds_parent_and_kind() {
    assert_eq!(key_parent_tag(0, TagId::MzML), TagId::MzML.code() as u64);
    assert_eq!(key_parent_tag(3, TagId::Spectrum), (3u64 << 8) | TagId::Spectrum.code() as u64);
    assert_eq!(key_parent_tag(u32::MAX, TagId::Cv) >> 8, u32::MAX as u64);
    assert_ne!(key_parent_tag(1, TagId::Cv), key_parent_tag(1, TagId::CvList));
}

#[test]
fn owners_are_listed_once_in_order_of_first_occurrence() {
    let ms = vec![
        rec(0, 9, 1, TagId::Spectrum, "MS:1", MetadatumValue::Empty),
        rec(0, 4, 1, TagId::Spectrum, "MS:2", MetadatumValue::Empty),
        rec(0, 9, 1, TagId::Spectrum, "MS:3", MetadatumValue::Empty),
        rec(0, 2, 1, TagId::Scan, "MS:4", MetadatumValue::Empty),
        rec(1, 6, 1, TagId::Spectrum, "MS:5", MetadatumValue::Empty),
        rec(1, 4, 1, TagId::Spectrum, "MS:6", MetadatumValue::Empty),
    ];
    assert_eq!(ordered_unique_owner_ids(&ms, TagId::Spectrum), vec![9, 4, 6]);
    assert_eq!(ordered_unique_owner_ids(&ms, TagId::Scan), vec![2]);
    assert_eq!(ordered_unique_owner_ids(&ms, TagId::Cv), Vec::<u32>::new());
    assert_eq!(ordered_unique_owner_ids(&[], TagId::Spectrum), Vec::<u32>::new());
}

#[test]
fn child_index_keeps_insertion_order() {
    let ms = vec![
        rec(0, 5, 1, TagId::Spectrum, "MS:1", MetadatumValue::Empty),
        rec(0, 3, 1, TagId::Spectrum, "MS:2", MetadatumValue::Empty),
        rec(0, 7, 1, TagId::Chromatogram, "MS:3", MetadatumValue::Empty),
        rec(0, 5, 1, TagId::Spectrum, "MS:4", MetadatumValue::Empty),
        rec(0, 8, 5, TagId::Scan, "MS:5", MetadatumValue::Empty),
    ];
    let ix = ChildIndex::new(&ms);
    assert_eq!(ix.ids(1, TagId::Spectrum), &[5, 3, 5]);
    assert_eq!(ix.ids(1, TagId::Chromatogram), &[7]);
    assert_eq!(ix.ids(1, TagId::Scan), &[] as &[u32]);
    assert_eq!(ix.ids(5, TagId::Scan), &[8]);
    assert_eq!(ix.first_id(1, TagId::Spectrum), Some(5));
    assert_eq!(ix.first_id(2, TagId::Spectrum), None);
    assert_eq!(ix.children(1), &[5, 3, 7, 5]);
    assert_eq!(ix.children(5), &[8]);
    assert_eq!(ix.children(8), &[] as &[u32]);
    let empty = ChildIndex::new(&[]);
    assert_eq!(empty.children(0), &[] as &[u32]);
    assert_eq!(empty.first_id(0, TagId::MzML), None);
}

#[test]
fn subtree_holds_all_that_is_reached() {
    let mut m: HashMap<u32, Vec<u32>> = HashMap::new();
    m.insert(1, vec![2, 3]);
    m.insert(2, vec![4]);
    m.insert(3, vec![4, 5, 1]);
    m.insert(9, vec![10]);
    assert_eq!(collect_subtree_owner_ids(1, &m), HashSet::from([1, 2, 3, 4, 5]));
    assert_eq!(collect_subtree_owner_ids(2, &m), HashSet::from([2, 4]));
    assert_eq!(collect_subtree_owner_ids(4, &m), HashSet::from([4]));
    assert_eq!(collect_subtree_owner_ids(9, &m), HashSet::from([9, 10]));
    assert_eq!(collect_subtree_owner_ids(77, &m), HashSet::from([77]));
    assert_eq!(collect_subtree_owner_ids(0, &HashMap::new()), HashSet::from([0]));
    let mut own: HashMap<u32, Vec<u32>> = HashMap::new();
    own.insert(6, vec![6, 6]);
    assert_eq!(collect_subtree_owner_ids(6, &own), HashSet::from([6]));
}

#[test]
fn array_length_is_that_of_the_filled_vector() {
    let mut a = new_binary_data_array();
    assert_eq!(decoded_len(&a), 0);
    a.decoded_binary_f32 = vec![1, 2, 3];
    assert_eq!(decoded_len(&a), 3);
    a.decoded_binary_f64 = vec![1, 2];
    assert_eq!(decoded_len(&a), 2);
}

#[test]
fn y_arrays_carry_an_intensity_term() {
    assert!(is_y_array(&array_of_kind("MS:1000515")));
    assert!(is_y_array(&array_of_kind("MS:1000786")));
    assert!(!is_y_array(&array_of_kind("MS:1000514")));
    assert!(!is_y_array(&array_of_kind("MS:1000595")));
    assert!(!is_y_array(&new_binary_data_array()));
    assert!(bda_has_array_kind(&array_of_kind("MS:1000514"), 1000514));
    assert!(!bda_has_array_kind(&array_of_kind("MS:1000514"), 1000515));
    assert!(!bda_has_array_kind(&new_binary_data_array(), 1000514));
}

#[test]
fn lengths_come_from_the_first_filled_array_of_each_axis() {
    assert_eq!(xy_lengths_from_bdal(None), (None, None));
    let mut x0 = array_of_kind("MS:1000514");
    let mut x1 = array_of_kind("MS:1000514");
    x1.decoded_binary_f64 = vec![1, 2, 3];
    let mut y = array_of_kind("MS:1000515");
    y.decoded_binary_f32 = vec![1, 2];
    let list = BinaryDataArrayList { count: Some(3), binary_data_arrays: vec![x0.clone(), y.clone(), x1] };
    assert_eq!(xy_lengths_from_bdal(Some(&list)), (Some(3), Some(2)));
    x0.decoded_binary_f32 = vec![9];
    let list = BinaryDataArrayList { count: None, binary_data_arrays: vec![x0] };
    assert_eq!(xy_lengths_from_bdal(Some(&list)), (Some(1), None));
    let list = BinaryDataArrayList { count: None, binary_data_arrays: vec![] };
    assert_eq!(xy_lengths_from_bdal(Some(&list)), (None, None));
}

#[test]
fn float_term_names_the_format() {
    let p = ms_float_param(1000521);
    assert_eq!(p.accession.as_deref(), Some("MS:1000521"));
    assert_eq!(p.name, "32-bit float");
    assert_eq!(p.cv_ref.as_deref(), Some("MS"));
    assert_eq!(p.value, ParamValue::Empty);
    let p = ms_float_param(1000523);
    assert_eq!(p.accession.as_deref(), Some("MS:1000523"));
    assert_eq!(p.name, "64-bit float");
    assert_eq!(p.unit_accession, None);
}

#[test]
fn float_flag_adds_the_term_once() {
    let mut a = new_binary_data_array();
    ensure_float_flag(&mut a, true);
    assert_eq!(a.is_f32, Some(true));
    assert_eq!(a.is_f64, None);
    assert_eq!(a.cv_params.len(), 1);
    assert_eq!(a.cv_params[0], ms_float_param(1000521));
    ensure_float_flag(&mut a, true);
    assert_eq!(a.cv_params.len(), 1);
    ensure_float_flag(&mut a, false);
    assert_eq!(a.is_f32, None);
    assert_eq!(a.is_f64, Some(true));
    assert_eq!(a.cv_params.len(), 1);
    assert_eq!(a.cv_params[0], ms_float_param(1000523));
}

#[test]
fn float_flag_takes_out_the_other_format() {
    let mut a = new_binary_data_array();
    a.cv_params.push(term("MS:1000514"));
    a.cv_params.push(term("MS:1000523"));
    a.cv_params.push(term("MS:1000576"));
    a.cv_params.push(term("MS:1000523"));
    ensure_float_flag(&mut a, true);
    let left: Vec<&str> = a.cv_params.iter().map(|p| p.accession.as_deref().unwrap()).collect();
    assert_eq!(left, vec!["MS:1000514", "MS:1000576", "MS:1000521"]);
    assert_eq!(a.is_f32, Some(true));
    assert_eq!(a.is_f64, None);
    let mut b = new_binary_data_array();
    b.cv_params.push(term("MS:1000521"));
    b.cv_params.push(term("MS:1000523"));
    b.cv_params.push(term("MS:1000515"));
    ensure_float_flag(&mut b, true);
    let left: Vec<&str> = b.cv_params.iter().map(|p| p.accession.as_deref().unwrap()).collect();
    assert_eq!(left, vec!["MS:1000521", "MS:1000515"]);
    ensure_float_flag(&mut b, false);
    let left: Vec<&str> = b.cv_params.iter().map(|p| p.accession.as_deref().unwrap()).collect();
    assert_eq!(left, vec!["MS:1000515", "MS:1000523"]);
    assert_eq!(b.is_f32, None);
    assert_eq!(b.is_f64, Some(true));
}

#[test]
fn elements_are_attached_by_kind() {
    let mut list = BinaryDataArrayList {
        count: None,
        binary_data_arrays: vec![
            array_of_kind("MS:1000515"),
            array_of_kind("MS:1000786"),
            array_of_kind("MS:1000514"),
        ],
    };
    assert_eq!(find_kind(&list, 1000514), Some(2));
    assert_eq!(find_kind(&list, 1000515), Some(0));
    assert_eq!(find_kind(&list, 1000595), None);
    let x = ArrayData::F64(vec![1, 2, 3]);
    let y = ArrayData::F32(vec![7, 8, 9]);
    attach_xy_arrays_to_bdal(&mut list, &x, &y, 1000514, 1000515);
    assert_eq!(list.count, Some(3));
    assert_eq!(list.binary_data_arrays[2].decoded_binary_f64, vec![1, 2, 3]);
    assert_eq!(list.binary_data_arrays[2].is_f64, Some(true));
    assert_eq!(list.binary_data_arrays[0].decoded_binary_f32, vec![7, 8, 9]);
    assert_eq!(list.binary_data_arrays[0].is_f32, Some(true));
    assert_eq!(list.binary_data_arrays[1], array_of_kind("MS:1000786"));
}

#[test]
fn elements_without_a_kind_go_to_the_first_two_arrays() {
    let mut list = BinaryDataArrayList {
        count: None,
        binary_data_arrays: vec![new_binary_data_array(), new_binary_data_array()],
    };
    attach_xy_arrays_to_bdal(&mut list, &ArrayData::F64(vec![1]), &ArrayData::F64(vec![2]), 1000514, 1000515);
    assert_eq!(list.binary_data_arrays[0].decoded_binary_f64, vec![1]);
    assert_eq!(list.binary_data_arrays[1].decoded_binary_f64, vec![2]);
    let mut one = BinaryDataArrayList { count: None, binary_data_arrays: vec![new_binary_data_array()] };
    attach_xy_arrays_to_bdal(&mut one, &ArrayData::F64(vec![1]), &ArrayData::F64(vec![2]), 1000514, 1000515);
    assert_eq!(one.binary_data_arrays[0].decoded_binary_f64, vec![2]);
    assert_eq!(one.count, Some(1));
    let mut none = BinaryDataArrayList { count: Some(5), binary_data_arrays: vec![] };
    attach_xy_arrays_to_bdal(&mut none, &ArrayData::F64(vec![1]), &ArrayData::F64(vec![2]), 1000514, 1000515);
    assert_eq!(none, BinaryDataArrayList { count: Some(5), binary_data_arrays: vec![] });
}

#[test]
fn records_fill_an_array() {
    let t = table();
    let mut a = new_binary_data_array();
    assert_eq!(a, BinaryDataArray::empty());
    apply_binary_data_array_metadatum(&mut a, &rec(0, 4, 3, TagId::BinaryDataArray, "B000:9900015", num(12.0)), &t);
    assert_eq!(a.array_length, Some(12));
    apply_binary_data_array_metadatum(&mut a, &rec(0, 4, 3, TagId::BinaryDataArray, "B000:9900016", text("96")), &t);
    assert_eq!(a.encoded_length, Some(96));
    apply_binary_data_array_metadatum(&mut a, &rec(0, 4, 3, TagId::BinaryDataArray, "B000:9900012", text("dp1")), &t);
    assert_eq!(a.data_processing_ref.as_deref(), Some("dp1"));
    apply_binary_data_array_metadatum(&mut a, &rec(0, 4, 3, TagId::BinaryDataArray, "B000:9900001", text("ignored")), &t);
    apply_binary_data_array_metadatum(&mut a, &rec(0, 4, 3, TagId::BinaryDataArray, "nocolon", text("ignored")), &t);
    let mut bare = rec(0, 4, 3, TagId::BinaryDataArray, "x", text("ignored"));
    bare.accession = None;
    apply_binary_data_array_metadatum(&mut a, &bare, &t);
    assert!(a.cv_params.is_empty());
    assert!(a.user_params.is_empty());
    let mut with_unit = rec(0, 4, 3, TagId::BinaryDataArray, "MS:1000514", MetadatumValue::Empty);
    with_unit.unit_accession = Some("UO:0000031".to_string());
    apply_binary_data_array_metadatum(&mut a, &with_unit, &t);
    assert_eq!(a.cv_params.len(), 1);
    assert_eq!(a.cv_params[0].name, "m/z array");
    assert_eq!(a.cv_params[0].cv_ref.as_deref(), Some("MS"));
    assert_eq!(a.cv_params[0].accession.as_deref(), Some("MS:1000514"));
    assert_eq!(a.cv_params[0].unit_cv_ref.as_deref(), Some("UO"));
    assert_eq!(a.cv_params[0].unit_name.as_deref(), Some("minute"));
    assert_eq!(a.cv_params[0].unit_accession.as_deref(), Some("UO:0000031"));
    assert_eq!(a.numeric_type, None);
    apply_binary_data_array_metadatum(&mut a, &rec(0, 4, 3, TagId::BinaryDataArray, "MS:1000523", MetadatumValue::Empty), &t);
    assert_eq!(a.numeric_type, Some(NumericType::Float64));
    apply_binary_data_array_metadatum(&mut a, &rec(0, 4, 3, TagId::BinaryDataArray, "MS:1000523", MetadatumValue::Empty), &t);
    assert_eq!(a.numeric_type, Some(NumericType::Float64));
    apply_binary_data_array_metadatum(&mut a, &rec(0, 4, 3, TagId::BinaryDataArray, "MS:1000521", MetadatumValue::Empty), &t);
    assert_eq!(a.numeric_type, None);
    assert_eq!(a.cv_params[3].name, "MS:1000521");
    apply_binary_data_array_metadatum(&mut a, &rec(0, 4, 3, TagId::BinaryDataArray, "custom:thing", num(1.5)), &t);
    assert_eq!(a.user_params.len(), 1);
    assert_eq!(a.user_params[0].name, "custom:thing");
    assert_eq!(a.user_params[0].value, ParamValue::Number(1.5f64.to_bits()));
    assert_eq!(a.cv_params.len(), 4);
}

#[test]
fn run_of_records_makes_one_array() {
    let t = table();
    let a = rec(0, 4, 3, TagId::BinaryDataArray, "MS:1000515", MetadatumValue::Empty);
    let b = rec(0, 4, 3, TagId::BinaryDataArray, "B000:9900015", num(5.0));
    let got = parse_binary_data_array(&[&a, &b], &t);
    let mut want = new_binary_data_array();
    apply_binary_data_array_metadatum(&mut want, &a, &t);
    apply_binary_data_array_metadatum(&mut want, &b, &t);
    assert_eq!(got, want);
    assert_eq!(got.array_length, Some(5));
    assert_eq!(got.cv_params[0].name, "intensity array");
    assert_eq!(parse_binary_data_array(&[], &t), new_binary_data_array());
}

#[test]
fn first_record_of_a_kind_is_found() {
    let ms = vec![
        rec(0, 1, 0, TagId::Spectrum, "MS:1", MetadatumValue::Empty),
        rec(0, 3, 1, TagId::BinaryDataArrayList, "B000:9900005", num(2.0)),
        rec(0, 4, 3, TagId::BinaryDataArray, "MS:1000514", MetadatumValue::Empty),
        rec(0, 3, 1, TagId::BinaryDataArrayList, "B000:9900005", num(3.0)),
    ];
    assert_eq!(find_tag(&ms, TagId::BinaryDataArrayList), Some(1));
    assert_eq!(find_tag(&ms, TagId::BinaryDataArray), Some(2));
    assert_eq!(find_tag(&ms, TagId::Scan), None);
    assert_eq!(find_tag(&[], TagId::Spectrum), None);
}

#[test]
fn arrays_inherit_the_default_length() {
    let ms = vec![
        rec(0, 1, 0, TagId::Spectrum, "B000:9900014", text("x")),
        rec(0, 1, 0, TagId::Spectrum, "B000:9900014", num(15.0)),
        rec(0, 1, 0, TagId::Spectrum, "B000:9900014", num(16.0)),
    ];
    let mut arrays = vec![new_binary_data_array(), new_binary_data_array()];
    arrays[1].array_length = Some(3);
    inherit_array_length_from_parent(&ms, &mut arrays);
    assert_eq!(arrays[0].array_length, Some(15));
    assert_eq!(arrays[1].array_length, Some(3));
    let mut arrays = vec![new_binary_data_array()];
    inherit_array_length_from_parent(&ms[..1], &mut arrays);
    assert_eq!(arrays[0].array_length, None);
}

#[test]
fn arrays_of_an_item_are_grouped_by_owner() {
    let t = table();
    let ms = vec![
        rec(0, 1, 0, TagId::Spectrum, "B000:9900014", num(4.0)),
        rec(0, 7, 3, TagId::BinaryDataArray, "MS:1000515", MetadatumValue::Empty),
        rec(0, 5, 3, TagId::BinaryDataArray, "MS:1000514", MetadatumValue::Empty),
        rec(0, 7, 3, TagId::BinaryDataArray, "B000:9900015", num(9.0)),
        rec(0, 8, 99, TagId::BinaryDataArray, "MS:1000595", MetadatumValue::Empty),
        rec(0, 5, 3, TagId::BinaryDataArray, "MS:1000523", MetadatumValue::Empty),
    ];
    let list = parse_binary_data_array_list(&ms, &t).unwrap();
    assert_eq!(list.count, Some(2));
    assert_eq!(list.binary_data_arrays.len(), 2);
    let first = &list.binary_data_arrays[0];
    assert_eq!(first.cv_params.len(), 2);
    assert_eq!(first.cv_params[0].accession.as_deref(), Some("MS:1000514"));
    assert_eq!(first.cv_params[1].accession.as_deref(), Some("MS:1000523"));
    assert_eq!(first.array_length, Some(4));
    assert_eq!(first.numeric_type, Some(NumericType::Float64));
    let second = &list.binary_data_arrays[1];
    assert_eq!(second.cv_params.len(), 1);
    assert_eq!(second.cv_params[0].name, "intensity array");
    assert_eq!(second.array_length, Some(9));
}

#[test]
fn list_of_arrays_takes_its_declared_count() {
    let t = table();
    let ms = vec![
        rec(0, 3, 1, TagId::BinaryDataArrayList, "B000:9900005", num(2.0)),
        rec(0, 4, 3, TagId::BinaryDataArray, "MS:1000514", MetadatumValue::Empty),
    ];
    let list = parse_binary_data_array_list(&ms, &t).unwrap();
    assert_eq!(list.count, Some(2));
    assert_eq!(list.binary_data_arrays.len(), 1);
    let only_list = parse_binary_data_array_list(&ms[..1], &t).unwrap();
    assert_eq!(only_list.count, Some(2));
    assert!(only_list.binary_data_arrays.is_empty());
    let none = vec![rec(0, 1, 0, TagId::Spectrum, "MS:1000511", num(1.0))];
    assert_eq!(parse_binary_data_array_list(&none, &t), None);
    assert_eq!(parse_binary_data_array_list(&[], &t), None);
}
