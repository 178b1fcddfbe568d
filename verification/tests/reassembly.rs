use octo::child_index::ChildIndex;
use octo::cv_table::CvTable;
use octo::decode2::{decode2, parse_run};
use octo::document::{MzML, Software, SoftwareParam};
use octo::error::{DecodeError, ErrorKind};
use octo::metadatum::{Metadatum, MetadatumValue, TagId};
use octo::params::{CvParam, ParamValue};
use octo::precursor::{
    infer_precursor_list_from_spectrum_cv, is_activation_tail, is_isolation_window_tail,
    is_selected_ion_tail, param_tail, strip_binary_array_cv_params,
};
use octo::query::{
    assert_cv_absent, assert_cv_ref, assert_software, assert_software_param, chromatogram,
    chromatogram_list, cv_by_name, cv_ref_ok, software_ok, software_param_ok, spectrum_by_id, spectrum_by_index,
    spectrum_description, spectrum_precursor_list, spectrum_scan_list, CvRefMode,
};
use octo::run::{
    Chromatogram, ChromatogramList, PrecursorList, Run, ScanList, Spectrum, SpectrumDescription,
    SpectrumList,
};
use octo::schema::{
    child_node, find_first_with_tag, find_node_by_tag, find_node_by_tag_rec, has_tag, SchemaNode,
    SchemaTree,
};
use octo::spectrum_records::{
    all_rows, is_admitted, parse_cv_and_user_params, parse_spectrum, parse_spectrum_list,
    rows_of_owner, rows_with_tag,
};

fn num(x: f64) -> MetadatumValue {
    MetadatumValue::Number { bits: x.to_bits(), text: format!("{x}") }
}

fn text(s: &str) -> MetadatumValue {
    MetadatumValue::Text(s.to_string())
}

fn rec(item: u32, owner: u32, parent: u32, tag: TagId, acc: &str, value: MetadatumValue) -> Metadatum {
    Metadatum {
        item_index: item,
        owner_id: owner,
        parent_index: parent,
        tag_id: tag,
        accession: Some(acc.to_string()),
        unit_accession: None,
        value,
    }
}

fn table() -> CvTable {
    let mut t = CvTable::new();
    t.insert("MS:1000511", "ms level".to_string());
    t.insert("MS:1000514", "m/z array".to_string());
    t.insert("MS:1000515", "intensity array".to_string());
    t
}

fn node(tags: &[TagId], accessions: &[&str], children: Vec<SchemaNode>) -> SchemaNode {
    SchemaNode {
        self_tags: tags.to_vec(),
        accessions: accessions.iter().map(|s| s.to_string()).collect(),
        children,
    }
}

fn schema(admitted: &[&str]) -> SchemaTree {
    let terms = node(&[TagId::CvParam], admitted, vec![]);
    let spectrum = node(&[TagId::Spectrum], &[], vec![node(&[TagId::Scan], &[], vec![]), terms]);
    let list = node(&[TagId::SpectrumList], &[], vec![spectrum]);
    let run = node(&[TagId::Run], &[], vec![list, node(&[TagId::ChromatogramList], &[], vec![])]);
    SchemaTree { roots: vec![node(&[TagId::CvList, TagId::Cv], &[], vec![]), run] }
}

fn term(acc: &str, name: &str) -> CvParam {
    let mut p = CvParam::empty();
    p.cv_ref = Some("MS".to_string());
    p.accession = Some(acc.to_string());
    p.name = name.to_string();
    p
}

fn header_bytes(off_spec_meta: u64, off_chrom_meta: u64) -> Vec<u8> {
    let mut b = vec![0u8; 192];
    b[0..4].copy_from_slice(b"B000");
    b[24..32].copy_from_slice(&off_spec_meta.to_le_bytes());
    b[32..40].copy_from_slice(&off_chrom_meta.to_le_bytes());
    b
}

/// Whether both are the same node of one tree, or both are none.
fn same(a: Option<&SchemaNode>, b: Option<&SchemaNode>) -> bool {
    match (a, b) {
        (Some(x), Some(y)) => std::ptr::eq(x, y),
        (None, None) => true,
        _ => false,
    }
}

#[test]
fn schema_nodes_are_found_from_the_top_down() {
    let s = schema(&["MS:1000511"]);
    assert!(has_tag(&s.roots[0], TagId::Cv));
    assert!(has_tag(&s.roots[0], TagId::CvList));
    assert!(!has_tag(&s.roots[0], TagId::Run));
    assert!(same(find_first_with_tag(&s.roots, TagId::Run), Some(&s.roots[1])));
    assert!(same(find_first_with_tag(&s.roots, TagId::Spectrum), None));
    let run = &s.roots[1];
    assert!(same(find_node_by_tag_rec(run, TagId::Run), Some(run)));
    assert!(same(find_node_by_tag_rec(run, TagId::Spectrum), Some(&run.children[0].children[0])));
    assert!(same(find_node_by_tag_rec(run, TagId::ChromatogramList), Some(&run.children[1])));
    assert!(same(find_node_by_tag_rec(run, TagId::Cv), None));
    assert!(same(find_node_by_tag(&s, TagId::Scan), Some(&run.children[0].children[0].children[0])));
    assert!(same(find_node_by_tag(&s, TagId::Cv), Some(&s.roots[0])));
    assert!(same(find_node_by_tag(&s, TagId::Sample), None));
    assert!(same(find_node_by_tag(&SchemaTree { roots: vec![] }, TagId::Run), None));
    assert!(same(child_node(Some(run), TagId::SpectrumList), Some(&run.children[0])));
    assert!(same(child_node(Some(run), TagId::Spectrum), None));
    assert!(same(child_node(None, TagId::Spectrum), None));
}

#[test]
fn a_root_is_found_before_a_deeper_node() {
    let deep = node(&[TagId::Sample], &["deep"], vec![]);
    let first = node(&[TagId::Run], &[], vec![deep]);
    let second = node(&[TagId::Sample], &["root"], vec![]);
    let s = SchemaTree { roots: vec![first, second] };
    assert_eq!(find_node_by_tag(&s, TagId::Sample).unwrap().accessions, vec!["root".to_string()]);
    assert_eq!(
        find_node_by_tag_rec(&s.roots[0], TagId::Sample).unwrap().accessions,
        vec!["deep".to_string()]
    );
}

#[test]
fn rows_are_picked_by_kind_and_owner() {
    let ms = vec![
        rec(0, 1, 0, TagId::Spectrum, "MS:1000511", num(1.0)),
        rec(0, 2, 1, TagId::Scan, "MS:1000016", num(5.0)),
        rec(1, 3, 0, TagId::Spectrum, "MS:1000511", num(2.0)),
    ];
    let rows = rows_with_tag(&ms, TagId::Spectrum);
    assert_eq!(rows, vec![&ms[0], &ms[2]]);
    assert_eq!(rows_of_owner(&rows, 3), vec![&ms[2]]);
    assert_eq!(rows_of_owner(&rows, 2), Vec::<&Metadatum>::new());
    assert_eq!(all_rows(&ms), vec![&ms[0], &ms[1], &ms[2]]);
    assert!(rows_with_tag(&ms, TagId::Cv).is_empty());
}

#[test]
fn an_empty_list_admits_every_term() {
    let allowed = vec!["MS:1000511".to_string(), "MS:1000579".to_string()];
    assert!(is_admitted(&allowed, "MS:1000579"));
    assert!(!is_admitted(&allowed, "MS:1000580"));
    assert!(!is_admitted(&allowed, ""));
    assert!(is_admitted(&[], "MS:1000580"));
}

#[test]
fn rows_become_terms_and_entries() {
    let t = table();
    let a = rec(0, 1, 0, TagId::Spectrum, "MS:1000511", num(2.0));
    let b = rec(0, 1, 0, TagId::Spectrum, "B000:9900001", text("id"));
    let c = rec(0, 1, 0, TagId::Spectrum, "MS:1000579", MetadatumValue::Empty);
    let d = rec(0, 1, 0, TagId::Spectrum, "lab:note", text("hello"));
    let e = rec(0, 1, 0, TagId::Spectrum, "nocolon", text("x"));
    let rows = [&a, &b, &c, &d, &e];
    let allowed = vec!["MS:1000511".to_string()];
    let (cvs, users) = parse_cv_and_user_params(&allowed, &rows, &t);
    assert_eq!(cvs.len(), 1);
    assert_eq!(cvs[0].accession.as_deref(), Some("MS:1000511"));
    assert_eq!(cvs[0].name, "ms level");
    assert_eq!(cvs[0].value, ParamValue::Number(2.0f64.to_bits()));
    assert_eq!(users.len(), 1);
    assert_eq!(users[0].name, "lab:note");
    assert_eq!(users[0].value, ParamValue::Text("hello".to_string()));
    let (cvs, users) = parse_cv_and_user_params(&[], &rows, &t);
    assert_eq!(cvs.len(), 2);
    assert_eq!(cvs[1].name, "MS:1000579");
    assert_eq!(users.len(), 1);
    let (cvs, users) = parse_cv_and_user_params(&[], &[], &t);
    assert!(cvs.is_empty() && users.is_empty());
}

#[test]
fn spectrum_is_rebuilt_from_its_records() {
    let t = table();
    let ms = vec![
        rec(4, 10, 1, TagId::Spectrum, "B000:9900001", text("scan=5")),
        rec(4, 10, 1, TagId::Spectrum, "B000:9900006", num(4.0)),
        rec(4, 10, 1, TagId::Spectrum, "B000:9900007", num(2.0)),
        rec(4, 10, 1, TagId::Spectrum, "B000:9900008", num(5.0)),
        rec(4, 10, 1, TagId::Spectrum, "B000:9900009", text("native")),
        rec(4, 10, 1, TagId::Spectrum, "B000:9900010", text("spot")),
        rec(4, 10, 1, TagId::Spectrum, "B000:9900011", text("sf1")),
        rec(4, 10, 1, TagId::Spectrum, "MS:1000511", num(2.0)),
        rec(4, 10, 1, TagId::Spectrum, "MS:1000580", MetadatumValue::Empty),
        rec(4, 10, 1, TagId::Spectrum, "lab:x", num(0.5)),
        rec(4, 12, 11, TagId::BinaryDataArray, "MS:1000514", MetadatumValue::Empty),
    ];
    let allowed = vec!["MS:1000511".to_string()];
    let s = parse_spectrum(&ms, 9, &allowed, Some("dp0"), &t);
    assert_eq!(s.id, "scan=5");
    assert_eq!(s.index, Some(4));
    assert_eq!(s.ms_level, Some(2));
    assert_eq!(s.scan_number, Some(5));
    assert_eq!(s.native_id.as_deref(), Some("native"));
    assert_eq!(s.spot_id.as_deref(), Some("spot"));
    assert_eq!(s.source_file_ref.as_deref(), Some("sf1"));
    assert_eq!(s.data_processing_ref.as_deref(), Some("dp0"));
    assert_eq!(s.default_array_length, Some(0));
    assert_eq!(s.cv_params.len(), 1);
    assert_eq!(s.cv_params[0].name, "ms level");
    assert_eq!(s.user_params.len(), 1);
    assert_eq!(s.binary_data_array_list.as_ref().unwrap().binary_data_arrays.len(), 1);
    assert_eq!(s.scan_list, None);
    assert_eq!(s.precursor_list, None);
    assert_eq!(s.product_list, None);
}

#[test]
fn spectrum_without_attributes_takes_the_fallbacks() {
    let t = table();
    let ms = vec![rec(0, 10, 1, TagId::Spectrum, "MS:1000511", num(1.0))];
    let s = parse_spectrum(&ms, 9, &[], None, &t);
    assert_eq!(s.id, "");
    assert_eq!(s.index, Some(9));
    assert_eq!(s.data_processing_ref, None);
    assert_eq!(s.default_array_length, Some(0));
    assert_eq!(s.binary_data_array_list, None);
    let with_len = vec![
        rec(0, 10, 1, TagId::Spectrum, "B000:9900014", num(33.0)),
        rec(0, 10, 1, TagId::Spectrum, "B000:9900012", text("own")),
    ];
    let s = parse_spectrum(&with_len, 0, &[], Some("dp0"), &t);
    assert_eq!(s.default_array_length, Some(33));
    assert_eq!(s.data_processing_ref.as_deref(), Some("own"));
    let s = parse_spectrum(&[], 3, &[], None, &t);
    assert_eq!(s.index, Some(3));
    assert!(s.cv_params.is_empty());
}

#[test]
fn spectra_follow_the_order_of_the_index() {
    let t = table();
    let ms = vec![
        rec(0, 1, 0, TagId::SpectrumList, "B000:9900005", num(2.0)),
        rec(0, 1, 0, TagId::SpectrumList, "B000:9900013", text("dp")),
        rec(7, 20, 1, TagId::Spectrum, "B000:9900001", text("second")),
        rec(3, 10, 1, TagId::Spectrum, "B000:9900001", text("first")),
        rec(3, 10, 1, TagId::Spectrum, "MS:1000511", num(1.0)),
    ];
    let ix = ChildIndex::new(&ms);
    let list = parse_spectrum_list(&schema(&[]), &ms, &ix, &t).unwrap();
    assert_eq!(list.count, Some(2));
    assert_eq!(list.default_data_processing_ref.as_deref(), Some("dp"));
    assert_eq!(list.spectra.len(), 2);
    assert_eq!(list.spectra[0].id, "second");
    assert_eq!(list.spectra[0].index, Some(0));
    assert_eq!(list.spectra[1].id, "first");
    assert_eq!(list.spectra[1].index, Some(1));
    assert_eq!(list.spectra[1].cv_params.len(), 1);
    assert_eq!(list.spectra[1].data_processing_ref.as_deref(), Some("dp"));
}

#[test]
fn spectra_without_a_list_follow_their_items() {
    let t = table();
    let ms = vec![
        rec(5, 20, 1, TagId::Spectrum, "B000:9900001", text("a")),
        rec(2, 10, 1, TagId::Spectrum, "B000:9900001", text("b")),
        rec(5, 20, 1, TagId::Spectrum, "MS:1000511", num(1.0)),
    ];
    let ix = ChildIndex::new(&ms);
    let list = parse_spectrum_list(&schema(&["MS:1000999"]), &ms, &ix, &t).unwrap();
    assert_eq!(list.count, Some(2));
    assert_eq!(list.default_data_processing_ref, None);
    assert_eq!(list.spectra[0].id, "a");
    assert_eq!(list.spectra[1].id, "b");
    assert!(list.spectra[0].cv_params.is_empty());
    let none = vec![rec(0, 1, 0, TagId::SpectrumList, "B000:9900005", num(2.0))];
    assert_eq!(parse_spectrum_list(&schema(&[]), &none, &ChildIndex::new(&none), &t), None);
    assert_eq!(parse_spectrum_list(&schema(&[]), &[], &ChildIndex::new(&[]), &t), None);
}

#[test]
fn run_holds_the_spectra_of_the_records() {
    let t = table();
    let ms = vec![rec(0, 10, 1, TagId::Spectrum, "B000:9900001", text("only"))];
    let run = parse_run(&schema(&[]), &ms, &t);
    assert_eq!(run.spectrum_list.as_ref().unwrap().spectra[0].id, "only");
    assert_eq!(run.chromatogram_list, None);
    assert_eq!(run.id, "");
    let empty = parse_run(&schema(&[]), &[], &t);
    assert_eq!(empty, Run::empty());
}

#[test]
fn second_decoder_checks_the_header_first() {
    let t = table();
    let s = schema(&[]);
    let ms = vec![rec(0, 10, 1, TagId::Spectrum, "B000:9900001", text("only"))];
    let mut file = header_bytes(192, 200);
    file.extend_from_slice(&[0u8; 8]);
    let doc = decode2(&file, &s, &ms, &t).unwrap();
    assert_eq!(doc.run, parse_run(&s, &ms, &t));
    assert_eq!(doc.cv_list, None);
    let mut expected = MzML::empty();
    expected.run = parse_run(&s, &ms, &t);
    assert_eq!(doc, expected);
    assert_eq!(decode2(&file[..100], &s, &ms, &t), Err(DecodeError::ShortHeader));
    let mut bad = file.clone();
    bad[0] = b'X';
    assert_eq!(decode2(&bad, &s, &ms, &t), Err(DecodeError::WrongMagic));
    let equal = header_bytes(192, 192);
    let e = decode2(&equal, &s, &ms, &t).unwrap_err();
    assert_eq!(e, DecodeError::MetaOffsets);
    assert_eq!(e.kind(), ErrorKind::InconsistentOffsets);
    let beyond = header_bytes(192, 193);
    assert_eq!(decode2(&beyond, &s, &ms, &t), Err(DecodeError::UnexpectedEnd));
}

#[test]
fn precursor_tails_are_told_apart() {
    for t in [1000827, 1000828, 1000829] {
        assert!(is_isolation_window_tail(t));
        assert!(!is_selected_ion_tail(t));
        assert!(!is_activation_tail(t));
    }
    for t in [1000744, 1000041] {
        assert!(is_selected_ion_tail(t));
        assert!(!is_isolation_window_tail(t));
    }
    for t in [1001880, 1000045] {
        assert!(is_activation_tail(t));
        assert!(!is_selected_ion_tail(t));
    }
    for t in [0, 1000511, 1000514] {
        assert!(!is_isolation_window_tail(t) && !is_selected_ion_tail(t) && !is_activation_tail(t));
    }
    assert_eq!(param_tail(&term("MS:1000827", "")), 1000827);
    assert_eq!(param_tail(&term("NCIT:C1234", "")), 0);
    assert_eq!(param_tail(&CvParam::empty()), 0);
}

#[test]
fn array_terms_are_stripped() {
    let mut ps = vec![
        term("MS:1000511", "ms level"),
        term("MS:1000514", "m/z array"),
        term("MS:1000523", "64-bit float"),
        term("MS:1000576", "no compression"),
        term("MS:1000827", "isolation window target m/z"),
        term("MS:1000574", "zlib compression"),
        term("MS:1000595", "time array"),
        term("MS:1000515", "intensity array"),
        term("MS:1000521", "32-bit float"),
        term("MS:1000130", "positive scan"),
    ];
    strip_binary_array_cv_params(&mut ps);
    let left: Vec<&str> = ps.iter().map(|p| p.name.as_str()).collect();
    assert_eq!(left, vec!["ms level", "isolation window target m/z", "positive scan"]);
}

#[test]
fn precursor_terms_move_into_a_precursor() {
    let mut ps = vec![
        term("MS:1000511", "ms level"),
        term("MS:1000827", "target"),
        term("MS:1000744", "selected ion m/z"),
        term("MS:1000045", "collision energy"),
        term("MS:1000828", "lower"),
        term("MS:1000041", "charge state"),
        term("MS:1000130", "positive scan"),
    ];
    let list = infer_precursor_list_from_spectrum_cv(&mut ps).unwrap();
    let left: Vec<&str> = ps.iter().map(|p| p.name.as_str()).collect();
    assert_eq!(left, vec!["ms level", "positive scan"]);
    assert_eq!(list.count, Some(1));
    assert_eq!(list.precursors.len(), 1);
    let p = &list.precursors[0];
    assert_eq!(p.spectrum_ref, None);
    let iso: Vec<&str> =
        p.isolation_window.as_ref().unwrap().cv_params.iter().map(|p| p.name.as_str()).collect();
    assert_eq!(iso, vec!["target", "lower"]);
    let ions = p.selected_ion_list.as_ref().unwrap();
    assert_eq!(ions.count, Some(1));
    let sel: Vec<&str> = ions.selected_ions[0].cv_params.iter().map(|p| p.name.as_str()).collect();
    assert_eq!(sel, vec!["selected ion m/z", "charge state"]);
    let act: Vec<&str> =
        p.activation.as_ref().unwrap().cv_params.iter().map(|p| p.name.as_str()).collect();
    assert_eq!(act, vec!["collision energy"]);
}

#[test]
fn spectrum_without_precursor_terms_has_no_precursor() {
    let mut ps = vec![term("MS:1000511", "ms level")];
    assert_eq!(infer_precursor_list_from_spectrum_cv(&mut ps), None);
    assert_eq!(ps.len(), 1);
    let mut only = vec![term("MS:1001880", "in-source")];
    let list: PrecursorList = infer_precursor_list_from_spectrum_cv(&mut only).unwrap();
    assert!(only.is_empty());
    assert_eq!(list.precursors[0].isolation_window, None);
    assert_eq!(list.precursors[0].selected_ion_list, None);
    assert_eq!(list.precursors[0].activation.as_ref().unwrap().cv_params.len(), 1);
}

fn spectrum(id: &str) -> Spectrum {
    let mut s = Spectrum::empty();
    s.id = id.to_string();
    s
}

#[test]
fn items_of_a_document_are_looked_up() {
    let mut doc = MzML::empty();
    let mut c = Chromatogram::empty();
    c.id = "TIC".to_string();
    doc.run.spectrum_list = Some(SpectrumList {
        count: Some(3),
        default_data_processing_ref: None,
        spectra: vec![spectrum("a"), spectrum("b"), spectrum("a")],
    });
    doc.run.spectrum_list.as_mut().unwrap().spectra[2].ms_level = Some(2);
    doc.run.chromatogram_list = Some(ChromatogramList {
        count: Some(1),
        default_data_processing_ref: None,
        chromatograms: vec![Chromatogram::empty(), c],
    });
    assert_eq!(spectrum_by_id(&doc, "b").id, "b");
    assert_eq!(spectrum_by_id(&doc, "a").ms_level, None);
    assert_eq!(spectrum_by_index(&doc, 2).ms_level, Some(2));
    let cl = chromatogram_list(&doc.run);
    assert_eq!(cl.chromatograms.len(), 2);
    assert_eq!(chromatogram(cl, "TIC").id, "TIC");
    assert_eq!(chromatogram(cl, "").id, "");
}

#[test]
fn lists_of_a_spectrum_come_from_its_description_first() {
    let mut s = spectrum("a");
    let mut own = ScanList::empty();
    own.count = Some(1);
    s.scan_list = Some(own.clone());
    assert_eq!(spectrum_scan_list(&s), &own);
    assert_eq!(spectrum_precursor_list(&s), None);
    let mut d = SpectrumDescription::empty();
    let mut inner = ScanList::empty();
    inner.count = Some(2);
    d.scan_list = Some(inner.clone());
    let mut pl = PrecursorList::empty();
    pl.count = Some(4);
    s.precursor_list = Some(pl.clone());
    s.spectrum_description = Some(d.clone());
    assert_eq!(spectrum_description(&s), &d);
    assert_eq!(spectrum_scan_list(&s), &inner);
    assert_eq!(spectrum_precursor_list(&s), Some(&pl));
    let mut pl2 = PrecursorList::empty();
    pl2.count = Some(5);
    s.spectrum_description.as_mut().unwrap().precursor_list = Some(pl2.clone());
    assert_eq!(spectrum_precursor_list(&s), Some(&pl2));
}

#[test]
fn terms_are_found_by_name() {
    let ps = vec![term("MS:1", "one"), term("MS:2", "two"), term("MS:3", "one")];
    assert_eq!(cv_by_name(&ps, "one").unwrap().accession.as_deref(), Some("MS:1"));
    assert_eq!(cv_by_name(&ps, "two").unwrap().accession.as_deref(), Some("MS:2"));
    assert_eq!(cv_by_name(&ps, "three"), None);
    assert_eq!(cv_by_name(&[], "one"), None);
    assert!(cv_by_name(&ps, "three").is_none());
    assert_cv_absent(&ps, "three");
}

#[test]
fn missing_vocabulary_passes_only_for_ms() {
    assert!(cv_ref_ok(CvRefMode::Strict, Some("MS"), "MS"));
    assert!(cv_ref_ok(CvRefMode::Strict, Some("UO"), "UO"));
    assert!(!cv_ref_ok(CvRefMode::Strict, Some("UO"), "MS"));
    assert!(!cv_ref_ok(CvRefMode::Strict, None, "MS"));
    assert!(!cv_ref_ok(CvRefMode::Strict, Some(""), "MS"));
    assert!(cv_ref_ok(CvRefMode::Strict, Some(""), ""));
    assert!(cv_ref_ok(CvRefMode::AllowMissingMs, None, "MS"));
    assert!(cv_ref_ok(CvRefMode::AllowMissingMs, Some(""), "MS"));
    assert!(cv_ref_ok(CvRefMode::AllowMissingMs, Some("MS"), "MS"));
    assert!(!cv_ref_ok(CvRefMode::AllowMissingMs, None, "UO"));
    assert!(!cv_ref_ok(CvRefMode::AllowMissingMs, Some(""), "UO"));
    assert!(!cv_ref_ok(CvRefMode::AllowMissingMs, Some("UO"), "MS"));
    assert!(cv_ref_ok(CvRefMode::AllowMissingMs, None, "MS"));
    assert_cv_ref(CvRefMode::AllowMissingMs, None, "MS", "ms level");
    assert!(cv_ref_ok(CvRefMode::Strict, Some("UO"), "UO"));
    assert_cv_ref(CvRefMode::Strict, Some("UO"), "UO", "minute");
}

#[test]
fn software_is_named_by_its_term() {
    let p = SoftwareParam {
        cv_ref: None,
        accession: "MS:1000615".to_string(),
        name: "ProteoWizard".to_string(),
        version: Some("1.0".to_string()),
    };
    assert!(software_param_ok(CvRefMode::AllowMissingMs, &p, "MS", "MS:1000615", "ProteoWizard", Some("1.0")));
    assert_software_param(CvRefMode::AllowMissingMs, &p, "MS", "MS:1000615", "ProteoWizard", Some("1.0"));
    let old = Software {
        id: "pwiz".to_string(),
        version: None,
        software_param: vec![p],
        cv_param: vec![],
    };
    assert!(software_ok(CvRefMode::AllowMissingMs, &old, "MS", "MS:1000615", "ProteoWizard", Some("1.0")));
    assert_software(CvRefMode::AllowMissingMs, &old, "MS", "MS:1000615", "ProteoWizard", Some("1.0"));
    let new = Software {
        id: "pwiz".to_string(),
        version: Some("3.0".to_string()),
        software_param: vec![],
        cv_param: vec![term("MS:1000615", "ProteoWizard")],
    };
    assert!(software_ok(CvRefMode::Strict, &new, "MS", "MS:1000615", "ProteoWizard", Some("3.0")));
    assert_software(CvRefMode::Strict, &new, "MS", "MS:1000615", "ProteoWizard", Some("3.0"));
}
