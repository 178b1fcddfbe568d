use octo::child_index::ChildIndex;
use octo::chromatogram_records::{parse_chromatogram, parse_chromatogram_list};
use octo::cv_table::CvTable;
use octo::decode2::parse_run;
use octo::element_lists::{
    distinct_ids, parse_precursor_list, parse_product_list, parse_scan_list,
};
use octo::metadatum::{Metadatum, MetadatumValue, TagId};
use octo::params::ParamValue;
use octo::schema::{SchemaNode, SchemaTree};
use octo::spectrum_records::parse_spectrum;

fn number(x: f64) -> MetadatumValue {
    MetadatumValue::Number { bits: x.to_bits(), text: format!("{x}") }
}

fn words(s: &str) -> MetadatumValue {
    MetadatumValue::Text(s.to_string())
}

fn row(item: u32, owner: u32, parent: u32, tag: TagId, acc: &str, value: MetadatumValue) -> Metadatum {
    Metadatum {
        item_index: item,
        owner_id: owner,
        parent_index: parent,
        tag_id: tag,
        accession: Some(acc.to_string()),
        unit_accession: None,
        value,
    }
}

fn names() -> CvTable {
    let mut t = CvTable::new();
    t.insert("MS:1000016", "scan start time".to_string());
    t.insert("MS:1000744", "selected ion m/z".to_string());
    t.insert("MS:1000827", "isolation window target m/z".to_string());
    t
}

fn bare_schema() -> SchemaTree {
    let list = SchemaNode { self_tags: vec![TagId::SpectrumList], accessions: vec![], children: vec![] };
    let run = SchemaNode { self_tags: vec![TagId::Run], accessions: vec![], children: vec![list] };
    SchemaTree { roots: vec![run] }
}

/// The records of one spectrum with two scans, one precursor and one
/// product.
fn spectrum_rows() -> Vec<Metadatum> {
    vec![
        row(0, 10, 1, TagId::Spectrum, "B000:9900001", words("scan=1")),
        row(0, 11, 10, TagId::ScanList, "B000:9900005", number(2.0)),
        row(0, 11, 10, TagId::ScanList, "MS:1000795", MetadatumValue::Empty),
        row(0, 12, 11, TagId::Scan, "MS:1000016", number(0.5)),
        row(0, 12, 11, TagId::Scan, "lab:note", words("first")),
        row(0, 13, 11, TagId::Scan, "MS:1000016", number(0.75)),
        row(0, 20, 10, TagId::PrecursorList, "B000:9900005", number(1.0)),
        row(0, 21, 20, TagId::Precursor, "B000:9900017", words("scan=0")),
        row(0, 22, 21, TagId::IsolationWindow, "MS:1000827", number(445.3)),
        row(0, 23, 21, TagId::SelectedIonList, "B000:9900005", number(1.0)),
        row(0, 24, 23, TagId::SelectedIon, "MS:1000744", number(445.34)),
        row(0, 24, 23, TagId::SelectedIon, "MS:1000041", number(2.0)),
        row(0, 25, 21, TagId::Activation, "MS:1000133", MetadatumValue::Empty),
        row(0, 30, 10, TagId::ProductList, "MS:1000000", MetadatumValue::Empty),
        row(0, 31, 30, TagId::Product, "MS:1000000", MetadatumValue::Empty),
        row(0, 32, 31, TagId::IsolationWindow, "MS:1000827", number(100.0)),
    ]
}

#[test]
fn ids_are_kept_once_in_order() {
    assert_eq!(distinct_ids(&[4, 4, 2, 4, 9, 2]), vec![4, 2, 9]);
    assert_eq!(distinct_ids(&[]), Vec::<u32>::new());
    assert_eq!(distinct_ids(&[7]), vec![7]);
}

#[test]
fn scans_are_found_under_their_list() {
    let ms = spectrum_rows();
    let rows: Vec<&Metadatum> = ms.iter().collect();
    let ix = ChildIndex::new(&ms);
    let list = parse_scan_list(&rows, &ix, 10, &names()).unwrap();
    assert_eq!(list.count, Some(2));
    assert_eq!(list.cv_params.len(), 1);
    assert_eq!(list.cv_params[0].accession.as_deref(), Some("MS:1000795"));
    assert_eq!(list.scans.len(), 2);
    assert_eq!(list.scans[0].cv_params.len(), 1);
    assert_eq!(list.scans[0].cv_params[0].name, "scan start time");
    assert_eq!(list.scans[0].cv_params[0].value, ParamValue::Number(0.5f64.to_bits()));
    assert_eq!(list.scans[0].user_params.len(), 1);
    assert_eq!(list.scans[0].user_params[0].name, "lab:note");
    assert_eq!(list.scans[1].cv_params[0].value, ParamValue::Number(0.75f64.to_bits()));
    assert!(list.scans[1].user_params.is_empty());
    assert_eq!(parse_scan_list(&rows, &ix, 99, &names()), None);
}

#[test]
fn a_list_without_a_count_counts_its_elements() {
    let ms = vec![
        row(0, 11, 10, TagId::ScanList, "MS:1000795", MetadatumValue::Empty),
        row(0, 12, 11, TagId::Scan, "MS:1000016", number(1.0)),
        row(0, 13, 11, TagId::Scan, "MS:1000016", number(2.0)),
        row(0, 12, 11, TagId::Scan, "MS:1000512", words("filter")),
    ];
    let rows: Vec<&Metadatum> = ms.iter().collect();
    let list = parse_scan_list(&rows, &ChildIndex::new(&ms), 10, &names()).unwrap();
    assert_eq!(list.count, Some(2));
    assert_eq!(list.scans.len(), 2);
    assert_eq!(list.scans[0].cv_params.len(), 2);
    assert_eq!(list.scans[1].cv_params.len(), 1);
}

#[test]
fn precursors_are_rebuilt_element_by_element() {
    let ms = spectrum_rows();
    let rows: Vec<&Metadatum> = ms.iter().collect();
    let ix = ChildIndex::new(&ms);
    let list = parse_precursor_list(&rows, &ix, 10, &names()).unwrap();
    assert_eq!(list.count, Some(1));
    assert_eq!(list.precursors.len(), 1);
    let p = &list.precursors[0];
    assert_eq!(p.spectrum_ref.as_deref(), Some("scan=0"));
    let window = p.isolation_window.as_ref().unwrap();
    assert_eq!(window.cv_params.len(), 1);
    assert_eq!(window.cv_params[0].accession.as_deref(), Some("MS:1000827"));
    assert_eq!(window.cv_params[0].value, ParamValue::Number(445.3f64.to_bits()));
    let ions = p.selected_ion_list.as_ref().unwrap();
    assert_eq!(ions.count, Some(1));
    assert_eq!(ions.selected_ions.len(), 1);
    assert_eq!(ions.selected_ions[0].cv_params.len(), 2);
    assert_eq!(ions.selected_ions[0].cv_params[0].name, "selected ion m/z");
    assert_eq!(ions.selected_ions[0].cv_params[1].accession.as_deref(), Some("MS:1000041"));
    let activation = p.activation.as_ref().unwrap();
    assert_eq!(activation.cv_params.len(), 1);
    assert_eq!(activation.cv_params[0].accession.as_deref(), Some("MS:1000133"));
    assert_eq!(parse_precursor_list(&rows, &ix, 11, &names()), None);
}

#[test]
fn products_are_rebuilt_with_their_window() {
    let ms = spectrum_rows();
    let rows: Vec<&Metadatum> = ms.iter().collect();
    let ix = ChildIndex::new(&ms);
    let list = parse_product_list(&rows, &ix, 10, &names()).unwrap();
    assert_eq!(list.count, Some(1));
    assert_eq!(list.products.len(), 1);
    let window = list.products[0].isolation_window.as_ref().unwrap();
    assert_eq!(window.cv_params[0].value, ParamValue::Number(100.0f64.to_bits()));
}

#[test]
fn spectrum_takes_the_lists_under_its_element() {
    let ms = spectrum_rows();
    let s = parse_spectrum(&ms, 0, &[], None, &names());
    assert_eq!(s.id, "scan=1");
    assert_eq!(s.scan_list.as_ref().unwrap().scans.len(), 2);
    assert_eq!(s.precursor_list.as_ref().unwrap().precursors.len(), 1);
    assert_eq!(s.product_list.as_ref().unwrap().products.len(), 1);
    assert!(s.cv_params.is_empty());
}

#[test]
fn chromatogram_is_rebuilt_from_its_records() {
    let ms = vec![
        row(3, 40, 2, TagId::Chromatogram, "B000:9900001", words("TIC")),
        row(3, 40, 2, TagId::Chromatogram, "B000:9900006", number(0.0)),
        row(3, 40, 2, TagId::Chromatogram, "B000:9900014", number(7.0)),
        row(3, 40, 2, TagId::Chromatogram, "MS:1000235", MetadatumValue::Empty),
        row(3, 41, 40, TagId::Precursor, "B000:9900017", words("scan=4")),
        row(3, 42, 41, TagId::IsolationWindow, "MS:1000827", number(300.0)),
        row(3, 43, 40, TagId::Product, "MS:1000000", MetadatumValue::Empty),
    ];
    let c = parse_chromatogram(&ms, 5, Some("dp"), &names());
    assert_eq!(c.id, "TIC");
    assert_eq!(c.index, Some(0));
    assert_eq!(c.default_array_length, Some(7));
    assert_eq!(c.data_processing_ref.as_deref(), Some("dp"));
    assert_eq!(c.cv_params.len(), 1);
    assert_eq!(c.cv_params[0].accession.as_deref(), Some("MS:1000235"));
    let p = c.precursor.as_ref().unwrap();
    assert_eq!(p.spectrum_ref.as_deref(), Some("scan=4"));
    assert_eq!(p.isolation_window.as_ref().unwrap().cv_params.len(), 1);
    assert_eq!(p.selected_ion_list, None);
    assert_eq!(p.activation, None);
    assert_eq!(c.product.as_ref().unwrap().isolation_window, None);
    let bare = parse_chromatogram(&[], 5, None, &names());
    assert_eq!(bare.index, Some(5));
    assert_eq!(bare.default_array_length, Some(0));
    assert_eq!(bare.precursor, None);
}

#[test]
fn chromatograms_follow_their_items() {
    let ms = vec![
        row(0, 2, 1, TagId::ChromatogramList, "B000:9900013", words("dp")),
        row(8, 50, 2, TagId::Chromatogram, "B000:9900001", words("BPC")),
        row(3, 40, 2, TagId::Chromatogram, "B000:9900001", words("TIC")),
        row(8, 50, 2, TagId::Chromatogram, "B000:9900012", words("own")),
    ];
    let list = parse_chromatogram_list(&ms, &names()).unwrap();
    assert_eq!(list.count, Some(2));
    assert_eq!(list.default_data_processing_ref.as_deref(), Some("dp"));
    assert_eq!(list.chromatograms.len(), 2);
    assert_eq!(list.chromatograms[0].id, "BPC");
    assert_eq!(list.chromatograms[0].index, Some(0));
    assert_eq!(list.chromatograms[0].data_processing_ref.as_deref(), Some("own"));
    assert_eq!(list.chromatograms[1].id, "TIC");
    assert_eq!(list.chromatograms[1].index, Some(1));
    assert_eq!(list.chromatograms[1].data_processing_ref.as_deref(), Some("dp"));
    let only_list = vec![row(0, 2, 1, TagId::ChromatogramList, "B000:9900005", number(4.0))];
    assert_eq!(parse_chromatogram_list(&only_list, &names()), None);
    assert_eq!(parse_chromatogram_list(&[], &names()), None);
}

#[test]
fn run_holds_the_chromatograms_of_the_records() {
    let ms = vec![
        row(0, 10, 1, TagId::Spectrum, "B000:9900001", words("scan=1")),
        row(1, 40, 2, TagId::Chromatogram, "B000:9900001", words("TIC")),
    ];
    let run = parse_run(&bare_schema(), &ms, &names());
    assert_eq!(run.spectrum_list.as_ref().unwrap().spectra.len(), 1);
    let list = run.chromatogram_list.as_ref().unwrap();
    assert_eq!(list.count, Some(1));
    assert_eq!(list.chromatograms[0].id, "TIC");
}
