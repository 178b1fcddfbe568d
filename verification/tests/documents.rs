use octo::array_list::new_binary_data_array;
use octo::attributes::{decimal_digits, front_records, split_front, ItemAttrs};
use octo::error::EncodeError;
use octo::binary_array::{ensure_float_flag, ms_float_param};
use octo::cv_table::CvTable;
use octo::decode::{decode, ms_cv_param};
use octo::document::{
    Cv, CvList, DataProcessing, DataProcessingList, Instrument, InstrumentList, MzML, SourceFile,
    ProcessingMethod, ReferenceableParamGroup, ReferenceableParamGroupList, Sample, SampleList,
    ScanSettings, ScanSettingsList, Software, SoftwareList,
};
use octo::file_writer::encode_flat;
use octo::flatten::{
    clone_cv_param, clone_param_value, collect_arrays, collect_spectrum_params, encode, flatten,
    is_lacking_elements, push_params,
};
use octo::header::parse_header;
use octo::params::{CvParam, ParamValue, ReferenceableParamGroupRef, UserParam};
use octo::run::{
    Activation, BinaryDataArray, BinaryDataArrayList, Chromatogram, ChromatogramList,
    IsolationWindow, Precursor, PrecursorList, Product, ProductList, Scan, ScanList, SelectedIon,
    SelectedIonList, Spectrum, SpectrumList,
};

fn table() -> CvTable {
    let mut t = CvTable::new();
    t.insert("MS:1000511", "ms level".to_string());
    t.insert("MS:1000514", "m/z array".to_string());
    t.insert("MS:1000515", "intensity array".to_string());
    t.insert("MS:1000595", "time array".to_string());
    t.insert("MS:1000827", "isolation window target m/z".to_string());
    t.insert("MS:1000744", "selected ion m/z".to_string());
    t.insert("MS:1000045", "collision energy".to_string());
    t
}

fn term(acc: &str, value: ParamValue) -> CvParam {
    let mut p = CvParam::empty();
    p.accession = Some(acc.to_string());
    p.value = value;
    p
}

fn num(x: f64) -> ParamValue {
    ParamValue::Number(x.to_bits())
}

fn text(s: &str) -> ParamValue {
    ParamValue::Text(s.to_string())
}

fn array(kind: &str, xs: &[f64]) -> BinaryDataArray {
    let mut a = new_binary_data_array();
    a.cv_params.push(term(kind, ParamValue::Empty));
    a.cv_params.push(ms_float_param(1000523));
    a.array_length = Some(xs.len());
    a.is_f64 = Some(true);
    a.decoded_binary_f64 = xs.iter().map(|x| x.to_bits()).collect();
    a
}

/// The document with every array narrowed to 32 bits.
fn narrowed(doc: &MzML) -> MzML {
    let mut d = doc.clone();
    let narrow = |l: &mut Option<BinaryDataArrayList>| {
        if let Some(l) = l {
            for a in l.binary_data_arrays.iter_mut() {
                a.decoded_binary_f32 =
                    a.decoded_binary_f64.iter().map(|b| (f64::from_bits(*b) as f32).to_bits()).collect();
                a.decoded_binary_f64.clear();
                ensure_float_flag(a, true);
            }
        }
    };
    if let Some(sl) = d.run.spectrum_list.as_mut() {
        for s in sl.spectra.iter_mut() {
            narrow(&mut s.binary_data_array_list);
        }
    }
    if let Some(cl) = d.run.chromatogram_list.as_mut() {
        for c in cl.chromatograms.iter_mut() {
            narrow(&mut c.binary_data_array_list);
        }
    }
    d
}

fn arrays(list: Vec<BinaryDataArray>) -> Option<BinaryDataArrayList> {
    Some(BinaryDataArrayList { count: Some(list.len()), binary_data_arrays: list })
}

fn sample_document() -> MzML {
    let mut doc = MzML::empty();
    doc.file_description.file_content.cv_params.push(term("MS:1000580", ParamValue::Empty));
    doc.cv_list = Some(CvList {
        count: Some(2),
        cv: vec![
            Cv { id: text("MS"), full_name: text("Mass spectrometry ontology"), version: text("4.1.0"), uri: text("https://example.org/ms.obo") },
            Cv { id: text("UO"), full_name: ParamValue::Empty, version: ParamValue::Empty, uri: text("https://example.org/uo.obo") },
        ],
    });
    let mut group = ReferenceableParamGroup::empty();
    group.cv_params.push(term("MS:1000130", ParamValue::Empty));
    doc.referenceable_param_group_list =
        Some(ReferenceableParamGroupList { count: Some(1), referenceable_param_groups: vec![group] });
    let mut sample = Sample::empty();
    sample.cv_params.push(term("MS:1000001", text("s1")));
    doc.sample_list = Some(SampleList { count: Some(1), samples: vec![sample] });
    let mut instrument = Instrument::empty();
    instrument.cv_param.push(term("MS:1000031", ParamValue::Empty));
    doc.instrument_list = Some(InstrumentList { count: Some(1), instrument: vec![instrument] });
    let mut software = Software::empty();
    software.cv_param.push(term("MS:1000615", ParamValue::Empty));
    doc.software_list = Some(SoftwareList { count: Some(1), software: vec![software] });
    let mut first = ProcessingMethod::empty();
    first.cv_param.push(term("MS:1000544", ParamValue::Empty));
    let mut second = ProcessingMethod::empty();
    second.cv_param.push(term("MS:1000035", ParamValue::Empty));
    let mut dp = DataProcessing::empty();
    dp.processing_method = vec![first, second];
    doc.data_processing_list =
        Some(DataProcessingList { count: Some(2), data_processing: vec![dp, DataProcessing::empty()] });
    let mut settings = ScanSettings::empty();
    settings.cv_params.push(term("MS:1000016", num(1.5)));
    doc.scan_settings_list = Some(ScanSettingsList { count: Some(1), scan_settings: vec![settings] });

    let mut s0 = Spectrum::empty();
    s0.id = "scan=19".to_string();
    s0.index = Some(0);
    s0.ms_level = Some(1);
    s0.scan_number = Some(19);
    s0.native_id = Some("controllerType=0 controllerNumber=1 scan=19".to_string());
    s0.spot_id = Some(String::new());
    s0.user_params.push(UserParam {
        name: "note".to_string(),
        kind: Some("xsd:string".to_string()),
        unit_accession: None,
        unit_cv_ref: None,
        unit_name: None,
        value: text("first"),
    });
    s0.user_params.push(UserParam {
        name: "gain".to_string(),
        kind: None,
        unit_accession: Some("UO:0000186".to_string()),
        unit_cv_ref: Some("UO".to_string()),
        unit_name: Some("dimensionless unit".to_string()),
        value: num(1.5),
    });
    s0.cv_params.push(term("MS:1000511", text("1")));
    s0.binary_data_array_list = arrays(vec![
        array("MS:1000515", &[10.0, 20.0, 30.0]),
        array("MS:1000514", &[400.5, 500.25, 600.125]),
    ]);
    let mut s1 = Spectrum::empty();
    s1.id = "scan=20".to_string();
    s1.index = Some(1);
    s1.ms_level = Some(2);
    s1.data_processing_ref = Some("dp1".to_string());
    s1.source_file_ref = Some("sf1".to_string());
    s1.cv_params.push(term("MS:1000511", text("2")));
    s1.precursor_list = Some(PrecursorList {
        count: Some(1),
        precursors: vec![Precursor {
            spectrum_ref: Some("scan=19".to_string()),
            isolation_window: Some(IsolationWindow {
                cv_params: vec![term("MS:1000827", num(445.34))],
                user_params: vec![],
            }),
            selected_ion_list: Some(SelectedIonList {
                count: Some(1),
                selected_ions: vec![SelectedIon {
                    cv_params: vec![term("MS:1000744", num(445.3))],
                    user_params: vec![],
                }],
            }),
            activation: Some(Activation {
                cv_params: vec![term("MS:1000045", num(35.0))],
                user_params: vec![],
            }),
        }],
    });
    s1.binary_data_array_list = arrays(vec![array("MS:1000514", &[1.0]), array("MS:1000515", &[2.0])]);
    s0.scan_list = Some(ScanList {
        count: Some(1),
        cv_params: vec![term("MS:1000795", ParamValue::Empty)],
        user_params: vec![],
        scans: vec![Scan {
            cv_params: vec![term("MS:1000016", num(5.8905))],
            user_params: vec![UserParam {
                name: "filter".to_string(),
                kind: None,
                unit_accession: None,
                unit_cv_ref: None,
                unit_name: None,
                value: text("+ c NSI Full ms"),
            }],
        }],
    });
    s0.referenceable_param_group_refs.push(ReferenceableParamGroupRef { reference: "common".to_string() });
    s1.product_list = Some(ProductList {
        count: Some(1),
        products: vec![Product {
            isolation_window: Some(IsolationWindow {
                cv_params: vec![term("MS:1000827", num(200.0))],
                user_params: vec![],
            }),
        }],
    });
    let s2 = Spectrum::empty();
    doc.run.id = "Experiment 1".to_string();
    doc.run.start_time_stamp = Some("2007-06-27T15:23:45".to_string());
    doc.run.sample_ref = Some("sp1".to_string());
    doc.run.cv_params.push(term("MS:1000857", ParamValue::Empty));
    doc.file_description.source_file_list.source_file.push(SourceFile {
        id: "sf1".to_string(),
        name: "tiny1.RAW".to_string(),
        location: "file://F:/data/Exp01".to_string(),
        cv_param: vec![term("MS:1000563", ParamValue::Empty)],
    });
    doc.run.spectrum_list = Some(SpectrumList {
        count: Some(3),
        default_data_processing_ref: None,
        spectra: vec![s0, s1, s2],
    });
    let mut c0 = Chromatogram::empty();
    c0.id = "TIC".to_string();
    c0.index = Some(0);
    c0.native_id = Some("tic".to_string());
    c0.data_processing_ref = Some("dp1".to_string());
    c0.user_params.push(UserParam {
        name: "smoothed".to_string(),
        kind: None,
        unit_accession: None,
        unit_cv_ref: None,
        unit_name: None,
        value: ParamValue::Empty,
    });
    c0.cv_params.push(term("MS:1000235", ParamValue::Empty));
    c0.binary_data_array_list = arrays(vec![array("MS:1000595", &[0.5, 1.0]), array("MS:1000515", &[7.0, 8.0])]);
    doc.run.chromatogram_list = Some(ChromatogramList {
        count: Some(1),
        default_data_processing_ref: None,
        chromatograms: vec![c0],
    });
    doc
}

fn bits(xs: &[f64]) -> Vec<u64> {
    xs.iter().map(|x| x.to_bits()).collect()
}

fn bits32(xs: &[f32]) -> Vec<u32> {
    xs.iter().map(|x| x.to_bits()).collect()
}

fn f64_bytes(xs: &[f64]) -> Vec<u8> {
    xs.iter().flat_map(|x| x.to_le_bytes()).collect()
}

fn accessions(ps: &[CvParam]) -> Vec<&str> {
    ps.iter().map(|p| p.accession.as_deref().unwrap_or("")).collect()
}

#[test]
fn values_and_terms_are_copied() {
    assert_eq!(clone_param_value(&num(1.5)), num(1.5));
    assert_eq!(clone_param_value(&text("a")), text("a"));
    assert_eq!(clone_param_value(&ParamValue::Empty), ParamValue::Empty);
    let mut p = term("MS:1000016", num(2.0));
    p.cv_ref = Some("MS".to_string());
    p.name = "scan start time".to_string();
    p.unit_accession = Some("UO:0000031".to_string());
    p.unit_cv_ref = Some("UO".to_string());
    p.unit_name = Some("minute".to_string());
    assert_eq!(clone_cv_param(&p), p);
    let mut out = vec![term("MS:1", ParamValue::Empty)];
    push_params(&mut out, &vec![p.clone(), term("MS:2", ParamValue::Empty)]);
    assert_eq!(out.len(), 3);
    assert_eq!(out[1], p);
    assert_eq!(accessions(&out), vec!["MS:1", "MS:1000016", "MS:2"]);
}

#[test]
fn spectrum_is_written_with_the_terms_of_its_precursors() {
    let doc = sample_document();
    let spectra = &doc.run.spectrum_list.as_ref().unwrap().spectra;
    let first = collect_spectrum_params(&spectra[0]);
    assert_eq!(first.len(), 10 + 2 * 6 + 1);
    assert_eq!(
        accessions(&first[..10]),
        vec![
            "9900001", "9900006", "9900008", "9900009", "9900012", "9900011", "9900010", "9900007",
            "9900017", "9900018",
        ]
    );
    assert_eq!(first[0].value, text("scan=19"));
    assert_eq!(first[1].value, text("0"));
    assert_eq!(first[2].value, text("19"));
    assert_eq!(first[4].value, ParamValue::Empty);
    assert_eq!(first[6].value, text(""));
    assert_eq!(first[7].value, text("1"));
    assert_eq!(first[9].value, text("2"));
    assert!(first[10..22].iter().all(|p| p.accession.as_deref() == Some("9900019")));
    assert_eq!(first[10].value, text("note"));
    assert_eq!(first[11].value, text("xsd:string"));
    assert_eq!(first[15].value, text("first"));
    assert_eq!(first[16].value, text("gain"));
    assert_eq!(first[17].value, ParamValue::Empty);
    assert_eq!(first[18].value, text("UO:0000186"));
    assert_eq!(first[21].value, num(1.5));
    assert_eq!(accessions(&first[22..]), vec!["MS:1000511"]);
    let second = collect_spectrum_params(&spectra[1]);
    assert_eq!(second[8].value, text("scan=19"));
    assert_eq!(second[9].value, text("0"));
    assert_eq!(
        accessions(&second[10..]),
        vec!["MS:1000511", "MS:1000827", "MS:1000744", "MS:1000045"]
    );
    assert_eq!(collect_spectrum_params(&spectra[2]).len(), 10);
}

#[test]
fn arrays_are_picked_by_their_terms() {
    let doc = sample_document();
    let spectra = &doc.run.spectrum_list.as_ref().unwrap().spectra;
    let (x, y) = collect_arrays(&spectra[0].binary_data_array_list, 1000514, 2);
    assert_eq!(x, f64_bytes(&[400.5, 500.25, 600.125]));
    assert_eq!(y, f64_bytes(&[10.0, 20.0, 30.0]));
    let narrow = narrowed(&doc);
    let narrow_spectra = &narrow.run.spectrum_list.as_ref().unwrap().spectra;
    let (x, y) = collect_arrays(&narrow_spectra[0].binary_data_array_list, 1000514, 1);
    assert_eq!(x.len(), 12);
    assert_eq!(&x[..4], &400.5f32.to_le_bytes());
    assert_eq!(&y[8..], &30.0f32.to_le_bytes());
    let (x, y) = collect_arrays(&spectra[2].binary_data_array_list, 1000514, 2);
    assert!(x.is_empty() && y.is_empty());
    let (x, y) = collect_arrays(&arrays(vec![]), 1000514, 2);
    assert!(x.is_empty() && y.is_empty());
    let plain = arrays(vec![
        {
            let mut a = new_binary_data_array();
            a.decoded_binary_f64 = bits(&[1.0]);
            a
        },
        {
            let mut a = new_binary_data_array();
            a.decoded_binary_f64 = bits(&[2.0]);
            a
        },
    ]);
    let (x, y) = collect_arrays(&plain, 1000595, 2);
    assert_eq!(x, f64_bytes(&[1.0]));
    assert_eq!(y, f64_bytes(&[2.0]));
    let single = arrays(vec![array("MS:1000595", &[3.0])]);
    let (x, y) = collect_arrays(&single, 1000595, 2);
    assert_eq!(x, f64_bytes(&[3.0]));
    assert_eq!(y, f64_bytes(&[3.0]));
}

#[test]
fn document_is_laid_out_flat() {
    let doc = sample_document();
    let f = flatten(&doc, 2).unwrap();
    assert_eq!(f.fmt, 2);
    assert_eq!(f.spec_params.len(), 3);
    assert_eq!(f.spec_x.len(), 3);
    assert_eq!(f.spec_y.len(), 3);
    assert_eq!(f.spec_x[0], f64_bytes(&[400.5, 500.25, 600.125]));
    assert_eq!(f.spec_y[1], f64_bytes(&[2.0]));
    assert!(f.spec_x[2].is_empty());
    assert_eq!(
        accessions(&f.spec_params[1][10..]),
        vec!["MS:1000511", "MS:1000827", "MS:1000744", "MS:1000045"]
    );
    assert_eq!(f.chrom_params[0].len(), 10 + 6 + 1);
    assert_eq!(f.chrom_params.len(), 1);
    assert_eq!(f.chrom_x[0], f64_bytes(&[0.5, 1.0]));
    assert_eq!(f.chrom_y[0], f64_bytes(&[7.0, 8.0]));
    let c = f.counts;
    assert_eq!(
        (c.n_fd, c.n_rpg, c.n_samp, c.n_inst, c.n_soft, c.n_dp, c.n_acq, c.n_cvs),
        (1, 1, 1, 1, 1, 2, 1, 2)
    );
    assert_eq!(f.global_items.len(), 10);
    assert_eq!(f.global_items[0][0].accession.as_deref(), Some("9900023"));
    assert_eq!(f.global_items[0][1].accession.as_deref(), Some("9900021"));
    assert_eq!(f.global_items[0].last().unwrap().accession.as_deref(), Some("MS:1000580"));
    assert_eq!(accessions(&f.global_items[1]), vec!["MS:1000130"]);
    assert_eq!(accessions(&f.global_items[2]), vec!["MS:1000001"]);
    assert_eq!(accessions(&f.global_items[3]), vec!["MS:1000031"]);
    assert_eq!(accessions(&f.global_items[4]), vec!["MS:1000615"]);
    assert_eq!(accessions(&f.global_items[5]), vec!["MS:1000544"]);
    assert!(f.global_items[6].is_empty());
    assert_eq!(accessions(&f.global_items[7]), vec!["MS:1000016"]);
    assert_eq!(accessions(&f.global_items[8]), vec!["9900001", "9900002", "9900003", "9900004"]);
    assert_eq!(f.global_items[8][2].value, text("4.1.0"));
    assert_eq!(f.global_items[9][1].value, ParamValue::Empty);
}

#[test]
fn empty_document_is_laid_out_flat() {
    let f = flatten(&MzML::empty(), 1).unwrap();
    assert!(f.spec_params.is_empty() && f.spec_x.is_empty() && f.spec_y.is_empty());
    assert!(f.chrom_params.is_empty() && f.chrom_x.is_empty() && f.chrom_y.is_empty());
    assert_eq!(f.counts.n_fd, 1);
    assert_eq!(f.counts.n_cvs, 0);
    assert_eq!(f.global_items.len(), 1);
    assert_eq!(f.global_items[0][0].accession.as_deref(), Some("9900023"));
    assert_eq!(f.global_items[0].last().unwrap().accession.as_deref(), Some("9900022"));
}

fn check_document_round_trip(level: u8) {
    let doc = sample_document();
    let bytes = encode(&doc, level, false).unwrap();
    assert_eq!(bytes, encode_flat(&flatten(&doc, 2).unwrap(), level).unwrap());
    let back = decode(&bytes, &table()).unwrap();
    assert_eq!(back, doc);
    let s0 = &back.run.spectrum_list.as_ref().unwrap().spectra[0];
    assert_eq!(s0.id, "scan=19");
    assert_eq!(s0.ms_level, Some(1));
    assert_eq!(s0.scan_list.as_ref().unwrap().scans[0].cv_params[0].value, num(5.8905));
    assert_eq!(s0.user_params.len(), 2);
    let a0 = &s0.binary_data_array_list.as_ref().unwrap().binary_data_arrays;
    assert_eq!(a0[1].decoded_binary_f64, bits(&[400.5, 500.25, 600.125]));
    assert_eq!(a0[0].decoded_binary_f64, bits(&[10.0, 20.0, 30.0]));
    assert_eq!(back.run.id, "Experiment 1");
    let narrow = narrowed(&doc);
    let bytes = encode(&narrow, level, true).unwrap();
    assert_eq!(decode(&bytes, &table()).unwrap(), narrow);
}

#[test]
fn document_round_trips_without_compression() {
    check_document_round_trip(0);
}

#[test]
fn document_round_trips_with_compression() {
    check_document_round_trip(3);
    check_document_round_trip(19);
}

#[test]
fn decoded_document_is_written_as_the_same_file() {
    for level in [0u8, 5] {
        let first = encode(&sample_document(), level, false).unwrap();
        let back = decode(&first, &table()).unwrap();
        let second = encode(&back, level, false).unwrap();
        let again = decode(&second, &table()).unwrap();
        assert_eq!(back, again);
    }
}

#[test]
fn single_precision_file_holds_the_32_bit_vectors() {
    let doc = narrowed(&sample_document());
    let bytes = encode(&doc, 0, true).unwrap();
    let h = parse_header(&bytes).unwrap();
    assert_eq!((h.spect_x_fmt, h.spect_y_fmt, h.chrom_x_fmt, h.chrom_y_fmt), (1, 1, 1, 1));
    let wide = encode(&sample_document(), 0, false).unwrap();
    assert!(bytes.len() < wide.len());
    let back = decode(&bytes, &table()).unwrap();
    assert_eq!(back, doc);
    let sl = back.run.spectrum_list.unwrap();
    let a0 = &sl.spectra[0].binary_data_array_list.as_ref().unwrap().binary_data_arrays;
    assert_eq!(a0[1].decoded_binary_f32, bits32(&[400.5, 500.25, 600.125]));
    assert!(a0[1].decoded_binary_f64.is_empty());
    assert_eq!(a0[1].is_f32, Some(true));
    assert_eq!(accessions(&a0[1].cv_params), vec!["MS:1000514", "MS:1000521"]);
}

#[test]
fn empty_document_round_trips() {
    let bytes = encode(&MzML::empty(), 0, false).unwrap();
    let back = decode(&bytes, &table()).unwrap();
    assert_eq!(back, MzML::empty());
}

#[test]
fn arrays_without_terms_go_out_in_their_order() {
    let mut doc = MzML::empty();
    let mut s = Spectrum::empty();
    let mut a = new_binary_data_array();
    a.decoded_binary_f64 = bits(&[1.0, 2.0]);
    let mut b = new_binary_data_array();
    b.decoded_binary_f64 = bits(&[3.0]);
    let mut c = new_binary_data_array();
    c.decoded_binary_f64 = bits(&[9.0]);
    s.binary_data_array_list = arrays(vec![a, b, c]);
    doc.run.spectrum_list =
        Some(SpectrumList { count: None, default_data_processing_ref: None, spectra: vec![s] });
    let bytes = encode(&doc, 0, false).unwrap();
    let back = decode(&bytes, &table()).unwrap();
    let got = &back.run.spectrum_list.as_ref().unwrap().spectra[0];
    let list = &got.binary_data_array_list.as_ref().unwrap().binary_data_arrays;
    assert_eq!(list.len(), 3);
    assert_eq!(list[0].decoded_binary_f64, bits(&[1.0, 2.0]));
    assert_eq!(list[1].decoded_binary_f64, bits(&[3.0]));
    assert!(list[2].decoded_binary_f64.is_empty());
    assert_eq!(list[0].cv_params, vec![ms_float_param(1000523)]);
    assert_eq!(list[0].is_f64, Some(true));
    assert_eq!(list[2].is_f64, None);
    assert_eq!(got.default_array_length, None);
}

#[test]
fn wide_intensities_written_narrow_come_back_narrow() {
    let wide = [1.0f64, 2.0, 3.0, 1e30, 1e39];
    let mut y = new_binary_data_array();
    y.cv_params.push(term("MS:1000515", ParamValue::Empty));
    y.cv_params.push(term("MS:1000523", ParamValue::Empty));
    y.decoded_binary_f64 = wide.iter().map(|x| x.to_bits()).collect();
    y.decoded_binary_f32 = wide.iter().map(|x| (*x as f32).to_bits()).collect();
    let mut x = new_binary_data_array();
    x.cv_params.push(term("MS:1000514", ParamValue::Empty));
    x.decoded_binary_f64 = bits(&[100.0, 200.0, 300.0, 400.0, 500.0]);
    x.decoded_binary_f32 = bits32(&[100.0, 200.0, 300.0, 400.0, 500.0]);
    let mut s = Spectrum::empty();
    s.binary_data_array_list = arrays(vec![x, y]);
    let mut doc = MzML::empty();
    doc.run.spectrum_list =
        Some(SpectrumList { count: Some(1), default_data_processing_ref: None, spectra: vec![s] });
    let bytes = encode(&doc, 3, true).unwrap();
    let back = decode(&bytes, &table()).unwrap();
    let list = &back.run.spectrum_list.as_ref().unwrap().spectra[0];
    let got = &list.binary_data_array_list.as_ref().unwrap().binary_data_arrays[1];
    let values: Vec<f32> = got.decoded_binary_f32.iter().map(|b| f32::from_bits(*b)).collect();
    assert_eq!(values, vec![1.0f32, 2.0, 3.0, 1e30, f32::INFINITY]);
    assert!(got.decoded_binary_f64.is_empty());
    assert_eq!(got.is_f32, Some(true));
    assert_eq!(got.is_f64, None);
    assert_eq!(accessions(&got.cv_params), vec!["MS:1000515", "MS:1000521"]);
    assert_eq!(got.cv_params[1].name, "32-bit float");
    assert!(got.cv_params.iter().all(|p| p.accession.as_deref() != Some("MS:1000523")));
}

#[test]
fn two_spectra_with_a_precursor_round_trip() {
    let mut t = table();
    t.insert("MS:1000285", "total ion current".to_string());
    t.insert("MS:1000041", "charge state".to_string());
    let mz: Vec<f64> = (0..15).map(|i| i as f64).collect();
    let inten: Vec<f64> = (0..15).map(|i| (15 - i) as f64).collect();
    let mz2: Vec<f64> = (0..10).map(|i| (2 * i) as f64).collect();
    let inten2: Vec<f64> = (0..10).map(|i| (20 - 2 * i) as f64).collect();
    let mut first = Spectrum::empty();
    first.id = "S19".to_string();
    first.index = Some(0);
    first.ms_level = Some(1);
    first.cv_params.push(term("MS:1000511", text("1")));
    first.cv_params.push(term("MS:1000285", text("16675500")));
    first.binary_data_array_list = arrays(vec![array("MS:1000514", &mz), array("MS:1000515", &inten)]);
    let mut unit = term("MS:1000045", num(35.0));
    unit.unit_accession = Some("UO:0000266".to_string());
    let mut second = Spectrum::empty();
    second.id = "S20".to_string();
    second.index = Some(1);
    second.ms_level = Some(2);
    second.cv_params.push(term("MS:1000511", text("2")));
    second.precursor_list = Some(PrecursorList {
        count: Some(1),
        precursors: vec![Precursor {
            spectrum_ref: Some("S19".to_string()),
            isolation_window: None,
            selected_ion_list: Some(SelectedIonList {
                count: Some(1),
                selected_ions: vec![SelectedIon {
                    cv_params: vec![term("MS:1000040", num(445.34)), term("MS:1000041", text("2"))],
                    user_params: vec![],
                }],
            }),
            activation: Some(Activation { cv_params: vec![unit], user_params: vec![] }),
        }],
    });
    second.binary_data_array_list = arrays(vec![array("MS:1000514", &mz2), array("MS:1000515", &inten2)]);
    let mut doc = MzML::empty();
    doc.run.spectrum_list = Some(SpectrumList {
        count: Some(2),
        default_data_processing_ref: None,
        spectra: vec![first, second],
    });
    let bytes = encode(&doc, 12, false).unwrap();
    let back = decode(&bytes, &t).unwrap();
    assert_eq!(back, doc);
    let sl = back.run.spectrum_list.as_ref().unwrap();
    assert_eq!(sl.count, Some(2));
    let s0 = &sl.spectra[0];
    assert_eq!(s0.id, "S19");
    assert_eq!(s0.index, Some(0));
    assert_eq!(s0.ms_level, Some(1));
    assert_eq!(s0.cv_params[0].accession.as_deref(), Some("MS:1000511"));
    assert_eq!(s0.cv_params[0].value, text("1"));
    assert_eq!(s0.cv_params[1].accession.as_deref(), Some("MS:1000285"));
    assert_eq!(s0.cv_params[1].value, text("16675500"));
    let a0 = &s0.binary_data_array_list.as_ref().unwrap().binary_data_arrays;
    assert_eq!(a0.len(), 2);
    assert_eq!(a0[0].decoded_binary_f64, bits(&mz));
    assert_eq!(a0[1].decoded_binary_f64, bits(&inten));
    assert_eq!(a0[0].array_length, Some(15));
    assert_eq!(accessions(&a0[0].cv_params), vec!["MS:1000514", "MS:1000523"]);
    assert_eq!(accessions(&a0[1].cv_params), vec!["MS:1000515", "MS:1000523"]);
    let s1 = &sl.spectra[1];
    assert_eq!(s1.id, "S20");
    assert_eq!(s1.index, Some(1));
    assert_eq!(s1.ms_level, Some(2));
    assert_eq!(s1.cv_params[0].value, text("2"));
    let pre = &s1.precursor_list.as_ref().unwrap().precursors;
    assert_eq!(pre.len(), 1);
    assert_eq!(pre[0].spectrum_ref.as_deref(), Some("S19"));
    let ion = &pre[0].selected_ion_list.as_ref().unwrap().selected_ions[0];
    assert_eq!(ion.cv_params[0].accession.as_deref(), Some("MS:1000040"));
    assert_eq!(ion.cv_params[0].value, num(445.34));
    assert_eq!(ion.cv_params[1].accession.as_deref(), Some("MS:1000041"));
    assert_eq!(ion.cv_params[1].value, text("2"));
    let act = &pre[0].activation.as_ref().unwrap().cv_params[0];
    assert_eq!(act.value, num(35.0));
    assert_eq!(act.unit_accession.as_deref(), Some("UO:0000266"));
    let a1 = &s1.binary_data_array_list.as_ref().unwrap().binary_data_arrays;
    assert_eq!(a1[0].decoded_binary_f64, bits(&mz2));
    assert_eq!(a1[1].decoded_binary_f64, bits(&inten2));
    assert_eq!(a1[0].array_length, Some(10));
}

#[test]
fn array_with_elements_of_the_other_width_only_is_refused() {
    let mut a = new_binary_data_array();
    a.decoded_binary_f64 = bits(&[1.0, 2.0]);
    let mut s = Spectrum::empty();
    s.binary_data_array_list = arrays(vec![a.clone(), a]);
    let mut doc = MzML::empty();
    doc.run.spectrum_list =
        Some(SpectrumList { count: None, default_data_processing_ref: None, spectra: vec![s] });
    assert!(encode(&doc, 0, false).is_ok());
    assert_eq!(encode(&doc, 0, true), Err(EncodeError::MissingElements));
    assert!(is_lacking_elements(&doc, 1));
    assert!(!is_lacking_elements(&doc, 2));
    let mut narrow = new_binary_data_array();
    narrow.decoded_binary_f32 = bits32(&[1.0]);
    let mut c = Chromatogram::empty();
    c.binary_data_array_list = arrays(vec![narrow]);
    let mut doc = MzML::empty();
    doc.run.chromatogram_list = Some(ChromatogramList {
        count: None,
        default_data_processing_ref: None,
        chromatograms: vec![c],
    });
    assert!(encode(&doc, 0, true).is_ok());
    assert_eq!(encode(&doc, 3, false), Err(EncodeError::MissingElements));
    assert_eq!(EncodeError::MissingElements.message(), "elements of the chosen width are missing");
    assert!(!is_lacking_elements(&MzML::empty(), 1));
}

#[test]
fn front_records_are_read_back() {
    let attrs = ItemAttrs {
        id: "S1".to_string(),
        index: Some(7),
        scan_number: None,
        native_id: Some("n".to_string()),
        data_processing_ref: None,
        source_file_ref: Some(String::new()),
        spot_id: None,
        ms_level: Some(u32::MAX),
        spectrum_ref: Some("S0".to_string()),
    };
    let users = vec![
        UserParam {
            name: "a".to_string(),
            kind: None,
            unit_accession: None,
            unit_cv_ref: None,
            unit_name: None,
            value: ParamValue::Empty,
        },
        UserParam {
            name: String::new(),
            kind: Some("t".to_string()),
            unit_accession: Some("UO:1".to_string()),
            unit_cv_ref: Some("UO".to_string()),
            unit_name: Some("u".to_string()),
            value: num(2.0),
        },
    ];
    let mut params = front_records(&attrs, &users);
    assert_eq!(params.len(), 22);
    params.push(term("MS:1000511", text("1")));
    params.push(term("9900001", text("late")));
    let (front, rest) = split_front(params.clone());
    let (a, u) = front.unwrap();
    assert_eq!(a.id, "S1");
    assert_eq!(a.index, Some(7));
    assert_eq!(a.scan_number, None);
    assert_eq!(a.native_id.as_deref(), Some("n"));
    assert_eq!(a.data_processing_ref, None);
    assert_eq!(a.source_file_ref.as_deref(), Some(""));
    assert_eq!(a.spot_id, None);
    assert_eq!(a.ms_level, Some(u32::MAX));
    assert_eq!(a.spectrum_ref.as_deref(), Some("S0"));
    assert_eq!(u, users);
    assert_eq!(accessions(&rest), vec!["MS:1000511", "9900001"]);
    let (none, all) = split_front(params[1..].to_vec());
    assert!(none.is_none());
    assert_eq!(all.len(), 23);
    let (none, all) = split_front(params[..21].to_vec());
    assert!(none.is_none());
    assert_eq!(all.len(), 21);
    let mut marked = params.clone();
    marked[3].cv_ref = Some("MS".to_string());
    assert!(split_front(marked).0.is_none());
    let mut miscounted = params.clone();
    miscounted[9].value = text("3");
    assert!(split_front(miscounted).0.is_none());
    let (none, all) = split_front(Vec::new());
    assert!(none.is_none() && all.is_empty());
    assert_eq!(decimal_digits(0), b"0");
    assert_eq!(decimal_digits(1234567890123), b"1234567890123");
}
