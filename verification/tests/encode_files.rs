//! Files written by the encoder and read back by the decoder.

use octo::container::Container;
use octo::cv_table::CvTable;
use octo::decode::decode;
use octo::error::EncodeError;
use octo::file_writer::{encode_flat, FlatFile};
use octo::global::GlobalCounts;
use octo::header::parse_header;
use octo::params::{CvParam, ParamValue};

fn table() -> CvTable {
    let mut t = CvTable::new();
    t.insert("MS:1000511", "ms level".to_string());
    t.insert("MS:1000514", "m/z array".to_string());
    t.insert("MS:1000515", "intensity array".to_string());
    t.insert("MS:1000595", "time array".to_string());
    t.insert("UO:0000031", "minute".to_string());
    t.insert("MS:1000016", "scan start time".to_string());
    t
}

fn term(acc: &str, value: ParamValue) -> CvParam {
    let mut p = CvParam::empty();
    p.accession = Some(acc.to_string());
    p.value = value;
    p
}

fn f64s(xs: &[f64]) -> Vec<u8> {
    xs.iter().flat_map(|x| x.to_le_bytes()).collect()
}

fn f32s(xs: &[f32]) -> Vec<u8> {
    xs.iter().flat_map(|x| x.to_le_bytes()).collect()
}

fn no_counts() -> GlobalCounts {
    GlobalCounts { n_fd: 0, n_rpg: 0, n_samp: 0, n_inst: 0, n_soft: 0, n_dp: 0, n_acq: 0, n_cvs: 0 }
}

fn sample() -> FlatFile {
    let mut timed = term("MS:1000016", ParamValue::Number(5.8905f64.to_bits()));
    timed.unit_accession = Some("UO:0000031".to_string());
    FlatFile {
        spec_params: vec![
            vec![term("MS:1000511", ParamValue::Text("1".to_string())), timed],
            vec![
                term("MS:1000511", ParamValue::Text("2".to_string())),
                term("MS:1000827", ParamValue::Number(445.34f64.to_bits())),
                term("NCIT:C00123", ParamValue::Empty),
                term("17", ParamValue::Text("1".to_string())),
            ],
            vec![],
        ],
        spec_x: vec![f64s(&[400.5, 500.25, 600.125]), f64s(&[445.34, 446.0]), f64s(&[])],
        spec_y: vec![f64s(&[10.0, 20.0, 30.0]), f64s(&[1.5, 2.5]), f64s(&[])],
        chrom_params: vec![vec![term("MS:1000235", ParamValue::Empty)]],
        chrom_x: vec![f64s(&[0.5, 1.0])],
        chrom_y: vec![f64s(&[7.0, 8.0])],
        counts: GlobalCounts { n_fd: 1, n_rpg: 0, n_samp: 2, n_inst: 0, n_soft: 0, n_dp: 0, n_acq: 0, n_cvs: 1 },
        global_items: vec![
            vec![term("MS:1000580", ParamValue::Empty)],
            vec![term("MS:1000001", ParamValue::Text("s1".to_string()))],
            vec![],
            vec![
                term("9900001", ParamValue::Text("MS".to_string())),
                term("9900003", ParamValue::Text("2.0.2".to_string())),
            ],
        ],
        fmt: 2,
    }
}

fn bits64(xs: &[f64]) -> Vec<u64> {
    xs.iter().map(|x| x.to_bits()).collect()
}

fn check_round_trip(level: u8) {
    let f = sample();
    let bytes = encode_flat(&f, level).unwrap();
    let doc = decode(&bytes, &table()).unwrap();
    let sl = doc.run.spectrum_list.unwrap();
    assert_eq!(sl.count, Some(3));
    let s0 = &sl.spectra[0];
    assert_eq!(s0.cv_params.len(), 2);
    assert_eq!(s0.cv_params[0].accession.as_deref(), Some("MS:1000511"));
    assert_eq!(s0.cv_params[0].cv_ref.as_deref(), Some("MS"));
    assert_eq!(s0.cv_params[0].name, "ms level");
    assert_eq!(s0.cv_params[0].value, ParamValue::Text("1".to_string()));
    assert_eq!(s0.cv_params[1].value, ParamValue::Number(5.8905f64.to_bits()));
    assert_eq!(s0.cv_params[1].unit_accession.as_deref(), Some("UO:0000031"));
    assert_eq!(s0.cv_params[1].unit_name.as_deref(), Some("minute"));
    let a0 = s0.binary_data_array_list.as_ref().unwrap();
    assert_eq!(a0.binary_data_arrays[0].decoded_binary_f64, bits64(&[400.5, 500.25, 600.125]));
    assert_eq!(a0.binary_data_arrays[1].decoded_binary_f64, bits64(&[10.0, 20.0, 30.0]));
    let s1 = &sl.spectra[1];
    // the isolation window term moved into the precursor list
    assert_eq!(s1.cv_params.len(), 3);
    assert_eq!(s1.cv_params[1].accession.as_deref(), Some("NCIT:C00123"));
    assert_eq!(s1.cv_params[2].accession.as_deref(), Some("17"));
    assert_eq!(s1.cv_params[2].value, ParamValue::Text("1".to_string()));
    let pre = &s1.precursor_list.as_ref().unwrap().precursors[0];
    assert_eq!(
        pre.isolation_window.as_ref().unwrap().cv_params[0].value,
        ParamValue::Number(445.34f64.to_bits())
    );
    let a1 = s1.binary_data_array_list.as_ref().unwrap();
    assert_eq!(a1.binary_data_arrays[0].decoded_binary_f64, bits64(&[445.34, 446.0]));
    assert_eq!(a1.binary_data_arrays[1].decoded_binary_f64, bits64(&[1.5, 2.5]));
    let s2 = &sl.spectra[2];
    assert!(s2.cv_params.is_empty());
    assert_eq!(s2.default_array_length, Some(0));
    assert!(s2.binary_data_array_list.as_ref().unwrap().binary_data_arrays[0].decoded_binary_f64.is_empty());
    let cl = doc.run.chromatogram_list.unwrap();
    assert_eq!(cl.chromatograms.len(), 1);
    let c0 = cl.chromatograms[0].binary_data_array_list.as_ref().unwrap();
    assert_eq!(c0.binary_data_arrays[0].decoded_binary_f64, bits64(&[0.5, 1.0]));
    assert_eq!(c0.binary_data_arrays[1].decoded_binary_f64, bits64(&[7.0, 8.0]));
    assert_eq!(doc.file_description.file_content.cv_params[0].accession.as_deref(), Some("MS:1000580"));
    let samples = doc.sample_list.unwrap();
    assert_eq!(samples.samples.len(), 2);
    assert_eq!(samples.samples[0].cv_params[0].value, ParamValue::Text("s1".to_string()));
    assert!(samples.samples[1].cv_params.is_empty());
    let cvs = doc.cv_list.unwrap();
    assert_eq!(cvs.cv[0].id, ParamValue::Text("MS".to_string()));
    assert_eq!(cvs.cv[0].version, ParamValue::Text("2.0.2".to_string()));
    assert_eq!(cvs.cv[0].full_name, ParamValue::Empty);
}

#[test]
fn raw_file_round_trips() {
    check_round_trip(0);
}

#[test]
fn compressed_file_round_trips() {
    check_round_trip(3);
    check_round_trip(12);
    check_round_trip(22);
}

#[test]
fn header_of_encoder_output_is_in_order() {
    for level in [0u8, 5] {
        let bytes = encode_flat(&sample(), level).unwrap();
        assert_eq!(&bytes[0..4], b"B000");
        assert_eq!(bytes[4], 0);
        let h = parse_header(&bytes).unwrap();
        let len = bytes.len() as u64;
        let offs = [
            h.off_spec_index,
            h.off_chrom_index,
            h.off_spec_meta,
            h.off_chrom_meta,
            h.off_global_meta,
            h.off_container_spect_x,
            h.off_container_spect_y,
            h.off_container_chrom_x,
            h.off_container_chrom_y,
        ];
        assert_eq!(h.off_spec_index, 192);
        for w in offs.windows(2) {
            assert!(w[0] <= w[1]);
        }
        for o in offs {
            assert!(o <= len);
        }
        assert_eq!(h.off_container_chrom_y + h.size_container_chrom_y, len);
        assert_eq!(h.spectrum_count, 3);
        assert_eq!(h.chrom_count, 1);
        assert_eq!(h.compression_level, level);
        assert_eq!(h.array_filter, if level == 0 { 0 } else { 1 });
        assert_eq!(h.codec_flags, if level == 0 { 1 } else { 0x71 });
        // the block count is the length of the directory
        let c = Container::new(
            &bytes,
            h.off_container_spect_x as usize,
            h.size_container_spect_x as usize,
            h.block_count_spect_x,
            1,
            level,
            8,
            h.array_filter,
        )
        .unwrap();
        assert_eq!(c.block_count(), h.block_count_spect_x as usize);
        assert_eq!(c.block_count(), 1);
        // the directory accounts for the elements of all arrays
        let elems: u64 = c.dir.iter().map(|e| e.uncomp_bytes / 8).sum();
        assert_eq!(elems, 5);
        assert_eq!(c.block_start_elems, vec![0, 5]);
    }
}

#[test]
fn thirty_two_bit_file_round_trips() {
    let mut f = sample();
    f.fmt = 1;
    f.spec_x = vec![f32s(&[1.0, 2.0, 3.0]), f32s(&[4.0]), f32s(&[])];
    f.spec_y = vec![f32s(&[1.0, 2.0, 3.0, f32::INFINITY]), f32s(&[0.25]), f32s(&[])];
    f.chrom_x = vec![f32s(&[0.5])];
    f.chrom_y = vec![f32s(&[9.0])];
    let bytes = encode_flat(&f, 7).unwrap();
    let doc = decode(&bytes, &table()).unwrap();
    let sl = doc.run.spectrum_list.unwrap();
    let a = sl.spectra[0].binary_data_array_list.as_ref().unwrap();
    assert_eq!(a.binary_data_arrays[1].is_f32, Some(true));
    let got: Vec<f32> = a.binary_data_arrays[1].decoded_binary_f32.iter().map(|b| f32::from_bits(*b)).collect();
    assert_eq!(got, vec![1.0, 2.0, 3.0, f32::INFINITY]);
    assert_eq!(sl.spectra[0].default_array_length, Some(3));
}

#[test]
fn large_arrays_go_to_several_blocks() {
    let mut f = sample();
    let big: Vec<f64> = (0..200_000).map(|i| i as f64 * 0.5).collect();
    f.spec_x = vec![f64s(&big), f64s(&[1.0, 2.0]), f64s(&big)];
    f.spec_y = vec![f64s(&[1.0]), f64s(&[2.0]), f64s(&[3.0])];
    for level in [0u8, 3] {
        let bytes = encode_flat(&f, level).unwrap();
        let h = parse_header(&bytes).unwrap();
        // each large array closes a block; the small one shares the last
        assert_eq!(h.block_count_spect_x, 2);
        assert_eq!(h.block_count_spect_y, 1);
        let doc = decode(&bytes, &table()).unwrap();
        let sl = doc.run.spectrum_list.unwrap();
        for (i, want) in [big.clone(), vec![1.0, 2.0], big.clone()].iter().enumerate() {
            let a = sl.spectra[i].binary_data_array_list.as_ref().unwrap();
            assert_eq!(a.binary_data_arrays[0].decoded_binary_f64, bits64(want));
        }
    }
}

#[test]
fn values_stand_once_in_their_tables() {
    let mut f = sample();
    f.spec_params = vec![
        vec![
            term("MS:1000511", ParamValue::Text("same".to_string())),
            term("MS:1000512", ParamValue::Text("same".to_string())),
            term("MS:1000513", ParamValue::Number(7)),
        ],
        vec![term("MS:1000511", ParamValue::Text("same".to_string())), term("MS:1000513", ParamValue::Number(7))],
        vec![term("MS:1000511", ParamValue::Text("other".to_string()))],
    ];
    let bytes = encode_flat(&f, 0).unwrap();
    let h = parse_header(&bytes).unwrap();
    assert_eq!(h.spec_meta_count, 6);
    assert_eq!(h.spec_num_count, 1);
    assert_eq!(h.spec_str_count, 2);
    let doc = decode(&bytes, &table()).unwrap();
    let sl = doc.run.spectrum_list.unwrap();
    assert_eq!(sl.spectra[1].cv_params[0].value, ParamValue::Text("same".to_string()));
    assert_eq!(sl.spectra[2].cv_params[0].value, ParamValue::Text("other".to_string()));
    assert_eq!(sl.spectra[1].cv_params[1].value, ParamValue::Number(7));
}

#[test]
fn input_that_does_not_fit_is_refused() {
    let mut f = sample();
    f.fmt = 3;
    assert_eq!(encode_flat(&f, 0).unwrap_err(), EncodeError::BadElementSize);
    let mut f = sample();
    f.spec_y.pop();
    assert_eq!(encode_flat(&f, 0).unwrap_err(), EncodeError::UnevenParts);
    let mut f = sample();
    f.counts.n_samp = 1;
    assert_eq!(encode_flat(&f, 0).unwrap_err(), EncodeError::UnevenParts);
    let mut f = sample();
    f.spec_x[1].push(0);
    let e = encode_flat(&f, 0).unwrap_err();
    assert_eq!(e, EncodeError::RaggedArray);
    assert_eq!(e.message(), "array is not a whole number of elements");
}

#[test]
fn file_without_items_round_trips() {
    let f = FlatFile {
        spec_params: vec![],
        spec_x: vec![],
        spec_y: vec![],
        chrom_params: vec![],
        chrom_x: vec![],
        chrom_y: vec![],
        counts: no_counts(),
        global_items: vec![],
        fmt: 2,
    };
    for level in [0u8, 9] {
        let bytes = encode_flat(&f, level).unwrap();
        let doc = decode(&bytes, &table()).unwrap();
        assert!(doc.run.spectrum_list.unwrap().spectra.is_empty());
        assert!(doc.run.chromatogram_list.unwrap().chromatograms.is_empty());
        assert!(doc.cv_list.is_none());
        assert!(doc.sample_list.is_none());
    }
}
