//! Whole files, built byte by byte and decoded.

use octo::cv_table::CvTable;
use octo::decode::decode;
use octo::document::MzML;
use octo::error::{DecodeError, ErrorKind};
use octo::params::{CvParam, ParamValue};

#[derive(Clone)]
enum Val {
    Num(f64),
    Text(&'static str),
    Raw(Vec<u8>),
    Empty,
    Kind(u8, u32),
}

#[derive(Clone)]
struct Rec {
    code: u8,
    acc: u32,
    ucode: u8,
    uacc: u32,
    value: Val,
}

fn ms(acc: u32, value: Val) -> Rec {
    Rec { code: 0, acc, ucode: 0xFF, uacc: 0, value }
}

struct Meta {
    bytes: Vec<u8>,
    meta_count: u32,
    num_count: u32,
    str_count: u32,
}

fn meta_block(items: &[Vec<Rec>]) -> Meta {
    let mut indices: Vec<u32> = vec![0];
    let mut codes = Vec::new();
    let mut accs = Vec::new();
    let mut ucodes = Vec::new();
    let mut uaccs = Vec::new();
    let mut kinds = Vec::new();
    let mut vidx = Vec::new();
    let mut nums: Vec<u64> = Vec::new();
    let mut soff: Vec<u32> = Vec::new();
    let mut slen: Vec<u32> = Vec::new();
    let mut sdata: Vec<u8> = Vec::new();
    let mut count = 0u32;
    for item in items {
        for r in item {
            count += 1;
            codes.push(r.code);
            accs.push(r.acc);
            ucodes.push(r.ucode);
            uaccs.push(r.uacc);
            match &r.value {
                Val::Num(x) => {
                    let bits = x.to_bits();
                    let at = match nums.iter().position(|b| *b == bits) {
                        Some(i) => i,
                        None => {
                            nums.push(bits);
                            nums.len() - 1
                        }
                    };
                    kinds.push(0u8);
                    vidx.push(at as u32);
                }
                Val::Text(t) => {
                    soff.push(sdata.len() as u32);
                    slen.push(t.len() as u32);
                    sdata.extend_from_slice(t.as_bytes());
                    kinds.push(1u8);
                    vidx.push((soff.len() - 1) as u32);
                }
                Val::Raw(t) => {
                    soff.push(sdata.len() as u32);
                    slen.push(t.len() as u32);
                    sdata.extend_from_slice(t);
                    kinds.push(1u8);
                    vidx.push((soff.len() - 1) as u32);
                }
                Val::Empty => {
                    kinds.push(2u8);
                    vidx.push(0);
                }
                Val::Kind(k, i) => {
                    kinds.push(*k);
                    vidx.push(*i);
                }
            }
        }
        indices.push(count);
    }
    let mut b = Vec::new();
    for i in &indices {
        b.extend_from_slice(&i.to_le_bytes());
    }
    b.extend_from_slice(&codes);
    for a in &accs {
        b.extend_from_slice(&a.to_le_bytes());
    }
    b.extend_from_slice(&ucodes);
    for a in &uaccs {
        b.extend_from_slice(&a.to_le_bytes());
    }
    b.extend_from_slice(&kinds);
    for a in &vidx {
        b.extend_from_slice(&a.to_le_bytes());
    }
    for a in &nums {
        b.extend_from_slice(&a.to_le_bytes());
    }
    for a in &soff {
        b.extend_from_slice(&a.to_le_bytes());
    }
    for a in &slen {
        b.extend_from_slice(&a.to_le_bytes());
    }
    b.extend_from_slice(&sdata);
    Meta { bytes: b, meta_count: count, num_count: nums.len() as u32, str_count: soff.len() as u32 }
}

fn shuffle_bytes(src: &[u8], elem: usize) -> Vec<u8> {
    let n = src.len() / elem;
    let mut out = vec![0u8; src.len()];
    for i in 0..n {
        for p in 0..elem {
            out[p * n + i] = src[i * elem + p];
        }
    }
    out
}

#[derive(Clone, Copy)]
struct Coding {
    codec: u8,
    level: u8,
    filter: u8,
}

const RAW: Coding = Coding { codec: 0, level: 0, filter: 0 };

fn compress(c: Coding, plain: &[u8]) -> Vec<u8> {
    if c.level == 0 {
        plain.to_vec()
    } else if c.codec == 0 {
        miniz_oxide::deflate::compress_to_vec_zlib(plain, 6)
    } else {
        zstd::bulk::compress(plain, c.level as i32).unwrap()
    }
}

/// A container of the given blocks, each a run of elements as plain bytes.
fn container(c: Coding, elem: usize, blocks: &[Vec<u8>]) -> Vec<u8> {
    let mut dir = Vec::new();
    let mut payload = Vec::new();
    for b in blocks {
        let filtered = if c.filter == 1 && elem > 1 { shuffle_bytes(b, elem) } else { b.clone() };
        let stored = compress(c, &filtered);
        dir.extend_from_slice(&(payload.len() as u64).to_le_bytes());
        dir.extend_from_slice(&(stored.len() as u64).to_le_bytes());
        dir.extend_from_slice(&(b.len() as u64).to_le_bytes());
        dir.extend_from_slice(&0u64.to_le_bytes());
        payload.extend_from_slice(&stored);
    }
    dir.extend_from_slice(&payload);
    dir
}

fn f64_bytes(xs: &[f64]) -> Vec<u8> {
    xs.iter().flat_map(|x| x.to_le_bytes()).collect()
}

fn f32_bytes(xs: &[f32]) -> Vec<u8> {
    xs.iter().flat_map(|x| x.to_le_bytes()).collect()
}

#[derive(Clone, Copy)]
struct Entry {
    x_off: u64,
    y_off: u64,
    x_len: u32,
    y_len: u32,
    x_block: u32,
    y_block: u32,
}

fn index_bytes(entries: &[Entry]) -> Vec<u8> {
    let mut b = Vec::new();
    for e in entries {
        b.extend_from_slice(&e.x_off.to_le_bytes());
        b.extend_from_slice(&e.y_off.to_le_bytes());
        b.extend_from_slice(&e.x_len.to_le_bytes());
        b.extend_from_slice(&e.y_len.to_le_bytes());
        b.extend_from_slice(&e.x_block.to_le_bytes());
        b.extend_from_slice(&e.y_block.to_le_bytes());
    }
    b
}

struct FileSpec {
    coding: Coding,
    meta_flags: u8,
    spec_index: Vec<Entry>,
    chrom_index: Vec<Entry>,
    spec_meta: Vec<Vec<Rec>>,
    chrom_meta: Vec<Vec<Rec>>,
    global: Option<([u32; 8], Vec<Vec<Rec>>)>,
    fmts: [u8; 4],
    spect_x: Vec<Vec<u8>>,
    spect_y: Vec<Vec<u8>>,
    chrom_x: Vec<Vec<u8>>,
    chrom_y: Vec<Vec<u8>>,
}

fn elem_of(fmt: u8) -> usize {
    if fmt == 1 {
        4
    } else {
        8
    }
}

fn put64(h: &mut [u8], at: usize, v: u64) {
    h[at..at + 8].copy_from_slice(&v.to_le_bytes());
}

fn put32(h: &mut [u8], at: usize, v: u32) {
    h[at..at + 4].copy_from_slice(&v.to_le_bytes());
}

fn meta_region(c: Coding, compressed: bool, plain: &[u8]) -> Vec<u8> {
    if !compressed {
        plain.to_vec()
    } else if c.codec == 0 {
        miniz_oxide::deflate::compress_to_vec_zlib(plain, 6)
    } else {
        zstd::stream::encode_all(plain, 3).unwrap()
    }
}

/// Lays a file out: header, indices, metadata, containers.
fn build(f: &FileSpec) -> Vec<u8> {
    let mut h = vec![0u8; 192];
    h[0..4].copy_from_slice(b"B000");
    let spec_index = index_bytes(&f.spec_index);
    let chrom_index = index_bytes(&f.chrom_index);
    let sm = meta_block(&f.spec_meta);
    let cm = meta_block(&f.chrom_meta);
    let (gcounts, gitems) = match &f.global {
        Some((c, items)) => (*c, items.clone()),
        None => ([0u32; 8], Vec::new()),
    };
    let gm = meta_block(&gitems);
    let mut gplain = Vec::new();
    for c in gcounts {
        gplain.extend_from_slice(&c.to_le_bytes());
    }
    gplain.extend_from_slice(&gm.bytes);
    let sm_bytes = meta_region(f.coding, f.meta_flags & 0x10 != 0, &sm.bytes);
    let cm_bytes = meta_region(f.coding, f.meta_flags & 0x20 != 0, &cm.bytes);
    let gm_bytes = meta_region(f.coding, f.meta_flags & 0x40 != 0, &gplain);
    let cs = [
        container(f.coding, elem_of(f.fmts[2]), &f.spect_x),
        container(f.coding, elem_of(f.fmts[3]), &f.spect_y),
        container(f.coding, elem_of(f.fmts[0]), &f.chrom_x),
        container(f.coding, elem_of(f.fmts[1]), &f.chrom_y),
    ];
    let mut at = 192u64;
    put64(&mut h, 8, at);
    at += spec_index.len() as u64;
    put64(&mut h, 16, at);
    at += chrom_index.len() as u64;
    put64(&mut h, 24, at);
    at += sm_bytes.len() as u64;
    put64(&mut h, 32, at);
    at += cm_bytes.len() as u64;
    put64(&mut h, 40, at);
    at += gm_bytes.len() as u64;
    let counts = [f.spect_x.len(), f.spect_y.len(), f.chrom_x.len(), f.chrom_y.len()];
    for k in 0..4 {
        if counts[k] > 0 {
            put64(&mut h, 48 + 16 * k, cs[k].len() as u64);
            put64(&mut h, 56 + 16 * k, at);
            at += cs[k].len() as u64;
        }
        put32(&mut h, 156 + 4 * k, counts[k] as u32);
    }
    put32(&mut h, 112, f.spec_index.len() as u32);
    put32(&mut h, 116, f.chrom_index.len() as u32);
    put32(&mut h, 120, sm.meta_count);
    put32(&mut h, 124, sm.num_count);
    put32(&mut h, 128, sm.str_count);
    put32(&mut h, 132, cm.meta_count);
    put32(&mut h, 136, cm.num_count);
    put32(&mut h, 140, cm.str_count);
    put32(&mut h, 144, gm.meta_count);
    put32(&mut h, 148, gm.num_count);
    put32(&mut h, 152, gm.str_count);
    h[172] = f.coding.codec | f.meta_flags;
    h[173] = f.fmts[0];
    h[174] = f.fmts[1];
    h[175] = f.fmts[2];
    h[176] = f.fmts[3];
    h[177] = f.coding.level;
    h[178] = f.coding.filter;
    let mut out = h;
    out.extend_from_slice(&spec_index);
    out.extend_from_slice(&chrom_index);
    out.extend_from_slice(&sm_bytes);
    out.extend_from_slice(&cm_bytes);
    out.extend_from_slice(&gm_bytes);
    for k in 0..4 {
        if counts[k] > 0 {
            out.extend_from_slice(&cs[k]);
        }
    }
    out
}

const MZ0: [f64; 3] = [400.5, 500.25, 600.125];
const IN0: [f64; 3] = [10.0, 20.0, 30.0];
const MZ1: [f64; 2] = [445.34, 446.0];
const IN1: [f64; 2] = [1.5, 2.5];

/// Two spectra in one block per container and one chromatogram.
fn sample(coding: Coding, meta_flags: u8) -> FileSpec {
    let mut x = f64_bytes(&MZ0);
    x.extend_from_slice(&f64_bytes(&MZ1));
    let mut y = f64_bytes(&IN0);
    y.extend_from_slice(&f64_bytes(&IN1));
    FileSpec {
        coding,
        meta_flags,
        spec_index: vec![
            Entry { x_off: 0, y_off: 0, x_len: 3, y_len: 3, x_block: 0, y_block: 0 },
            Entry { x_off: 3, y_off: 3, x_len: 2, y_len: 2, x_block: 0, y_block: 0 },
        ],
        chrom_index: vec![Entry { x_off: 0, y_off: 0, x_len: 2, y_len: 2, x_block: 0, y_block: 0 }],
        spec_meta: vec![
            vec![
                ms(1000511, Val::Text("1")),
                ms(1000285, Val::Num(16675500.0)),
                ms(1000514, Val::Empty),
                ms(1000523, Val::Empty),
                Rec { code: 0, acc: 1000016, ucode: 1, uacc: 31, value: Val::Num(5.8905) },
            ],
            vec![
                ms(1000511, Val::Text("2")),
                ms(1000827, Val::Num(445.34)),
                ms(1000041, Val::Num(2.0)),
                Rec { code: 0, acc: 1000045, ucode: 1, uacc: 266, value: Val::Num(35.0) },
                Rec { code: 0xFF, acc: 7, ucode: 0xFF, uacc: 0, value: Val::Text("note") },
                Rec { code: 2, acc: 123, ucode: 0xFF, uacc: 0, value: Val::Empty },
            ],
        ],
        chrom_meta: vec![vec![ms(1000235, Val::Empty), ms(1000595, Val::Empty)]],
        global: Some((
            [1, 1, 2, 0, 1, 1, 0, 1],
            vec![
                vec![ms(1000580, Val::Empty)],
                vec![ms(1000130, Val::Empty)],
                vec![ms(1000001, Val::Text("s1"))],
                vec![],
                vec![ms(1000532, Val::Empty)],
                vec![ms(1000544, Val::Empty)],
                vec![
                    Rec { code: 0xFF, acc: 9_900_001, ucode: 0xFF, uacc: 0, value: Val::Text("MS") },
                    Rec {
                        code: 0xFF,
                        acc: 9_900_002,
                        ucode: 0xFF,
                        uacc: 0,
                        value: Val::Text("Mass Spectrometry Ontology"),
                    },
                    Rec { code: 0xFF, acc: 9_900_003, ucode: 0xFF, uacc: 0, value: Val::Text("2.0.2") },
                    Rec { code: 0xFF, acc: 9_900_004, ucode: 0xFF, uacc: 0, value: Val::Text("http://x") },
                ],
            ],
        )),
        fmts: [2, 2, 2, 2],
        spect_x: vec![x],
        spect_y: vec![y],
        chrom_x: vec![f64_bytes(&[0.5, 1.0])],
        chrom_y: vec![f64_bytes(&[7.0, 8.0])],
    }
}

fn table() -> CvTable {
    let mut t = CvTable::new();
    t.insert("MS:1000511", "ms level".to_string());
    t.insert("MS:1000285", "total ion current".to_string());
    t.insert("MS:1000514", "m/z array".to_string());
    t.insert("MS:1000515", "intensity array".to_string());
    t.insert("MS:1000595", "time array".to_string());
    t.insert("MS:1000016", "scan start time".to_string());
    t.insert("UO:0000031", "minute".to_string());
    t.insert("MS:1000045", "collision energy".to_string());
    t.insert("UO:0000266", "electronvolt".to_string());
    t
}

fn bits64(xs: &[f64]) -> Vec<u64> {
    xs.iter().map(|x| x.to_bits()).collect()
}

fn find<'a>(ps: &'a [CvParam], acc: &str) -> &'a CvParam {
    ps.iter().find(|p| p.accession.as_deref() == Some(acc)).expect("parameter present")
}

fn check_sample(doc: &MzML) {
    let sl = doc.run.spectrum_list.as_ref().unwrap();
    assert_eq!(doc.run.id, "run");
    assert_eq!(sl.count, Some(2));
    assert_eq!(sl.spectra.len(), 2);
    let s0 = &sl.spectra[0];
    assert_eq!(s0.id, "spectrum_0");
    assert_eq!(s0.index, Some(0));
    assert_eq!(s0.default_array_length, Some(3));
    // the array terms are stripped from the parameters of the spectrum
    assert_eq!(s0.cv_params.len(), 3);
    let level = find(&s0.cv_params, "MS:1000511");
    assert_eq!(level.name, "ms level");
    assert_eq!(level.cv_ref.as_deref(), Some("MS"));
    assert_eq!(level.value, ParamValue::Text("1".to_string()));
    assert_eq!(level.unit_accession, None);
    let tic = find(&s0.cv_params, "MS:1000285");
    assert_eq!(tic.value, ParamValue::Number(16675500.0f64.to_bits()));
    let time = find(&s0.cv_params, "MS:1000016");
    assert_eq!(time.unit_accession.as_deref(), Some("UO:0000031"));
    assert_eq!(time.unit_cv_ref.as_deref(), Some("UO"));
    assert_eq!(time.unit_name.as_deref(), Some("minute"));
    assert!(s0.precursor_list.is_none());
    let arrays = &s0.binary_data_array_list.as_ref().unwrap();
    assert_eq!(arrays.count, Some(2));
    let mz = &arrays.binary_data_arrays[0];
    assert_eq!(mz.array_length, Some(3));
    assert_eq!(mz.is_f64, Some(true));
    assert_eq!(mz.is_f32, Some(false));
    assert_eq!(mz.decoded_binary_f64, bits64(&MZ0));
    assert!(mz.decoded_binary_f32.is_empty());
    assert_eq!(mz.cv_params.len(), 2);
    assert_eq!(mz.cv_params[0].accession.as_deref(), Some("MS:1000514"));
    assert_eq!(mz.cv_params[0].name, "m/z array");
    assert_eq!(mz.cv_params[1].accession.as_deref(), Some("MS:1000523"));
    assert_eq!(mz.cv_params[1].name, "64-bit float");
    let inten = &arrays.binary_data_arrays[1];
    assert_eq!(inten.decoded_binary_f64, bits64(&IN0));
    assert_eq!(inten.cv_params[0].accession.as_deref(), Some("MS:1000515"));

    let s1 = &sl.spectra[1];
    assert_eq!(s1.id, "spectrum_1");
    assert_eq!(s1.index, Some(1));
    assert_eq!(s1.default_array_length, Some(2));
    let arrays = &s1.binary_data_array_list.as_ref().unwrap();
    assert_eq!(arrays.binary_data_arrays[0].decoded_binary_f64, bits64(&MZ1));
    assert_eq!(arrays.binary_data_arrays[1].decoded_binary_f64, bits64(&IN1));
    // what describes the precursor moved into the precursor list
    assert_eq!(s1.cv_params.len(), 3);
    assert_eq!(s1.cv_params[0].accession.as_deref(), Some("MS:1000511"));
    assert_eq!(s1.cv_params[1].accession.as_deref(), Some("7"));
    assert_eq!(s1.cv_params[1].cv_ref, None);
    assert_eq!(s1.cv_params[1].value, ParamValue::Text("note".to_string()));
    assert_eq!(s1.cv_params[2].accession.as_deref(), Some("NCIT:C00123"));
    let pl = s1.precursor_list.as_ref().unwrap();
    assert_eq!(pl.count, Some(1));
    assert_eq!(pl.precursors.len(), 1);
    let pre = &pl.precursors[0];
    let iso = pre.isolation_window.as_ref().unwrap();
    assert_eq!(iso.cv_params.len(), 1);
    assert_eq!(iso.cv_params[0].value, ParamValue::Number(445.34f64.to_bits()));
    let ions = pre.selected_ion_list.as_ref().unwrap();
    assert_eq!(ions.count, Some(1));
    assert_eq!(ions.selected_ions[0].cv_params[0].accession.as_deref(), Some("MS:1000041"));
    let act = pre.activation.as_ref().unwrap();
    assert_eq!(act.cv_params[0].name, "collision energy");
    assert_eq!(act.cv_params[0].unit_name.as_deref(), Some("electronvolt"));

    let cl = doc.run.chromatogram_list.as_ref().unwrap();
    assert_eq!(cl.count, Some(1));
    let c0 = &cl.chromatograms[0];
    assert_eq!(c0.id, "chromatogram_0");
    assert_eq!(c0.cv_params.len(), 1);
    let arrays = &c0.binary_data_array_list.as_ref().unwrap();
    assert_eq!(arrays.binary_data_arrays[0].cv_params[0].accession.as_deref(), Some("MS:1000595"));
    assert_eq!(arrays.binary_data_arrays[0].decoded_binary_f64, bits64(&[0.5, 1.0]));
    assert_eq!(arrays.binary_data_arrays[1].decoded_binary_f64, bits64(&[7.0, 8.0]));

    // the global sections
    assert_eq!(doc.file_description.file_content.cv_params.len(), 1);
    let groups = doc.referenceable_param_group_list.as_ref().unwrap();
    assert_eq!(groups.count, Some(1));
    assert_eq!(groups.referenceable_param_groups[0].cv_params[0].accession.as_deref(), Some("MS:1000130"));
    let samples = doc.sample_list.as_ref().unwrap();
    assert_eq!(samples.count, Some(2));
    assert_eq!(samples.samples[0].cv_params.len(), 1);
    assert_eq!(samples.samples[1].cv_params.len(), 0);
    assert!(doc.instrument_list.is_none());
    let software = doc.software_list.as_ref().unwrap();
    assert_eq!(software.software[0].cv_param[0].accession.as_deref(), Some("MS:1000532"));
    let dp = doc.data_processing_list.as_ref().unwrap();
    assert_eq!(dp.data_processing[0].processing_method.len(), 1);
    assert_eq!(dp.data_processing[0].processing_method[0].cv_param[0].accession.as_deref(), Some("MS:1000544"));
    assert!(doc.scan_settings_list.is_none());
    let cvs = doc.cv_list.as_ref().unwrap();
    assert_eq!(cvs.count, Some(1));
    assert_eq!(cvs.cv[0].id, ParamValue::Text("MS".to_string()));
    assert_eq!(cvs.cv[0].full_name, ParamValue::Text("Mass Spectrometry Ontology".to_string()));
    assert_eq!(cvs.cv[0].version, ParamValue::Text("2.0.2".to_string()));
    assert_eq!(cvs.cv[0].uri, ParamValue::Text("http://x".to_string()));
}

#[test]
fn decodes_raw_file() {
    let bytes = build(&sample(RAW, 0));
    let doc = decode(&bytes, &table()).unwrap();
    check_sample(&doc);
}

#[test]
fn decodes_shuffled_file() {
    let bytes = build(&sample(Coding { codec: 0, level: 0, filter: 1 }, 0));
    let doc = decode(&bytes, &table()).unwrap();
    check_sample(&doc);
}

#[test]
fn decodes_zlib_file() {
    let bytes = build(&sample(Coding { codec: 0, level: 6, filter: 1 }, 0x70));
    let doc = decode(&bytes, &table()).unwrap();
    check_sample(&doc);
}

#[test]
fn decodes_zstd_file() {
    let bytes = build(&sample(Coding { codec: 1, level: 3, filter: 1 }, 0x70));
    let doc = decode(&bytes, &table()).unwrap();
    check_sample(&doc);
}

#[test]
fn decodes_zstd_file_without_filter() {
    let bytes = build(&sample(Coding { codec: 1, level: 3, filter: 0 }, 0x10));
    let doc = decode(&bytes, &table()).unwrap();
    check_sample(&doc);
}

#[test]
fn decoding_twice_gives_equal_documents() {
    let bytes = build(&sample(Coding { codec: 1, level: 3, filter: 1 }, 0x70));
    let t = table();
    assert_eq!(decode(&bytes, &t), decode(&bytes, &t));
    let broken = &bytes[..bytes.len() - 5];
    assert_eq!(decode(broken, &t), decode(broken, &t));
}

#[test]
fn compressed_metadata_may_be_zero_padded() {
    let mut f = sample(Coding { codec: 1, level: 0, filter: 0 }, 0x10);
    f.chrom_index.clear();
    f.chrom_meta.clear();
    f.chrom_x.clear();
    f.chrom_y.clear();
    f.global = None;
    let plain = build(&f);
    // pad the spectrum metadata, the last region before the containers
    let sm_end = u64::from_le_bytes(plain[32..40].try_into().unwrap()) as usize;
    for pad in 1..=8usize {
        let mut b = plain[..sm_end].to_vec();
        b.extend(std::iter::repeat(0u8).take(pad));
        b.extend_from_slice(&plain[sm_end..]);
        for at in [32usize, 40, 56, 72] {
            let v = u64::from_le_bytes(b[at..at + 8].try_into().unwrap());
            b[at..at + 8].copy_from_slice(&(v + pad as u64).to_le_bytes());
        }
        let r = decode(&b, &table());
        if pad <= 7 {
            assert_eq!(r.unwrap().run.spectrum_list.unwrap().spectra.len(), 2, "padding {pad}");
        } else {
            assert_eq!(r.unwrap_err(), DecodeError::CodecFailed);
        }
    }
}

#[test]
fn short_buffer_is_truncated() {
    let t = table();
    for n in [0usize, 1, 4, 191] {
        let mut b = vec![0u8; n];
        if n >= 4 {
            b[0..4].copy_from_slice(b"B000");
        }
        let e = decode(&b, &t).unwrap_err();
        assert_eq!(e, DecodeError::ShortHeader);
        assert_eq!(e.kind(), ErrorKind::Truncated);
    }
}

#[test]
fn empty_file_decodes_to_empty_document() {
    let mut b = vec![0u8; 192];
    b[0..4].copy_from_slice(b"B000");
    let doc = decode(&b, &table()).unwrap();
    assert!(doc.cv_list.is_none());
    assert!(doc.referenceable_param_group_list.is_none());
    assert!(doc.sample_list.is_none());
    assert!(doc.instrument_list.is_none());
    assert!(doc.software_list.is_none());
    assert!(doc.data_processing_list.is_none());
    assert!(doc.scan_settings_list.is_none());
    assert!(doc.file_description.file_content.cv_params.is_empty());
    let sl = doc.run.spectrum_list.unwrap();
    assert_eq!(sl.count, Some(0));
    assert!(sl.spectra.is_empty());
    let cl = doc.run.chromatogram_list.unwrap();
    assert_eq!(cl.count, Some(0));
    assert!(cl.chromatograms.is_empty());
    assert!(doc.run.cv_params.is_empty());
}

#[test]
fn wrong_magic_is_rejected() {
    let mut b = vec![0u8; 192];
    b[0..4].copy_from_slice(b"MZML");
    let e = decode(&b, &table()).unwrap_err();
    assert_eq!(e, DecodeError::WrongMagic);
    assert_eq!(e.kind(), ErrorKind::BadMagic);
}

#[test]
fn wrong_endianness_is_rejected() {
    let mut b = build(&sample(RAW, 0));
    b[4] = 1;
    let e = decode(&b, &table()).unwrap_err();
    assert_eq!(e, DecodeError::WrongEndianness);
    assert_eq!(e.kind(), ErrorKind::BadMagic);
}

/// The offset in the file of the directory of container `k`.
fn dir_at(file: &[u8], k: usize) -> usize {
    u64::from_le_bytes(file[56 + 16 * k..64 + 16 * k].try_into().unwrap()) as usize
}

#[test]
fn corrupt_block_size_is_bad_compression() {
    // the block holds 72 bytes once decompressed; the directory claims 80
    for coding in [Coding { codec: 1, level: 3, filter: 0 }, Coding { codec: 0, level: 6, filter: 0 }] {
        let mut f = sample(coding, 0);
        f.spec_index = vec![Entry { x_off: 0, y_off: 0, x_len: 9, y_len: 5, x_block: 0, y_block: 0 }];
        f.spec_meta = vec![vec![]];
        f.spect_x = vec![f64_bytes(&[1.0, 2.0, 3.0, 4.0, 5.0, 6.0, 7.0, 8.0, 9.0])];
        let mut b = build(&f);
        let d = dir_at(&b, 0);
        assert_eq!(u64::from_le_bytes(b[d + 16..d + 24].try_into().unwrap()), 72);
        b[d + 16..d + 24].copy_from_slice(&80u64.to_le_bytes());
        let e = decode(&b, &table()).unwrap_err();
        assert_eq!(e, DecodeError::BlockSizeMismatch);
        assert_eq!(e.kind(), ErrorKind::BadCompression);
        assert_eq!(e.message(), "block size mismatch");
    }
}

#[test]
fn raw_block_of_wrong_size_is_bad_compression() {
    let mut b = build(&sample(RAW, 0));
    let d = dir_at(&b, 0);
    b[d + 16..d + 24].copy_from_slice(&48u64.to_le_bytes());
    assert_eq!(decode(&b, &table()).unwrap_err(), DecodeError::BlockSizeMismatch);
}

#[test]
fn damaged_stream_is_bad_compression() {
    let f = sample(Coding { codec: 1, level: 3, filter: 1 }, 0);
    let mut b = build(&f);
    let d = dir_at(&b, 0);
    // the payload starts behind the one directory entry
    b[d + 32] ^= 0xFF;
    b[d + 33] ^= 0xFF;
    let e = decode(&b, &table()).unwrap_err();
    assert_eq!(e.kind(), ErrorKind::BadCompression);
}

#[test]
fn unknown_codec_is_bad_compression() {
    let mut b = build(&sample(Coding { codec: 1, level: 3, filter: 1 }, 0));
    b[172] = 5;
    assert_eq!(decode(&b, &table()).unwrap_err(), DecodeError::UnknownCodec);
    let mut b = build(&sample(Coding { codec: 1, level: 3, filter: 1 }, 0x10));
    b[172] = 0x15;
    let e = decode(&b, &table()).unwrap_err();
    assert_eq!(e, DecodeError::UnknownCodec);
    assert_eq!(e.kind(), ErrorKind::BadCompression);
}

#[test]
fn bad_float_format_is_rejected() {
    let mut b = build(&sample(RAW, 0));
    b[175] = 3;
    let e = decode(&b, &table()).unwrap_err();
    assert_eq!(e, DecodeError::BadFloatFormat);
    assert_eq!(e.kind(), ErrorKind::BadArrayLayout);
}

#[test]
fn ragged_block_is_bad_layout() {
    let mut b = build(&sample(RAW, 0));
    let d = dir_at(&b, 0);
    b[d + 16..d + 24].copy_from_slice(&39u64.to_le_bytes());
    let e = decode(&b, &table()).unwrap_err();
    assert_eq!(e, DecodeError::RaggedElements);
    assert_eq!(e.kind(), ErrorKind::BadArrayLayout);
}

#[test]
fn index_entry_outside_its_block_is_bad_layout() {
    let t = table();
    // two blocks of three and two elements
    let mut f = sample(RAW, 0);
    f.spect_x = vec![f64_bytes(&MZ0), f64_bytes(&MZ1)];
    f.spec_index[1].x_block = 1;
    let good = build(&f);
    check_sample(&decode(&good, &t).unwrap());

    // the offset lies before the start of the block it names
    let mut g = sample(RAW, 0);
    g.spect_x = vec![f64_bytes(&MZ0), f64_bytes(&MZ1)];
    g.spec_index[1].x_block = 1;
    g.spec_index[1].x_off = 2;
    let e = decode(&build(&g), &t).unwrap_err();
    assert_eq!(e, DecodeError::OffsetBeforeBlock);
    assert_eq!(e.kind(), ErrorKind::BadArrayLayout);

    // the block id is not in the directory
    let mut g = sample(RAW, 0);
    g.spec_index[0].y_block = 1;
    let e = decode(&build(&g), &t).unwrap_err();
    assert_eq!(e, DecodeError::BlockIdOutOfRange);
    assert_eq!(e.kind(), ErrorKind::BadArrayLayout);

    // the array reaches past the end of the block
    let mut g = sample(RAW, 0);
    g.spec_index[1].x_len = 3;
    let e = decode(&build(&g), &t).unwrap_err();
    assert_eq!(e, DecodeError::SliceOutOfBlock);
    assert_eq!(e.kind(), ErrorKind::BadArrayLayout);
}

#[test]
fn offsets_out_of_order_are_inconsistent() {
    let t = table();
    let good = build(&sample(RAW, 0));
    let mut b = good.clone();
    // chromatogram metadata before spectrum metadata
    let sm = u64::from_le_bytes(b[24..32].try_into().unwrap());
    b[32..40].copy_from_slice(&(sm - 1).to_le_bytes());
    let e = decode(&b, &t).unwrap_err();
    assert_eq!(e, DecodeError::MetaOffsets);
    assert_eq!(e.kind(), ErrorKind::InconsistentOffsets);

    let mut b = good.clone();
    // a container that starts before the end of the header
    b[56..64].copy_from_slice(&100u64.to_le_bytes());
    let e = decode(&b, &t).unwrap_err();
    assert_eq!(e, DecodeError::ContainerOffsets);
    assert_eq!(e.kind(), ErrorKind::InconsistentOffsets);
}

#[test]
fn cut_file_is_truncated() {
    let t = table();
    let good = build(&sample(RAW, 0));
    let e = decode(&good[..good.len() - 1], &t).unwrap_err();
    assert_eq!(e.kind(), ErrorKind::Truncated);
    let e = decode(&good[..200], &t).unwrap_err();
    assert_eq!(e, DecodeError::UnexpectedEnd);
    assert_eq!(e.kind(), ErrorKind::Truncated);
}

#[test]
fn dangling_value_index_is_bad_metadata() {
    let t = table();
    let mut f = sample(RAW, 0);
    f.spec_meta[0].push(ms(1000511, Val::Kind(0, 99)));
    let e = decode(&build(&f), &t).unwrap_err();
    assert_eq!(e, DecodeError::ValueIndexOutOfRange);
    assert_eq!(e.kind(), ErrorKind::BadMetadata);
    let mut f = sample(RAW, 0);
    f.spec_meta[0].push(ms(1000511, Val::Kind(1, 99)));
    assert_eq!(decode(&build(&f), &t).unwrap_err(), DecodeError::ValueIndexOutOfRange);
    // a kind that is neither number nor text carries no value
    let mut f = sample(RAW, 0);
    f.spec_meta[0].push(ms(1000512, Val::Kind(9, 99)));
    let doc = decode(&build(&f), &t).unwrap();
    let s0 = &doc.run.spectrum_list.unwrap().spectra[0];
    assert_eq!(find(&s0.cv_params, "MS:1000512").value, ParamValue::Empty);
}

#[test]
fn invalid_text_is_bad_metadata() {
    let mut f = sample(RAW, 0);
    f.spec_meta[0].push(ms(1000512, Val::Raw(vec![0x66, 0xFF, 0x66])));
    let e = decode(&build(&f), &table()).unwrap_err();
    assert_eq!(e, DecodeError::InvalidUtf8);
    assert_eq!(e.kind(), ErrorKind::BadMetadata);
}

#[test]
fn text_outside_utf8_ascii_is_kept() {
    let mut f = sample(RAW, 0);
    f.spec_meta[0].push(ms(1000512, Val::Text("Größe µ → 10")));
    let doc = decode(&build(&f), &table()).unwrap();
    let s0 = &doc.run.spectrum_list.unwrap().spectra[0];
    assert_eq!(find(&s0.cv_params, "MS:1000512").value, ParamValue::Text("Größe µ → 10".to_string()));
}

#[test]
fn decreasing_item_index_is_bad_metadata() {
    let t = table();
    let f = sample(RAW, 0);
    let mut b = build(&f);
    let sm = u64::from_le_bytes(b[24..32].try_into().unwrap()) as usize;
    // the prefix sums are 0, 5, 11: make the middle one overrun
    b[sm + 4..sm + 8].copy_from_slice(&12u32.to_le_bytes());
    let e = decode(&b, &t).unwrap_err();
    assert_eq!(e, DecodeError::ItemIndexNotMonotonic);
    assert_eq!(e.kind(), ErrorKind::BadMetadata);
    // the last prefix sum must be the record count
    let mut b = build(&f);
    b[sm + 8..sm + 12].copy_from_slice(&10u32.to_le_bytes());
    assert_eq!(decode(&b, &t).unwrap_err(), DecodeError::ItemIndexNotMonotonic);
}

#[test]
fn thirty_two_bit_elements_are_read_as_bits() {
    let mut f = sample(Coding { codec: 0, level: 6, filter: 1 }, 0);
    f.fmts = [2, 2, 2, 1];
    let ys: [f32; 5] = [1.0, 2.0, 3.0, f32::INFINITY, 0.5];
    f.spect_y = vec![f32_bytes(&ys)];
    let doc = decode(&build(&f), &table()).unwrap();
    let sl = doc.run.spectrum_list.unwrap();
    let a0 = &sl.spectra[0].binary_data_array_list.as_ref().unwrap().binary_data_arrays[1];
    assert_eq!(a0.is_f32, Some(true));
    assert_eq!(a0.is_f64, Some(false));
    assert!(a0.decoded_binary_f64.is_empty());
    let got: Vec<f32> = a0.decoded_binary_f32.iter().map(|b| f32::from_bits(*b)).collect();
    assert_eq!(got, vec![1.0, 2.0, 3.0]);
    let a1 = &sl.spectra[1].binary_data_array_list.as_ref().unwrap().binary_data_arrays[1];
    let got: Vec<f32> = a1.decoded_binary_f32.iter().map(|b| f32::from_bits(*b)).collect();
    assert_eq!(got, vec![f32::INFINITY, 0.5]);
}

#[test]
fn file_that_holds_nothing_decodes_wherever_its_indices_point() {
    let mut b = vec![0u8; 200];
    b[0..4].copy_from_slice(b"B000");
    b[8..16].copy_from_slice(&192u64.to_le_bytes());
    b[16..24].copy_from_slice(&200u64.to_le_bytes());
    b[172] = 1;
    b[173] = 9;
    b[175] = 2;
    b[177] = 12;
    b[178] = 1;
    let doc = decode(&b, &CvTable::new()).unwrap();
    assert_eq!(doc.cv_list, None);
    assert_eq!(doc.sample_list, None);
    assert!(doc.file_description.file_content.cv_params.is_empty());
    assert!(doc.run.spectrum_list.as_ref().unwrap().spectra.is_empty());
    assert!(doc.run.chromatogram_list.as_ref().unwrap().chromatograms.is_empty());
    b[16..24].copy_from_slice(&201u64.to_le_bytes());
    assert_eq!(decode(&b, &CvTable::new()).unwrap_err().kind(), ErrorKind::Truncated);
}
