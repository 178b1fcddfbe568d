use octo::document::MzML;
use octo::params::{CvParam, ParamValue, UserParam};
use octo::restore::{refill_list, restore};
use octo::run::{BinaryDataArray, BinaryDataArrayList, Scan, ScanList, Spectrum, SpectrumList};
use octo::tree::{read_tree, tree_tokens, Token, TokenKind, Tree};
use octo::tree_of::{make_mzml_tree, make_spectrum_tree, read_mzml_tree, read_spectrum_tree};
use octo::tree_records::{make_carried, read_carried};

fn text(s: &str) -> ParamValue {
    ParamValue::Text(s.to_string())
}

fn leaf(s: &str) -> Tree {
    Tree::Leaf(text(s))
}

fn render(t: &Tree) -> String {
    match t {
        Tree::Leaf(ParamValue::Empty) => "_".to_string(),
        Tree::Leaf(ParamValue::Text(s)) => format!("{s:?}"),
        Tree::Leaf(ParamValue::Number(n)) => format!("{n}"),
        Tree::List(xs) => {
            let inner: Vec<String> = xs.iter().map(render).collect();
            format!("({})", inner.join(" "))
        }
    }
}

fn kinds(ts: &[Token]) -> String {
    ts.iter()
        .map(|t| match t.kind {
            TokenKind::Leaf => 'v',
            TokenKind::Open => '(',
            TokenKind::Close => ')',
        })
        .collect()
}

fn spectrum() -> Spectrum {
    let mut s = Spectrum::empty();
    s.id = "S1".to_string();
    s.index = Some(3);
    s.ms_level = Some(2);
    s.default_array_length = Some(usize::MAX);
    let mut p = CvParam::empty();
    p.accession = Some("MS:1000511".to_string());
    p.name = "ms level".to_string();
    p.value = ParamValue::Number(2.0f64.to_bits());
    s.cv_params.push(p);
    s.user_params.push(UserParam {
        name: "n".to_string(),
        kind: Some(String::new()),
        unit_accession: None,
        unit_cv_ref: None,
        unit_name: None,
        value: ParamValue::Empty,
    });
    s.scan_list = Some(ScanList {
        count: None,
        cv_params: vec![],
        user_params: vec![],
        scans: vec![Scan { cv_params: vec![], user_params: vec![] }, Scan { cv_params: vec![], user_params: vec![] }],
    });
    let mut a = BinaryDataArray::empty();
    a.is_f64 = Some(true);
    a.decoded_binary_f64 = vec![1, 2, 3];
    s.binary_data_array_list = Some(BinaryDataArrayList { count: Some(1), binary_data_arrays: vec![a] });
    s
}

#[test]
fn records_of_a_tree_spell_it_again() {
    let t = Tree::List(vec![
        leaf("a"),
        Tree::List(vec![]),
        Tree::List(vec![Tree::Leaf(ParamValue::Number(7)), Tree::List(vec![Tree::Leaf(ParamValue::Empty)])]),
        leaf(""),
    ]);
    let toks = tree_tokens(&t);
    assert_eq!(kinds(&toks), "(v()(v(v))v)");
    assert_eq!(toks[1].value, text("a"));
    let (back, end) = read_tree(&toks, 0).unwrap();
    assert_eq!(end, toks.len());
    assert_eq!(render(&back), render(&t));
    assert_eq!(render(&t), "(\"a\" () (7 (_)) \"\")");
    let (inner, end) = read_tree(&toks, 4).unwrap();
    assert_eq!(render(&inner), "(7 (_))");
    assert_eq!(end, 10);
    let (one, end) = read_tree(&toks, 1).unwrap();
    assert_eq!(render(&one), "\"a\"");
    assert_eq!(end, 2);
    let single = tree_tokens(&leaf("x"));
    assert_eq!(kinds(&single), "v");
}

#[test]
fn records_that_spell_no_tree_are_refused() {
    let t = Tree::List(vec![leaf("a"), Tree::List(vec![leaf("b")])]);
    let toks = tree_tokens(&t);
    assert!(read_tree(&toks[..toks.len() - 1].to_vec_of(), 0).is_none());
    assert!(read_tree(&toks, toks.len()).is_none());
    assert!(read_tree(&toks, toks.len() - 1).is_none());
    assert!(read_tree(&Vec::new(), 0).is_none());
    assert!(read_tree(&toks, usize::MAX).is_none());
}

trait Copied {
    fn to_vec_of(&self) -> Vec<Token>;
}

impl Copied for [Token] {
    fn to_vec_of(&self) -> Vec<Token> {
        self.iter().map(|t| Token { kind: t.kind, value: t.value.clone() }).collect()
    }
}

#[test]
fn spectrum_comes_back_from_its_tree_without_its_elements() {
    let s = spectrum();
    let t = make_spectrum_tree(&s);
    let back = read_spectrum_tree(&t).unwrap();
    let mut want = s.clone();
    want.binary_data_array_list.as_mut().unwrap().binary_data_arrays[0].decoded_binary_f64.clear();
    assert_eq!(back, want);
    assert!(read_spectrum_tree(&leaf("x")).is_none());
    assert!(read_spectrum_tree(&Tree::List(vec![])).is_none());
    if let Tree::List(mut fields) = make_spectrum_tree(&s) {
        fields[1] = Tree::Leaf(ParamValue::Number(u64::MAX));
        assert!(read_spectrum_tree(&Tree::List(fields)).is_none());
    } else {
        panic!("a spectrum is a list of fields");
    }
    if let Tree::List(mut fields) = make_spectrum_tree(&s) {
        fields.pop();
        assert!(read_spectrum_tree(&Tree::List(fields)).is_none());
    }
}

#[test]
fn document_is_carried_by_records() {
    let mut doc = MzML::empty();
    doc.run.id = "run 1".to_string();
    doc.run.spectrum_list =
        Some(SpectrumList { count: Some(1), default_data_processing_ref: None, spectra: vec![spectrum()] });
    let records = make_carried(&doc);
    assert_eq!(records[0].accession.as_deref(), Some("9900023"));
    assert!(records[1..].iter().all(|r| {
        let a = r.accession.as_deref().unwrap();
        a == "9900020" || a == "9900021" || a == "9900022"
    }));
    let mut want = doc.clone();
    want.run.spectrum_list.as_mut().unwrap().spectra[0]
        .binary_data_array_list
        .as_mut()
        .unwrap()
        .binary_data_arrays[0]
        .decoded_binary_f64
        .clear();
    assert_eq!(read_carried(&records), Some(want.clone()));
    let mut with_terms = records.clone();
    let mut term = CvParam::empty();
    term.accession = Some("MS:1000580".to_string());
    with_terms.push(term);
    assert_eq!(read_carried(&with_terms), Some(want.clone()));
    assert_eq!(read_carried(&records[1..].to_vec()), None);
    assert_eq!(read_carried(&records[..records.len() - 1].to_vec()), None);
    assert_eq!(read_carried(&Vec::new()), None);
    let mut marked = records.clone();
    marked[0].cv_ref = Some("MS".to_string());
    assert_eq!(read_carried(&marked), None);
    let tree = make_mzml_tree(&doc);
    assert_eq!(read_mzml_tree(&tree), Some(want));
}

#[test]
fn elements_are_put_back_into_their_arrays() {
    let mut x = BinaryDataArray::empty();
    let mut kind = CvParam::empty();
    kind.accession = Some("MS:1000514".to_string());
    x.cv_params.push(kind);
    let mut y = BinaryDataArray::empty();
    let mut kind = CvParam::empty();
    kind.accession = Some("MS:1000515".to_string());
    y.cv_params.push(kind);
    let other = BinaryDataArray::empty();
    let own = Some(BinaryDataArrayList { count: Some(7), binary_data_arrays: vec![y, other, x] });
    let mut dx = BinaryDataArray::empty();
    dx.is_f32 = Some(false);
    dx.decoded_binary_f64 = vec![1, 2];
    let mut dy = BinaryDataArray::empty();
    dy.is_f32 = Some(false);
    dy.decoded_binary_f64 = vec![3, 4];
    let decoded = Some(BinaryDataArrayList { count: Some(2), binary_data_arrays: vec![dx, dy] });
    let got = refill_list(own.clone(), decoded, 1000514).unwrap();
    assert_eq!(got.count, Some(7));
    assert_eq!(got.binary_data_arrays[2].decoded_binary_f64, vec![1, 2]);
    assert_eq!(got.binary_data_arrays[0].decoded_binary_f64, vec![3, 4]);
    assert!(got.binary_data_arrays[1].decoded_binary_f64.is_empty());
    assert_eq!(got.binary_data_arrays[1], BinaryDataArray::empty());
    assert_eq!(got.binary_data_arrays[2].is_f64, Some(true));
    assert_eq!(got.binary_data_arrays[2].cv_params.len(), 2);
    assert_eq!(got.binary_data_arrays[2].cv_params[1].accession.as_deref(), Some("MS:1000523"));
    assert_eq!(refill_list(own.clone(), None, 1000514), own);
    assert_eq!(refill_list(None, own.clone(), 1000514), None);
    let empty = Some(BinaryDataArrayList { count: None, binary_data_arrays: vec![] });
    assert_eq!(refill_list(empty.clone(), own.clone(), 1000514), empty);
    let mut doc = MzML::empty();
    let mut s = Spectrum::empty();
    s.binary_data_array_list = own.clone();
    doc.run.spectrum_list =
        Some(SpectrumList { count: None, default_data_processing_ref: None, spectra: vec![s] });
    let mut d = Spectrum::empty();
    let mut dx = BinaryDataArray::empty();
    dx.is_f32 = Some(true);
    dx.decoded_binary_f32 = vec![9];
    d.binary_data_array_list =
        Some(BinaryDataArrayList { count: Some(2), binary_data_arrays: vec![dx.clone(), dx] });
    let back = restore(doc, vec![d], vec![]);
    let arrays = &back.run.spectrum_list.unwrap().spectra[0].binary_data_array_list.as_ref().unwrap().binary_data_arrays.clone();
    assert_eq!(arrays[2].decoded_binary_f32, vec![9]);
    assert_eq!(arrays[2].is_f32, Some(true));
    assert_eq!(arrays[0].cv_params[1].accession.as_deref(), Some("MS:1000521"));
}
