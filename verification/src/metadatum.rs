//! Metadata records that carry their place in the element tree.
//!
//! A record belongs to an item, to the element that owns it and, through
//! the parent of that element, to a place in the tree.  Attributes of
//! elements travel as records too, under the reserved prefix `B000`.

use vstd::prelude::*;
use vstd::string::StringSliceAdditionalSpecFns;
use vstd::utf8::encode_utf8;
use crate::accession::{bytes_of, COLON, is_attr_prefix, prefix_attr, split_prefix, tail_bytes};
use crate::params::{ParamValue, ParamValueModel};
use crate::text::{first_index_of, parse_u32, parse_u32_spec, scattered_u32};

verus! {

/// Tail of the attribute `id`.
pub const ACC_ATTR_ID: u32 = 9_900_001;

/// Tail of the attribute `fullName` of a vocabulary.
pub const ACC_ATTR_FULL_NAME: u32 = 9_900_002;

/// Tail of the attribute `version` of a vocabulary.
pub const ACC_ATTR_VERSION: u32 = 9_900_003;

/// Tail of the attribute `URI` of a vocabulary.
pub const ACC_ATTR_URI: u32 = 9_900_004;

/// Tail of the attribute `count` of a list.
pub const ACC_ATTR_COUNT: u32 = 9_900_005;

/// Tail of the attribute `index` of a spectrum or chromatogram.
pub const ACC_ATTR_INDEX: u32 = 9_900_006;

/// Tail of the attribute for the MS level.
pub const ACC_ATTR_MS_LEVEL: u32 = 9_900_007;

/// Tail of the attribute for the scan number.
pub const ACC_ATTR_SCAN_NUMBER: u32 = 9_900_008;

/// Tail of the attribute for the native identifier.
pub const ACC_ATTR_NATIVE_ID: u32 = 9_900_009;

/// Tail of the attribute `spotID`.
pub const ACC_ATTR_SPOT_ID: u32 = 9_900_010;

/// Tail of the attribute `sourceFileRef`.
pub const ACC_ATTR_SOURCE_FILE_REF: u32 = 9_900_011;

/// Tail of the attribute `dataProcessingRef`.
pub const ACC_ATTR_DATA_PROCESSING_REF: u32 = 9_900_012;

/// Tail of the attribute `defaultDataProcessingRef` of a list.
pub const ACC_ATTR_DEFAULT_DATA_PROCESSING_REF: u32 = 9_900_013;

/// Tail of the attribute `defaultArrayLength`.
pub const ACC_ATTR_DEFAULT_ARRAY_LENGTH: u32 = 9_900_014;

/// Tail of the attribute `arrayLength`.
pub const ACC_ATTR_ARRAY_LENGTH: u32 = 9_900_015;

/// Tail of the attribute `encodedLength`.
pub const ACC_ATTR_ENCODED_LENGTH: u32 = 9_900_016;

/// Tail of the attribute `spectrumRef` of a precursor.
pub const ACC_ATTR_SPECTRUM_REF: u32 = 9_900_017;

/// Tail of the attribute that counts the free-form entries of an item.
pub const ACC_ATTR_USER_COUNT: u32 = 9_900_018;

/// Tail of the attributes that carry the fields of a free-form entry.
pub const ACC_ATTR_USER_FIELD: u32 = 9_900_019;

/// Tail of the record of a value of the document tree.
pub const ACC_TREE_LEAF: u32 = 9_900_020;

/// Tail of the record in front of a list of the document tree.
pub const ACC_TREE_OPEN: u32 = 9_900_021;

/// Tail of the record behind a list of the document tree.
pub const ACC_TREE_CLOSE: u32 = 9_900_022;

/// Tail of the record in front of the document tree.
pub const ACC_TREE_MARK: u32 = 9_900_023;

/// The elements of a document that records are filed under.
#[derive(Clone, Copy, Debug, PartialEq, Eq, Hash, Structural)]
pub enum TagId {
    MzML,
    CvList,
    Cv,
    FileDescription,
    FileContent,
    SourceFileList,
    SourceFile,
    ReferenceableParamGroupList,
    ReferenceableParamGroup,
    SampleList,
    Sample,
    InstrumentList,
    Instrument,
    SoftwareList,
    Software,
    DataProcessingList,
    DataProcessing,
    ProcessingMethod,
    ScanSettingsList,
    ScanSettings,
    Run,
    SpectrumList,
    Spectrum,
    ScanList,
    Scan,
    PrecursorList,
    Precursor,
    IsolationWindow,
    SelectedIonList,
    SelectedIon,
    Activation,
    ProductList,
    Product,
    BinaryDataArrayList,
    BinaryDataArray,
    ChromatogramList,
    Chromatogram,
    CvParam,
    UserParam,
    ReferenceableParamGroupRef,
}

impl DeepView for TagId {
    type V = TagId;

    open spec fn deep_view(&self) -> TagId {
        *self
    }
}

impl TagId {
    /// The small number that stands for the element.
    pub open spec fn spec_code(self) -> u8 {
        match self {
            TagId::MzML => 0,
            TagId::CvList => 1,
            TagId::Cv => 2,
            TagId::FileDescription => 3,
            TagId::FileContent => 4,
            TagId::SourceFileList => 5,
            TagId::SourceFile => 6,
            TagId::ReferenceableParamGroupList => 7,
            TagId::ReferenceableParamGroup => 8,
            TagId::SampleList => 9,
            TagId::Sample => 10,
            TagId::InstrumentList => 11,
            TagId::Instrument => 12,
            TagId::SoftwareList => 13,
            TagId::Software => 14,
            TagId::DataProcessingList => 15,
            TagId::DataProcessing => 16,
            TagId::ProcessingMethod => 17,
            TagId::ScanSettingsList => 18,
            TagId::ScanSettings => 19,
            TagId::Run => 20,
            TagId::SpectrumList => 21,
            TagId::Spectrum => 22,
            TagId::ScanList => 23,
            TagId::Scan => 24,
            TagId::PrecursorList => 25,
            TagId::Precursor => 26,
            TagId::IsolationWindow => 27,
            TagId::SelectedIonList => 28,
            TagId::SelectedIon => 29,
            TagId::Activation => 30,
            TagId::ProductList => 31,
            TagId::Product => 32,
            TagId::BinaryDataArrayList => 33,
            TagId::BinaryDataArray => 34,
            TagId::ChromatogramList => 35,
            TagId::Chromatogram => 36,
            TagId::CvParam => 37,
            TagId::UserParam => 38,
            TagId::ReferenceableParamGroupRef => 39,
        }
    }

    /// Returns the small number that stands for the element.
    pub fn code(self) -> (c: u8)
        ensures
            c == self.spec_code(),
    {
        match self {
            TagId::MzML => 0,
            TagId::CvList => 1,
            TagId::Cv => 2,
            TagId::FileDescription => 3,
            TagId::FileContent => 4,
            TagId::SourceFileList => 5,
            TagId::SourceFile => 6,
            TagId::ReferenceableParamGroupList => 7,
            TagId::ReferenceableParamGroup => 8,
            TagId::SampleList => 9,
            TagId::Sample => 10,
            TagId::InstrumentList => 11,
            TagId::Instrument => 12,
            TagId::SoftwareList => 13,
            TagId::Software => 14,
            TagId::DataProcessingList => 15,
            TagId::DataProcessing => 16,
            TagId::ProcessingMethod => 17,
            TagId::ScanSettingsList => 18,
            TagId::ScanSettings => 19,
            TagId::Run => 20,
            TagId::SpectrumList => 21,
            TagId::Spectrum => 22,
            TagId::ScanList => 23,
            TagId::Scan => 24,
            TagId::PrecursorList => 25,
            TagId::Precursor => 26,
            TagId::IsolationWindow => 27,
            TagId::SelectedIonList => 28,
            TagId::SelectedIon => 29,
            TagId::Activation => 30,
            TagId::ProductList => 31,
            TagId::Product => 32,
            TagId::BinaryDataArrayList => 33,
            TagId::BinaryDataArray => 34,
            TagId::ChromatogramList => 35,
            TagId::Chromatogram => 36,
            TagId::CvParam => 37,
            TagId::UserParam => 38,
            TagId::ReferenceableParamGroupRef => 39,
        }
    }
}

/// Different elements have different codes.
pub proof fn lemma_code_is_injective(a: TagId, b: TagId)
    ensures
        a.spec_code() == b.spec_code() <==> a == b,
{
}

/// The value of a record.
///
/// A number carries the bit pattern of an IEEE-754 binary64 value and,
/// beside it, the decimal text of that value as whoever made the record
/// wrote it.
#[derive(Debug, Clone, PartialEq, Eq)]
pub enum MetadatumValue {
    /// A number: its bits and its decimal text.
    Number { bits: u64, text: String },
    /// A text.
    Text(String),
    /// No value.
    Empty,
}

/// The content of a [`MetadatumValue`] as mathematical values.
#[verifier::ext_equal]
pub enum MetadatumValueModel {
    Number { bits: u64, text: Seq<char> },
    Text(Seq<char>),
    Empty,
}

impl DeepView for MetadatumValue {
    type V = MetadatumValueModel;

    open spec fn deep_view(&self) -> MetadatumValueModel {
        match self {
            MetadatumValue::Number { bits, text } => MetadatumValueModel::Number {
                bits: *bits,
                text: text@,
            },
            MetadatumValue::Text(s) => MetadatumValueModel::Text(s@),
            MetadatumValue::Empty => MetadatumValueModel::Empty,
        }
    }
}

/// One metadata record.
#[derive(Debug, Clone, PartialEq, Eq)]
pub struct Metadatum {
    /// The item the record belongs to.
    pub item_index: u32,
    /// The element that owns the record.
    pub owner_id: u32,
    /// The element that is the parent of the owner.
    pub parent_index: u32,
    /// The kind of element that owns the record.
    pub tag_id: TagId,
    /// The accession of the term or attribute.
    pub accession: Option<String>,
    /// The accession of the unit.
    pub unit_accession: Option<String>,
    /// The value.
    pub value: MetadatumValue,
}

/// The content of a [`Metadatum`] as mathematical values.
#[verifier::ext_equal]
pub struct MetadatumModel {
    pub item_index: u32,
    pub owner_id: u32,
    pub parent_index: u32,
    pub tag_id: TagId,
    pub accession: Option<Seq<char>>,
    pub unit_accession: Option<Seq<char>>,
    pub value: MetadatumValueModel,
}

impl DeepView for Metadatum {
    type V = MetadatumModel;

    open spec fn deep_view(&self) -> MetadatumModel {
        MetadatumModel {
            item_index: self.item_index,
            owner_id: self.owner_id,
            parent_index: self.parent_index,
            tag_id: self.tag_id,
            accession: self.accession.deep_view(),
            unit_accession: self.unit_accession.deep_view(),
            value: self.value.deep_view(),
        }
    }
}

/// Copies a value.
pub fn clone_value(v: &MetadatumValue) -> (r: MetadatumValue)
    ensures
        r.deep_view() == v.deep_view(),
{
    match v {
        MetadatumValue::Number { bits, text } => MetadatumValue::Number {
            bits: *bits,
            text: text.clone(),
        },
        MetadatumValue::Text(s) => MetadatumValue::Text(s.clone()),
        MetadatumValue::Empty => MetadatumValue::Empty,
    }
}

/// Copies an optional string.
pub fn clone_text(s: &Option<String>) -> (r: Option<String>)
    ensures
        r.deep_view() == s.deep_view(),
{
    match s {
        Some(t) => Some(t.clone()),
        None => None,
    }
}

/// Copies a record.
pub fn clone_metadatum(m: &Metadatum) -> (r: Metadatum)
    ensures
        r.deep_view() == m.deep_view(),
{
    Metadatum {
        item_index: m.item_index,
        owner_id: m.owner_id,
        parent_index: m.parent_index,
        tag_id: m.tag_id,
        accession: clone_text(&m.accession),
        unit_accession: clone_text(&m.unit_accession),
        value: clone_value(&m.value),
    }
}

/// The whole number below `2^32` that a binary64 bit pattern stands for,
/// where it stands for one.  Both zeros count as zero.
///
/// A pattern with biased exponent `e` and fraction `f` stands for
/// `(2^52 + f) * 2^(e - 1075)`.  That is a whole number from 1 to
/// `2^32 - 1` exactly when `e` lies from 1023 to 1054 and the lowest
/// `1075 - e` bits of the fraction are zero.
pub open spec fn whole_u32(bits: u64) -> Option<u32> {
    let exp = (bits >> 52) & 0x7ff;
    let frac = bits & 0xf_ffff_ffff_ffff;
    if exp == 0 && frac == 0 {
        Some(0u32)
    } else if bits >> 63 != 0 || exp < 1023 || exp > 1054 {
        None
    } else {
        let shift = (1075 - exp) as u64;
        let m = frac | 0x10_0000_0000_0000;
        if (m >> shift) << shift != m {
            None
        } else {
            Some((m >> shift) as u32)
        }
    }
}

/// Returns the whole number below `2^32` that a binary64 bit pattern
/// stands for.
pub fn number_as_u32(bits: u64) -> (r: Option<u32>)
    ensures
        r == whole_u32(bits),
{
    let exp: u64 = (bits >> 52) & 0x7ff;
    let frac: u64 = bits & 0xf_ffff_ffff_ffff;
    if exp == 0 && frac == 0 {
        return Some(0);
    }
    if bits >> 63 != 0 || exp < 1023 || exp > 1054 {
        return None;
    }
    let shift: u64 = 1075 - exp;
    let m: u64 = frac | 0x10_0000_0000_0000;
    assert((m >> shift) <= 0xffff_ffff) by (bit_vector)
        requires
            m == frac | 0x10_0000_0000_0000,
            frac == bits & 0xf_ffff_ffff_ffff,
            21 <= shift <= 52,
    ;
    if (m >> shift) << shift != m {
        return None;
    }
    Some((m >> shift) as u32)
}

/// The 32-bit count that a value stands for: a number that is a whole
/// number below `2^32`, or a text that spells one in decimal.
pub open spec fn value_u32(v: MetadatumValueModel) -> Option<u32> {
    match v {
        MetadatumValueModel::Number { bits, text } => whole_u32(bits),
        MetadatumValueModel::Text(s) => parse_u32_spec(encode_utf8(s)),
        MetadatumValueModel::Empty => None,
    }
}

/// Returns the 32-bit count that a value stands for.
pub fn as_u32(v: &MetadatumValue) -> (r: Option<u32>)
    ensures
        r == value_u32(v.deep_view()),
{
    match v {
        MetadatumValue::Number { bits, text } => number_as_u32(*bits),
        MetadatumValue::Text(s) => parse_u32(s.as_str().as_bytes()),
        MetadatumValue::Empty => None,
    }
}

/// The text of a value: the text itself, or the decimal text of a number.
pub open spec fn value_text(v: MetadatumValueModel) -> Option<Seq<char>> {
    match v {
        MetadatumValueModel::Number { bits, text } => Some(text),
        MetadatumValueModel::Text(s) => Some(s),
        MetadatumValueModel::Empty => None,
    }
}

/// Returns the text of a value.
pub fn as_string(v: &MetadatumValue) -> (r: Option<String>)
    ensures
        r.deep_view() == value_text(v.deep_view()),
{
    match v {
        MetadatumValue::Number { bits, text } => Some(text.clone()),
        MetadatumValue::Text(s) => Some(s.clone()),
        MetadatumValue::Empty => None,
    }
}

/// Returns the text of a value.
pub fn value_to_opt_string(v: &MetadatumValue) -> (r: Option<String>)
    ensures
        r.deep_view() == value_text(v.deep_view()),
{
    as_string(v)
}

/// The value of a parameter that a value of a record becomes.
pub open spec fn value_param(v: MetadatumValueModel) -> ParamValueModel {
    match v {
        MetadatumValueModel::Number { bits, text } => ParamValueModel::Number(bits),
        MetadatumValueModel::Text(s) => ParamValueModel::Text(s),
        MetadatumValueModel::Empty => ParamValueModel::Empty,
    }
}

/// Returns the value of a parameter that a value of a record becomes.
pub fn value_to_param(v: &MetadatumValue) -> (r: ParamValue)
    ensures
        r.deep_view() == value_param(v.deep_view()),
{
    match v {
        MetadatumValue::Number { bits, text } => ParamValue::Number(*bits),
        MetadatumValue::Text(s) => ParamValue::Text(s.clone()),
        MetadatumValue::Empty => ParamValue::Empty,
    }
}

/// The bytes of an optional text.
pub open spec fn text_bytes(s: Option<Seq<char>>) -> Option<Seq<u8>> {
    match s {
        Some(c) => Some(encode_utf8(c)),
        None => None,
    }
}

/// Borrows an optional string as a slice.
pub fn opt_str(s: &Option<String>) -> (r: Option<&str>)
    ensures
        bytes_of(r) == text_bytes(s.deep_view()),
        r is Some <==> s is Some,
{
    match s {
        Some(t) => Some(t.as_str()),
        None => None,
    }
}

/// The text of the attribute `tail` among the rows.
///
/// The rows are searched in order.  A row without an accession, or with
/// one that has no colon, ends the search without a result.  The first row
/// under the prefix `B000` whose tail reads as `tail` gives the result:
/// the text of its value.
pub open spec fn attr_text(rows: Seq<MetadatumModel>, tail: u32) -> Option<Seq<char>>
    decreases rows.len(),
{
    if rows.len() == 0 {
        None
    } else {
        match rows[0].accession {
            None => None,
            Some(c) => {
                let b = encode_utf8(c);
                let i = first_index_of(b, COLON);
                if i < 0 {
                    None
                } else if b.subrange(0, i) == prefix_attr() && scattered_u32(tail_bytes(b))
                    == tail {
                    value_text(rows[0].value)
                } else {
                    attr_text(rows.drop_first(), tail)
                }
            },
        }
    }
}

/// The contents of the rows.
pub open spec fn rows_view(rows: Seq<&Metadatum>) -> Seq<MetadatumModel> {
    Seq::new(rows.len(), |i: int| rows[i].deep_view())
}

/// Returns the text of the attribute `tail` among the rows.
pub fn get_attr_text(rows: &[&Metadatum], tail: u32) -> (r: Option<String>)
    ensures
        r.deep_view() == attr_text(rows_view(rows@), tail),
{
    let mut i: usize = 0;
    let ghost all = rows_view(rows@);
    assert(all.skip(0) =~= all);
    while i < rows.len()
        invariant
            i <= rows@.len(),
            all == rows_view(rows@),
            attr_text(all, tail) == attr_text(all.skip(i as int), tail),
        decreases rows@.len() - i,
    {
        let m = rows[i];
        proof {
            assert(all.skip(i as int)[0] == m.deep_view());
            assert(all.skip(i as int).drop_first() =~= all.skip(i + 1));
        }
        let acc = match opt_str(&m.accession) {
            Some(a) => a,
            None => {
                return None;
            },
        };
        let p = match split_prefix(acc) {
            Some((p, _)) => p,
            None => {
                return None;
            },
        };
        if is_attr_prefix(p.as_bytes()) && crate::accession::parse_accession_tail_str(acc)
            == tail {
            return value_to_opt_string(&m.value);
        }
        i = i + 1;
    }
    None
}

/// The 32-bit count of the attribute `tail` among the rows: its text,
/// read as a decimal number.
pub open spec fn attr_u32(rows: Seq<MetadatumModel>, tail: u32) -> Option<u32> {
    match attr_text(rows, tail) {
        Some(c) => parse_u32_spec(encode_utf8(c)),
        None => None,
    }
}

/// Returns the 32-bit count of the attribute `tail` among the rows.
pub fn get_attr_u32(rows: &[&Metadatum], tail: u32) -> (r: Option<u32>)
    ensures
        r == attr_u32(rows_view(rows@), tail),
{
    match get_attr_text(rows, tail) {
        Some(s) => parse_u32(s.as_str().as_bytes()),
        None => None,
    }
}

} // verus!
