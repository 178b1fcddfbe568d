//! Metadata blocks: the dictionary-coded parameters of many items.
//!
//! A block is laid out in columns.  First come the prefix sums that give
//! each item its records, then one column per field of a record, then the
//! tables of numbers and strings that the records point into.

use vstd::prelude::*;
use vstd::slice::{slice_subrange, slice_to_vec};
use vstd::string::StringSliceAdditionalSpecFns;
use vstd::utf8::{decode_utf8, valid_utf8};
use crate::accession::{
    accession_bytes, bytes_of, COLON, cv_ref_from_code, make_accession, prefix_of_code, text_of,
};
use crate::bytes::{le_u32, le_u32_at, le_u64, le_u64_at};
use crate::cv_table::CvTable;
use crate::error::DecodeError;
use crate::params::{CvParam, CvParamModel, lemma_deep_view_push, ParamValue, ParamValueModel};
use crate::text::{push_decimal, text_from_utf8, zero_padded};

verus! {

/// Value kind code of a number.
pub const KIND_NUMBER: u8 = 0;

/// Value kind code of a text.
pub const KIND_TEXT: u8 = 1;

/// The counts that fix the layout of a metadata block.
#[derive(Clone, Copy, Debug, PartialEq, Eq)]
pub struct MetaShape {
    /// The number of items.
    pub item_count: u32,
    /// The number of records.
    pub meta_count: u32,
    /// The number of entries of the number table.
    pub num_count: u32,
    /// The number of entries of the string table.
    pub str_count: u32,
}

impl MetaShape {
    /// Where the vocabulary codes of the records start.
    pub open spec fn ref_codes(self) -> int {
        4 * (self.item_count + 1)
    }

    /// Where the accession tails of the records start.
    pub open spec fn accessions(self) -> int {
        self.ref_codes() + self.meta_count
    }

    /// Where the unit vocabulary codes of the records start.
    pub open spec fn unit_refs(self) -> int {
        self.accessions() + 4 * self.meta_count
    }

    /// Where the unit accession tails of the records start.
    pub open spec fn unit_accessions(self) -> int {
        self.unit_refs() + self.meta_count
    }

    /// Where the value kinds of the records start.
    pub open spec fn value_kinds(self) -> int {
        self.unit_accessions() + 4 * self.meta_count
    }

    /// Where the value indices of the records start.
    pub open spec fn value_indices(self) -> int {
        self.value_kinds() + self.meta_count
    }

    /// Where the number table starts.
    pub open spec fn numeric_values(self) -> int {
        self.value_indices() + 4 * self.meta_count
    }

    /// Where the offsets of the string table start.
    pub open spec fn string_offsets(self) -> int {
        self.numeric_values() + 8 * self.num_count
    }

    /// Where the lengths of the string table start.
    pub open spec fn string_lengths(self) -> int {
        self.string_offsets() + 4 * self.str_count
    }

    /// Where the bytes of the strings start; this is also the size of
    /// everything before them.
    pub open spec fn strings_data(self) -> int {
        self.string_lengths() + 4 * self.str_count
    }

    /// The prefix sum number `i`: where the records of item `i` start.
    pub open spec fn item_index(self, b: Seq<u8>, i: int) -> u32 {
        le_u32(b, 4 * i)
    }
}

/// The start of each region of a block, as machine numbers.
pub struct Regions {
    pub ref_codes: usize,
    pub accessions: usize,
    pub unit_refs: usize,
    pub unit_accessions: usize,
    pub value_kinds: usize,
    pub value_indices: usize,
    pub numeric_values: usize,
    pub string_offsets: usize,
    pub string_lengths: usize,
    pub strings_data: usize,
}

impl Regions {
    /// Whether these are the regions of a block of shape `s`.
    pub open spec fn of(&self, s: MetaShape) -> bool {
        &&& self.ref_codes == s.ref_codes()
        &&& self.accessions == s.accessions()
        &&& self.unit_refs == s.unit_refs()
        &&& self.unit_accessions == s.unit_accessions()
        &&& self.value_kinds == s.value_kinds()
        &&& self.value_indices == s.value_indices()
        &&& self.numeric_values == s.numeric_values()
        &&& self.string_offsets == s.string_offsets()
        &&& self.string_lengths == s.string_lengths()
        &&& self.strings_data == s.strings_data()
    }

    /// Lays out a block of shape `s` in `len` bytes; `None` where the
    /// regions before the strings do not fit.
    pub fn locate(s: MetaShape, len: usize) -> (r: Option<Regions>)
        ensures
            r is Some <==> s.strings_data() <= len,
            r matches Some(g) ==> g.of(s),
    {
        let ic = s.item_count as u64;
        let mc = s.meta_count as u64;
        let nc = s.num_count as u64;
        let sc = s.str_count as u64;
        let ref_codes: u64 = 4 * (ic + 1);
        let accessions: u64 = ref_codes + mc;
        let unit_refs: u64 = accessions + 4 * mc;
        let unit_accessions: u64 = unit_refs + mc;
        let value_kinds: u64 = unit_accessions + 4 * mc;
        let value_indices: u64 = value_kinds + mc;
        let numeric_values: u64 = value_indices + 4 * mc;
        let string_offsets: u64 = numeric_values + 8 * nc;
        let string_lengths: u64 = string_offsets + 4 * sc;
        let strings_data: u64 = string_lengths + 4 * sc;
        if strings_data > len as u64 {
            return None;
        }
        Some(
            Regions {
                ref_codes: ref_codes as usize,
                accessions: accessions as usize,
                unit_refs: unit_refs as usize,
                unit_accessions: unit_accessions as usize,
                value_kinds: value_kinds as usize,
                value_indices: value_indices as usize,
                numeric_values: numeric_values as usize,
                string_offsets: string_offsets as usize,
                string_lengths: string_lengths as usize,
                strings_data: strings_data as usize,
            },
        )
    }
}

/// The key under which the display name of a term is looked up: the
/// prefix, a colon, and the tail padded to seven digits.
pub open spec fn name_key(prefix: Seq<u8>, a: u32) -> Seq<u8> {
    prefix + seq![COLON] + zero_padded(a as nat, 7)
}

/// The display name of the term with the given prefix and tail.
pub open spec fn name_of_code(table: Map<Seq<u8>, Seq<char>>, prefix: Option<Seq<u8>>, a: u32)
    -> Option<Seq<char>> {
    match prefix {
        None => None,
        Some(p) => if a != 0 && table.contains_key(name_key(p, a)) {
            Some(table[name_key(p, a)])
        } else {
            None
        },
    }
}

/// Looks up the display name of the term with the given prefix and tail.
pub fn cv_name_from_code(r: Option<&str>, a: u32, table: &CvTable) -> (name: Option<String>)
    ensures
        name.deep_view() == name_of_code(table@, bytes_of(r), a),
{
    if a == 0 {
        return None;
    }
    match r {
        None => None,
        Some(p) => {
            let mut key: Vec<u8> = Vec::new();
            key.extend_from_slice(p.as_bytes());
            key.push(COLON);
            push_decimal(&mut key, a, 7);
            assert(key@ =~= name_key(p.spec_bytes(), a));
            match table.lookup(key.as_slice()) {
                Some(n) => Some(n.clone()),
                None => None,
            }
        },
    }
}

/// The value of record `m`.
#[verifier::opaque]
pub open spec fn record_value(b: Seq<u8>, s: MetaShape, m: int) -> Result<
    ParamValueModel,
    DecodeError,
> {
    let kind = b[s.value_kinds() + m];
    let idx = le_u32(b, s.value_indices() + 4 * m);
    if kind == KIND_NUMBER {
        if idx >= s.num_count {
            Err(DecodeError::ValueIndexOutOfRange)
        } else {
            Ok(ParamValueModel::Number(le_u64(b, s.numeric_values() + 8 * idx)))
        }
    } else if kind == KIND_TEXT {
        if idx >= s.str_count {
            Err(DecodeError::ValueIndexOutOfRange)
        } else {
            let off = le_u32(b, s.string_offsets() + 4 * idx);
            let len = le_u32(b, s.string_lengths() + 4 * idx);
            if s.strings_data() + off + len > b.len() {
                Err(DecodeError::ValueIndexOutOfRange)
            } else {
                let t = b.subrange(s.strings_data() + off, s.strings_data() + off + len);
                if valid_utf8(t) {
                    Ok(ParamValueModel::Text(decode_utf8(t)))
                } else {
                    Err(DecodeError::InvalidUtf8)
                }
            }
        }
    } else {
        Ok(ParamValueModel::Empty)
    }
}

/// The parameter that record `m` stands for.
#[verifier::opaque]
pub open spec fn record_param(b: Seq<u8>, s: MetaShape, table: Map<Seq<u8>, Seq<char>>, m: int)
    -> Result<CvParamModel, DecodeError> {
    let prefix = prefix_of_code(b[s.ref_codes() + m]);
    let tail = le_u32(b, s.accessions() + 4 * m);
    let unit_prefix = prefix_of_code(b[s.unit_refs() + m]);
    let unit_tail = le_u32(b, s.unit_accessions() + 4 * m);
    match record_value(b, s, m) {
        Err(e) => Err(e),
        Ok(v) => Ok(
            CvParamModel {
                cv_ref: text_of(prefix),
                accession: text_of(accession_bytes(prefix, tail)),
                name: match name_of_code(table, prefix, tail) {
                    Some(n) => n,
                    None => Seq::empty(),
                },
                value: v,
                unit_cv_ref: text_of(unit_prefix),
                unit_name: name_of_code(table, unit_prefix, unit_tail),
                unit_accession: text_of(accession_bytes(unit_prefix, unit_tail)),
            },
        ),
    }
}

/// The parameters that the records `lo..hi` stand for; the first record
/// that cannot be read decides the error.
pub open spec fn records(
    b: Seq<u8>,
    s: MetaShape,
    table: Map<Seq<u8>, Seq<char>>,
    lo: int,
    hi: int,
) -> Result<Seq<CvParamModel>, DecodeError>
    decreases hi - lo,
{
    if hi <= lo {
        Ok(Seq::empty())
    } else {
        match records(b, s, table, lo, hi - 1) {
            Err(e) => Err(e),
            Ok(ps) => match record_param(b, s, table, hi - 1) {
                Err(e) => Err(e),
                Ok(p) => Ok(ps.push(p)),
            },
        }
    }
}

/// The parameters of item `i`: its records lie between two prefix sums,
/// which must not decrease and must stay within the record count.
pub open spec fn item_params(b: Seq<u8>, s: MetaShape, table: Map<Seq<u8>, Seq<char>>, i: int)
    -> Result<Seq<CvParamModel>, DecodeError> {
    let lo = s.item_index(b, i);
    let hi = s.item_index(b, i + 1);
    if lo > hi || hi > s.meta_count {
        Err(DecodeError::ItemIndexNotMonotonic)
    } else {
        records(b, s, table, lo as int, hi as int)
    }
}

/// The parameters of the first `n` items; the first item that cannot be
/// read decides the error.
pub open spec fn items(b: Seq<u8>, s: MetaShape, table: Map<Seq<u8>, Seq<char>>, n: int)
    -> Result<Seq<Seq<CvParamModel>>, DecodeError>
    decreases n,
{
    if n <= 0 {
        Ok(Seq::empty())
    } else {
        match items(b, s, table, n - 1) {
            Err(e) => Err(e),
            Ok(done) => match item_params(b, s, table, n - 1) {
                Err(e) => Err(e),
                Ok(ps) => Ok(done.push(ps)),
            },
        }
    }
}

/// What decoding a metadata block gives: the parameters of each item.
///
/// A block that holds nothing, for which all four counts are zero, may
/// be empty.  Otherwise the regions before the strings must fit, the
/// first prefix sum must be zero and the last one the record count, so
/// that every record belongs to an item and is checked with it.
pub open spec fn meta_block_spec(b: Seq<u8>, s: MetaShape, table: Map<Seq<u8>, Seq<char>>)
    -> Result<Seq<Seq<CvParamModel>>, DecodeError> {
    if s.item_count == 0 && s.meta_count == 0 && s.num_count == 0 && s.str_count == 0 && b.len()
        == 0 {
        Ok(Seq::empty())
    } else if s.strings_data() > b.len() {
        Err(DecodeError::UnexpectedEnd)
    } else if s.item_index(b, 0) != 0 || s.item_index(b, s.item_count as int) != s.meta_count {
        Err(DecodeError::ItemIndexNotMonotonic)
    } else {
        items(b, s, table, s.item_count as int)
    }
}

/// Decodes the value of record `m`.
fn decode_value(bytes: &[u8], g: &Regions, s: MetaShape, m: usize) -> (r: Result<
    ParamValue,
    DecodeError,
>)
    requires
        g.of(s),
        s.strings_data() <= bytes.len(),
        m < s.meta_count,
    ensures
        match r {
            Ok(v) => record_value(bytes@, s, m as int) == Ok::<ParamValueModel, DecodeError>(
                v.deep_view(),
            ),
            Err(e) => record_value(bytes@, s, m as int) == Err::<ParamValueModel, DecodeError>(e),
        },
{
    reveal(record_value);
    let kind = bytes[g.value_kinds + m];
    let idx = le_u32_at(bytes, g.value_indices + 4 * m);
    if kind == KIND_NUMBER {
        if idx >= s.num_count {
            return Err(DecodeError::ValueIndexOutOfRange);
        }
        Ok(ParamValue::Number(le_u64_at(bytes, g.numeric_values + 8 * (idx as usize))))
    } else if kind == KIND_TEXT {
        if idx >= s.str_count {
            return Err(DecodeError::ValueIndexOutOfRange);
        }
        let off = le_u32_at(bytes, g.string_offsets + 4 * (idx as usize));
        let len = le_u32_at(bytes, g.string_lengths + 4 * (idx as usize));
        let room: u64 = (bytes.len() - g.strings_data) as u64;
        if off as u64 + len as u64 > room {
            return Err(DecodeError::ValueIndexOutOfRange);
        }
        let from = g.strings_data + off as usize;
        let raw = slice_to_vec(slice_subrange(bytes, from, from + len as usize));
        match text_from_utf8(raw) {
            Some(t) => Ok(ParamValue::Text(t)),
            None => Err(DecodeError::InvalidUtf8),
        }
    } else {
        Ok(ParamValue::Empty)
    }
}

/// Decodes record `m`.
fn decode_record(bytes: &[u8], g: &Regions, s: MetaShape, table: &CvTable, m: usize) -> (r:
    Result<CvParam, DecodeError>)
    requires
        g.of(s),
        s.strings_data() <= bytes.len(),
        m < s.meta_count,
    ensures
        match r {
            Ok(p) => record_param(bytes@, s, table@, m as int) == Ok::<CvParamModel, DecodeError>(
                p.deep_view(),
            ),
            Err(e) => record_param(bytes@, s, table@, m as int) == Err::<
                CvParamModel,
                DecodeError,
            >(e),
        },
{
    reveal(record_param);
    let value = match decode_value(bytes, g, s, m) {
        Ok(v) => v,
        Err(e) => {
            return Err(e);
        },
    };
    let cv_ref = cv_ref_from_code(bytes[g.ref_codes + m]);
    let tail = le_u32_at(bytes, g.accessions + 4 * m);
    let unit_ref = cv_ref_from_code(bytes[g.unit_refs + m]);
    let unit_tail = le_u32_at(bytes, g.unit_accessions + 4 * m);
    let name = match cv_name_from_code(cv_ref, tail, table) {
        Some(n) => n,
        None => String::new(),
    };
    let p = CvParam {
        cv_ref: match cv_ref {
            Some(t) => Some(t.to_owned()),
            None => None,
        },
        accession: make_accession(cv_ref, tail),
        name,
        value,
        unit_cv_ref: match unit_ref {
            Some(t) => Some(t.to_owned()),
            None => None,
        },
        unit_name: cv_name_from_code(unit_ref, unit_tail, table),
        unit_accession: make_accession(unit_ref, unit_tail),
    };
    assert(p.deep_view() =~~= record_param(bytes@, s, table@, m as int)->Ok_0);
    Ok(p)
}

/// Decodes the parameters of item `i`.
fn decode_item(bytes: &[u8], g: &Regions, s: MetaShape, table: &CvTable, i: usize) -> (r: Result<
    Vec<CvParam>,
    DecodeError,
>)
    requires
        g.of(s),
        s.strings_data() <= bytes.len(),
        i < s.item_count,
    ensures
        match r {
            Ok(ps) => item_params(bytes@, s, table@, i as int) == Ok::<
                Seq<CvParamModel>,
                DecodeError,
            >(ps.deep_view()),
            Err(e) => item_params(bytes@, s, table@, i as int) == Err::<
                Seq<CvParamModel>,
                DecodeError,
            >(e),
        },
{
    let lo = le_u32_at(bytes, 4 * i);
    let hi = le_u32_at(bytes, 4 * (i + 1));
    if lo > hi || hi > s.meta_count {
        return Err(DecodeError::ItemIndexNotMonotonic);
    }
    let mut out: Vec<CvParam> = Vec::with_capacity((hi - lo) as usize);
    let mut m: u32 = lo;
    assert(out.deep_view() =~= Seq::<CvParamModel>::empty());
    while m < hi
        invariant
            g.of(s),
            s.strings_data() <= bytes.len(),
            lo <= m <= hi <= s.meta_count,
            lo == s.item_index(bytes@, i as int),
            hi == s.item_index(bytes@, i + 1),
            records(bytes@, s, table@, lo as int, m as int) == Ok::<
                Seq<CvParamModel>,
                DecodeError,
            >(out.deep_view()),
        decreases hi - m,
    {
        match decode_record(bytes, g, s, table, m as usize) {
            Ok(p) => {
                let ghost before = out;
                out.push(p);
                proof {
                    lemma_deep_view_push(before, out, p);
                }
            },
            Err(e) => {
                proof {
                    lemma_records_fail(bytes@, s, table@, lo as int, m as int + 1, hi as int);
                }
                return Err(e);
            },
        }
        m = m + 1;
    }
    Ok(out)
}

/// Once the records `lo..mid` cannot be read, neither can `lo..hi`, and
/// for the same reason.
proof fn lemma_records_fail(
    b: Seq<u8>,
    s: MetaShape,
    table: Map<Seq<u8>, Seq<char>>,
    lo: int,
    mid: int,
    hi: int,
)
    requires
        lo <= mid <= hi,
        records(b, s, table, lo, mid) is Err,
    ensures
        records(b, s, table, lo, hi) == records(b, s, table, lo, mid),
    decreases hi - mid,
{
    if mid < hi {
        lemma_records_fail(b, s, table, lo, mid, hi - 1);
    }
}

/// Once the first `mid` items cannot be read, neither can the first `n`,
/// and for the same reason.
proof fn lemma_items_fail(
    b: Seq<u8>,
    s: MetaShape,
    table: Map<Seq<u8>, Seq<char>>,
    mid: int,
    n: int,
)
    requires
        0 <= mid <= n,
        items(b, s, table, mid) is Err,
    ensures
        items(b, s, table, n) == items(b, s, table, mid),
    decreases n - mid,
{
    if mid < n {
        lemma_items_fail(b, s, table, mid, n - 1);
    }
}

/// Decodes a metadata block into the parameters of each of its items.
///
/// Display names are taken from `table`; a term that the table does not
/// hold gets an empty name.
pub fn decode_meta_block(
    bytes: &[u8],
    item_count: u32,
    meta_count: u32,
    num_count: u32,
    str_count: u32,
    table: &CvTable,
) -> (r: Result<Vec<Vec<CvParam>>, DecodeError>)
    ensures
        match r {
            Ok(v) => meta_block_spec(
                bytes@,
                (MetaShape { item_count, meta_count, num_count, str_count }),
                table@,
            ) == Ok::<Seq<Seq<CvParamModel>>, DecodeError>(v.deep_view()),
            Err(e) => meta_block_spec(
                bytes@,
                (MetaShape { item_count, meta_count, num_count, str_count }),
                table@,
            ) == Err::<Seq<Seq<CvParamModel>>, DecodeError>(e),
        },
{
    let s = MetaShape { item_count, meta_count, num_count, str_count };
    let mut out: Vec<Vec<CvParam>> = Vec::new();
    assert(out.deep_view() =~= Seq::<Seq<CvParamModel>>::empty());
    if item_count == 0 && meta_count == 0 && num_count == 0 && str_count == 0 && bytes.len() == 0 {
        return Ok(out);
    }
    let g = match Regions::locate(s, bytes.len()) {
        Some(g) => g,
        None => {
            return Err(DecodeError::UnexpectedEnd);
        },
    };
    if le_u32_at(bytes, 0) != 0 || le_u32_at(bytes, 4 * (item_count as usize)) != meta_count {
        return Err(DecodeError::ItemIndexNotMonotonic);
    }
    let mut i: u32 = 0;
    while i < item_count
        invariant
            g.of(s),
            s.strings_data() <= bytes.len(),
            s == (MetaShape { item_count, meta_count, num_count, str_count }),
            s.item_index(bytes@, 0) == 0,
            s.item_index(bytes@, item_count as int) == meta_count,
            i <= item_count,
            items(bytes@, s, table@, i as int) == Ok::<Seq<Seq<CvParamModel>>, DecodeError>(
                out.deep_view(),
            ),
        decreases item_count - i,
    {
        match decode_item(bytes, &g, s, table, i as usize) {
            Ok(ps) => {
                let ghost before = out;
                out.push(ps);
                proof {
                    lemma_deep_view_push(before, out, ps);
                }
            },
            Err(e) => {
                proof {
                    lemma_items_fail(bytes@, s, table@, i as int + 1, item_count as int);
                }
                return Err(e);
            },
        }
        i = i + 1;
    }
    Ok(out)
}

} // verus!
