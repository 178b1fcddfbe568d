//! The attributes and the free-form entries of an item as they stand in
//! a metadata block: in front of the terms of the item, each as a
//! parameter whose accession is the tail of an attribute.

use vstd::prelude::*;
use vstd::string::StringSliceAdditionalSpecFns;
use vstd::utf8::{decode_utf8, decode_utf8_encode_utf8, encode_utf8};
use crate::accession_laws::lemma_decimal_spells;
use crate::flatten::{attr_param, clone_cv_param, clone_param_value, make_attr_param};
use crate::items::{parse_usize, parse_usize_spec};
use crate::meta_laws::{normal, normal_params};
use crate::metadatum::{
    ACC_ATTR_DATA_PROCESSING_REF, ACC_ATTR_ID, ACC_ATTR_INDEX, ACC_ATTR_MS_LEVEL,
    ACC_ATTR_NATIVE_ID, ACC_ATTR_SCAN_NUMBER, ACC_ATTR_SOURCE_FILE_REF, ACC_ATTR_SPECTRUM_REF,
    ACC_ATTR_SPOT_ID, ACC_ATTR_USER_COUNT, ACC_ATTR_USER_FIELD,
};
use crate::params::{
    CvParam, CvParamModel, lemma_deep_view_push, ParamValue, ParamValueModel, UserParam,
    UserParamModel,
};
use crate::precursor::{model_tail, param_tail};
use crate::round_trip::lemma_attribute_reads_back;
use crate::text::{
    ascii_text, decimal, lemma_ascii_is_utf8, lemma_decimal_ascii, parse_u32, parse_u32_spec,
};

verus! {

/// How many records stand in front of the free-form entries: nine
/// attributes and the count of the entries.
pub const FRONT_LEN: usize = 10;

/// How many records carry one free-form entry.
pub const USER_LEN: usize = 6;

/// The attributes of an item as mathematical values.
#[verifier::ext_equal]
pub struct ItemAttrsModel {
    pub id: Seq<char>,
    pub index: Option<u32>,
    pub scan_number: Option<u32>,
    pub native_id: Option<Seq<char>>,
    pub data_processing_ref: Option<Seq<char>>,
    pub source_file_ref: Option<Seq<char>>,
    pub spot_id: Option<Seq<char>>,
    pub ms_level: Option<u32>,
    pub spectrum_ref: Option<Seq<char>>,
}

/// The value that carries an optional text.
pub open spec fn opt_text_value(o: Option<Seq<char>>) -> ParamValueModel {
    match o {
        Some(s) => ParamValueModel::Text(s),
        None => ParamValueModel::Empty,
    }
}

/// The value that carries a count: its decimal digits.
pub open spec fn count_value(n: nat) -> ParamValueModel {
    ParamValueModel::Text(decode_utf8(decimal(n)))
}

/// The value that carries an optional 32-bit count.
pub open spec fn opt_count_value(o: Option<u32>) -> ParamValueModel {
    match o {
        Some(n) => count_value(n as nat),
        None => ParamValueModel::Empty,
    }
}

/// The text that a value carries; the empty text where it carries none.
pub open spec fn text_in(v: ParamValueModel) -> Seq<char> {
    match v {
        ParamValueModel::Text(s) => s,
        _ => Seq::empty(),
    }
}

/// The optional text that a value carries.
pub open spec fn opt_text_in(v: ParamValueModel) -> Option<Seq<char>> {
    match v {
        ParamValueModel::Text(s) => Some(s),
        _ => None,
    }
}

/// The optional 32-bit count that a value carries.
pub open spec fn opt_count_in(v: ParamValueModel) -> Option<u32> {
    match v {
        ParamValueModel::Text(s) => parse_u32_spec(encode_utf8(s)),
        _ => None,
    }
}

/// The count that a value carries.
pub open spec fn count_in(v: ParamValueModel) -> Option<usize> {
    match v {
        ParamValueModel::Text(s) => parse_usize_spec(encode_utf8(s)),
        _ => None,
    }
}

/// The tails of the records in front of the free-form entries, in their
/// order.
pub open spec fn front_tails() -> Seq<u32> {
    seq![
        ACC_ATTR_ID,
        ACC_ATTR_INDEX,
        ACC_ATTR_SCAN_NUMBER,
        ACC_ATTR_NATIVE_ID,
        ACC_ATTR_DATA_PROCESSING_REF,
        ACC_ATTR_SOURCE_FILE_REF,
        ACC_ATTR_SPOT_ID,
        ACC_ATTR_MS_LEVEL,
        ACC_ATTR_SPECTRUM_REF,
        ACC_ATTR_USER_COUNT,
    ]
}

/// The values of the records in front of the free-form entries, of
/// which there are `n`.
pub open spec fn front_values(a: ItemAttrsModel, n: nat) -> Seq<ParamValueModel> {
    seq![
        ParamValueModel::Text(a.id),
        opt_count_value(a.index),
        opt_count_value(a.scan_number),
        opt_text_value(a.native_id),
        opt_text_value(a.data_processing_ref),
        opt_text_value(a.source_file_ref),
        opt_text_value(a.spot_id),
        opt_count_value(a.ms_level),
        opt_text_value(a.spectrum_ref),
        count_value(n),
    ]
}

/// The records that carry the attributes of an item and the count of its
/// free-form entries.
pub open spec fn attr_records(a: ItemAttrsModel, n: nat) -> Seq<CvParamModel> {
    Seq::new(10, |j: int| attr_param(front_tails()[j], front_values(a, n)[j]))
}

/// The values of the six records that carry one free-form entry: its
/// name, its type, the accession, the vocabulary and the name of its
/// unit, and its value.
pub open spec fn user_values(u: UserParamModel) -> Seq<ParamValueModel> {
    seq![
        ParamValueModel::Text(u.name),
        opt_text_value(u.kind),
        opt_text_value(u.unit_accession),
        opt_text_value(u.unit_cv_ref),
        opt_text_value(u.unit_name),
        u.value,
    ]
}

/// The six records that carry one free-form entry.
pub open spec fn user_six(u: UserParamModel) -> Seq<CvParamModel> {
    Seq::new(6, |j: int| attr_param(ACC_ATTR_USER_FIELD, user_values(u)[j]))
}

/// The records that carry free-form entries, six for each.
pub open spec fn user_records(ups: Seq<UserParamModel>) -> Seq<CvParamModel>
    decreases ups.len(),
{
    if ups.len() == 0 {
        Seq::empty()
    } else {
        user_records(ups.drop_last()) + user_six(ups.last())
    }
}

/// The records in front of the terms of an item: its attributes, the
/// count of its free-form entries, and the entries.
pub open spec fn front_params(a: ItemAttrsModel, ups: Seq<UserParamModel>) -> Seq<CvParamModel> {
    attr_records(a, ups.len()) + user_records(ups)
}

/// Whether the first ten parameters are the records of attributes: each
/// has the tail of its attribute and belongs to no vocabulary.
pub open spec fn is_marked(ps: Seq<CvParamModel>) -> bool {
    ps.len() >= 10 && forall|j: int|
        0 <= j < 10 ==> model_tail(#[trigger] ps[j]) == front_tails()[j] && ps[j].cv_ref is None
}

/// Whether parameters start with the records of attributes and of as
/// many free-form entries as the count says.
pub open spec fn is_front(ps: Seq<CvParamModel>) -> bool {
    is_marked(ps) && (count_in(ps[9].value) matches Some(n) && 10 + 6 * n <= ps.len())
}

/// The number of free-form entries that the records in front announce.
pub open spec fn user_count(ps: Seq<CvParamModel>) -> nat {
    match count_in(ps[9].value) {
        Some(n) => n as nat,
        None => 0,
    }
}

/// The attributes that the records in front carry.
pub open spec fn attrs_of(ps: Seq<CvParamModel>) -> ItemAttrsModel {
    ItemAttrsModel {
        id: text_in(ps[0].value),
        index: opt_count_in(ps[1].value),
        scan_number: opt_count_in(ps[2].value),
        native_id: opt_text_in(ps[3].value),
        data_processing_ref: opt_text_in(ps[4].value),
        source_file_ref: opt_text_in(ps[5].value),
        spot_id: opt_text_in(ps[6].value),
        ms_level: opt_count_in(ps[7].value),
        spectrum_ref: opt_text_in(ps[8].value),
    }
}

/// The free-form entry that the six records at `at` carry.
pub open spec fn user_at(ps: Seq<CvParamModel>, at: int) -> UserParamModel {
    UserParamModel {
        name: text_in(ps[at].value),
        kind: opt_text_in(ps[at + 1].value),
        unit_accession: opt_text_in(ps[at + 2].value),
        unit_cv_ref: opt_text_in(ps[at + 3].value),
        unit_name: opt_text_in(ps[at + 4].value),
        value: ps[at + 5].value,
    }
}

/// The free-form entries that the records in front carry.
pub open spec fn users_of(ps: Seq<CvParamModel>) -> Seq<UserParamModel> {
    Seq::new(user_count(ps), |k: int| user_at(ps, 10 + 6 * k))
}

/// The parameters behind the records in front: the terms of the item.
pub open spec fn behind_front(ps: Seq<CvParamModel>) -> Seq<CvParamModel> {
    ps.skip((10 + 6 * user_count(ps)) as int)
}

/// The records of free-form entries are six for each, and entry `k`
/// stands in the six records from `6 * k` on.
pub proof fn lemma_user_records(ups: Seq<UserParamModel>, k: int, j: int)
    requires
        0 <= k < ups.len(),
        0 <= j < 6,
    ensures
        user_records(ups).len() == 6 * ups.len(),
        user_records(ups)[6 * k + j] == attr_param(ACC_ATTR_USER_FIELD, user_values(ups[k])[j]),
    decreases ups.len(),
{
    lemma_user_records_len(ups);
    lemma_user_records_len(ups.drop_last());
    if k < ups.len() - 1 {
        lemma_user_records(ups.drop_last(), k, j);
    }
}

/// The records of free-form entries are six for each.
pub proof fn lemma_user_records_len(ups: Seq<UserParamModel>)
    ensures
        user_records(ups).len() == 6 * ups.len(),
    decreases ups.len(),
{
    if ups.len() > 0 {
        lemma_user_records_len(ups.drop_last());
    }
}

/// A count written as a value is read back as that count.
pub proof fn lemma_count_reads_back(n: nat)
    ensures
        n <= usize::MAX ==> count_in(count_value(n)) == Some(n as usize),
        n <= u32::MAX ==> opt_count_in(count_value(n)) == Some(n as u32),
{
    let d = decimal(n);
    lemma_decimal_spells(n);
    lemma_decimal_ascii(n);
    lemma_ascii_is_utf8(d);
    decode_utf8_encode_utf8(d);
    assert(crate::text::is_digit(d[0]));
}

/// The record of attribute `j`, as it comes back from a block, has the
/// tail of the attribute and its value, and belongs to no vocabulary.
pub proof fn lemma_attr_record(a: ItemAttrsModel, n: nat, j: int, table: Map<Seq<u8>, Seq<char>>)
    requires
        0 <= j < 10,
    ensures
        model_tail(normal(attr_records(a, n)[j], table)) == front_tails()[j],
        normal(attr_records(a, n)[j], table).cv_ref is None,
        normal(attr_records(a, n)[j], table).value == front_values(a, n)[j],
{
    lemma_attribute_reads_back(front_tails()[j], front_values(a, n)[j], table);
}

/// Field `j` of free-form entry `k`, as it comes back from a block, has
/// its value.
pub proof fn lemma_user_record(
    ups: Seq<UserParamModel>,
    k: int,
    j: int,
    table: Map<Seq<u8>, Seq<char>>,
)
    requires
        0 <= k < ups.len(),
        0 <= j < 6,
    ensures
        user_records(ups).len() == 6 * ups.len(),
        normal(user_records(ups)[6 * k + j], table).value == user_values(ups[k])[j],
{
    lemma_user_records(ups, k, j);
    lemma_attribute_reads_back(ACC_ATTR_USER_FIELD, user_values(ups[k])[j], table);
}

/// Records whose values are those of the attributes carry the
/// attributes.
pub proof fn lemma_attrs_of(ps: Seq<CvParamModel>, a: ItemAttrsModel, n: nat)
    requires
        ps.len() >= 10,
        n <= usize::MAX,
        forall|j: int| 0 <= j < 10 ==> (#[trigger] ps[j]).value == front_values(a, n)[j],
    ensures
        attrs_of(ps) == a,
        count_in(ps[9].value) == Some(n as usize),
{
    lemma_count_reads_back(n);
    match a.index {
        Some(x) => lemma_count_reads_back(x as nat),
        None => {},
    }
    match a.scan_number {
        Some(x) => lemma_count_reads_back(x as nat),
        None => {},
    }
    match a.ms_level {
        Some(x) => lemma_count_reads_back(x as nat),
        None => {},
    }
    assert(ps[0].value == front_values(a, n)[0]);
    assert(ps[1].value == front_values(a, n)[1]);
    assert(ps[2].value == front_values(a, n)[2]);
    assert(ps[3].value == front_values(a, n)[3]);
    assert(ps[4].value == front_values(a, n)[4]);
    assert(ps[5].value == front_values(a, n)[5]);
    assert(ps[6].value == front_values(a, n)[6]);
    assert(ps[7].value == front_values(a, n)[7]);
    assert(ps[8].value == front_values(a, n)[8]);
    assert(ps[9].value == front_values(a, n)[9]);
}

/// Six records whose values are those of a free-form entry carry the
/// entry.
pub proof fn lemma_user_at(ps: Seq<CvParamModel>, at: int, u: UserParamModel)
    requires
        0 <= at,
        at + 6 <= ps.len(),
        forall|j: int| 0 <= j < 6 ==> (#[trigger] ps[at + j]).value == user_values(u)[j],
    ensures
        user_at(ps, at) == u,
{
    assert(ps[at + 0].value == user_values(u)[0]);
    assert(ps[at + 1].value == user_values(u)[1]);
    assert(ps[at + 2].value == user_values(u)[2]);
    assert(ps[at + 3].value == user_values(u)[3]);
    assert(ps[at + 4].value == user_values(u)[4]);
    assert(ps[at + 5].value == user_values(u)[5]);
}

/// The parameters of an item as they come back from a block: the
/// records in front, then the terms.
pub open spec fn written_back(
    a: ItemAttrsModel,
    ups: Seq<UserParamModel>,
    terms: Seq<CvParamModel>,
    table: Map<Seq<u8>, Seq<char>>,
) -> Seq<CvParamModel> {
    normal_params(front_params(a, ups) + terms, table)
}

/// Where the records stand among the parameters that come back.
proof fn lemma_written_places(
    a: ItemAttrsModel,
    ups: Seq<UserParamModel>,
    terms: Seq<CvParamModel>,
    table: Map<Seq<u8>, Seq<char>>,
)
    ensures
        written_back(a, ups, terms, table).len() == 10 + 6 * ups.len() + terms.len(),
        forall|j: int|
            0 <= j < 10 ==> #[trigger] written_back(a, ups, terms, table)[j] == normal(
                attr_records(a, ups.len())[j],
                table,
            ),
        forall|m: int|
            0 <= m < 6 * ups.len() ==> #[trigger] written_back(a, ups, terms, table)[10 + m]
                == normal(user_records(ups)[m], table),
        forall|m: int|
            0 <= m < terms.len() ==> #[trigger] written_back(a, ups, terms, table)[10 + 6
                * ups.len() + m] == normal(terms[m], table),
{
    lemma_user_records_len(ups);
    let all = front_params(a, ups) + terms;
    assert forall|j: int| 0 <= j < 10 implies #[trigger] all[j] == attr_records(a, ups.len())[j] by {}
    assert forall|m: int| 0 <= m < 6 * ups.len() implies #[trigger] all[10 + m] == user_records(
        ups,
    )[m] by {}
    assert forall|m: int| 0 <= m < terms.len() implies #[trigger] all[10 + 6 * ups.len() + m]
        == terms[m] by {}
}

/// The first ten parameters that come back are recognised as the
/// records of attributes, and they carry the attributes and the count.
proof fn lemma_written_attrs(
    a: ItemAttrsModel,
    ups: Seq<UserParamModel>,
    terms: Seq<CvParamModel>,
    table: Map<Seq<u8>, Seq<char>>,
)
    requires
        ups.len() <= usize::MAX,
    ensures
        is_front(written_back(a, ups, terms, table)),
        attrs_of(written_back(a, ups, terms, table)) == a,
        user_count(written_back(a, ups, terms, table)) == ups.len(),
{
    let ps = written_back(a, ups, terms, table);
    let n = ups.len();
    lemma_written_places(a, ups, terms, table);
    assert forall|j: int| 0 <= j < 10 implies model_tail(#[trigger] ps[j]) == front_tails()[j]
        && ps[j].cv_ref is None && ps[j].value == front_values(a, n)[j] by {
        lemma_attr_record(a, n, j, table);
    }
    lemma_attrs_of(ps, a, n);
}

/// The free-form entries that the parameters that come back carry are
/// those that went in.
proof fn lemma_written_users(
    a: ItemAttrsModel,
    ups: Seq<UserParamModel>,
    terms: Seq<CvParamModel>,
    table: Map<Seq<u8>, Seq<char>>,
    k: int,
)
    requires
        0 <= k < ups.len(),
    ensures
        user_at(written_back(a, ups, terms, table), 10 + 6 * k) == ups[k],
{
    let ps = written_back(a, ups, terms, table);
    lemma_written_places(a, ups, terms, table);
    assert forall|j: int| 0 <= j < 6 implies (#[trigger] ps[10 + 6 * k + j]).value == user_values(
        ups[k],
    )[j] by {
        lemma_user_record(ups, k, j, table);
        assert(ps[10 + (6 * k + j)] == normal(user_records(ups)[6 * k + j], table));
    }
    lemma_user_at(ps, 10 + 6 * k, ups[k]);
}

/// The records in front of the terms of an item, as they come back from
/// a block, are recognised, and they carry the attributes and the
/// free-form entries that they were made from; the terms come behind
/// them.
pub proof fn lemma_front_reads_back(
    a: ItemAttrsModel,
    ups: Seq<UserParamModel>,
    terms: Seq<CvParamModel>,
    table: Map<Seq<u8>, Seq<char>>,
)
    requires
        ups.len() <= usize::MAX,
    ensures
        ({
            let ps = normal_params(front_params(a, ups) + terms, table);
            &&& is_front(ps)
            &&& attrs_of(ps) == a
            &&& users_of(ps) == ups
            &&& behind_front(ps) == normal_params(terms, table)
        }),
{
    let ps = written_back(a, ups, terms, table);
    lemma_written_attrs(a, ups, terms, table);
    assert(users_of(ps) =~= ups) by {
        assert forall|k: int| 0 <= k < ups.len() implies #[trigger] users_of(ps)[k] == ups[k] by {
            lemma_written_users(a, ups, terms, table, k);
        }
    }
    assert(behind_front(ps) =~= normal_params(terms, table)) by {
        lemma_written_places(a, ups, terms, table);
    }
}

/// The attributes of an item.
pub struct ItemAttrs {
    pub id: String,
    pub index: Option<u32>,
    pub scan_number: Option<u32>,
    pub native_id: Option<String>,
    pub data_processing_ref: Option<String>,
    pub source_file_ref: Option<String>,
    pub spot_id: Option<String>,
    pub ms_level: Option<u32>,
    pub spectrum_ref: Option<String>,
}

impl DeepView for ItemAttrs {
    type V = ItemAttrsModel;

    open spec fn deep_view(&self) -> ItemAttrsModel {
        ItemAttrsModel {
            id: self.id.deep_view(),
            index: self.index,
            scan_number: self.scan_number,
            native_id: self.native_id.deep_view(),
            data_processing_ref: self.data_processing_ref.deep_view(),
            source_file_ref: self.source_file_ref.deep_view(),
            spot_id: self.spot_id.deep_view(),
            ms_level: self.ms_level,
            spectrum_ref: self.spectrum_ref.deep_view(),
        }
    }
}

/// Writes the decimal digits of a count.
pub fn decimal_digits(n: usize) -> (out: Vec<u8>)
    ensures
        out@ == decimal(n as nat),
    decreases n,
{
    if n < 10 {
        let mut out: Vec<u8> = Vec::new();
        out.push((48 + n) as u8);
        assert(out@ =~= decimal(n as nat));
        out
    } else {
        let mut out = decimal_digits(n / 10);
        out.push((48 + n % 10) as u8);
        out
    }
}

/// Makes the value that carries a count.
pub fn make_count_value(n: usize) -> (v: ParamValue)
    ensures
        v.deep_view() == count_value(n as nat),
{
    let d = decimal_digits(n);
    proof {
        lemma_decimal_ascii(n as nat);
    }
    ParamValue::Text(ascii_text(d))
}

/// Makes the value that carries an optional text.
pub fn make_opt_text_value(o: &Option<String>) -> (v: ParamValue)
    ensures
        v.deep_view() == opt_text_value(o.deep_view()),
{
    match o {
        Some(s) => ParamValue::Text(s.clone()),
        None => ParamValue::Empty,
    }
}

/// Makes the value that carries an optional 32-bit count.
pub fn make_opt_count_value(o: Option<u32>) -> (v: ParamValue)
    ensures
        v.deep_view() == opt_count_value(o),
{
    match o {
        Some(n) => make_count_value(n as usize),
        None => ParamValue::Empty,
    }
}

/// Appends the record that carries a value under the tail of an
/// attribute.
fn push_record(out: &mut Vec<CvParam>, tail: u32, value: ParamValue)
    ensures
        final(out).deep_view() == old(out).deep_view().push(attr_param(tail, value.deep_view())),
{
    let p = make_attr_param(tail, &value);
    let ghost before = *out;
    out.push(p);
    proof {
        lemma_deep_view_push(before, *out, p);
    }
}

/// Appends the six records that carry one free-form entry.
fn push_user(out: &mut Vec<CvParam>, u: &UserParam)
    ensures
        final(out).deep_view() == old(out).deep_view() + user_six(u.deep_view()),
{
    let ghost start = out.deep_view();
    push_record(out, ACC_ATTR_USER_FIELD, ParamValue::Text(u.name.clone()));
    push_record(out, ACC_ATTR_USER_FIELD, make_opt_text_value(&u.kind));
    push_record(out, ACC_ATTR_USER_FIELD, make_opt_text_value(&u.unit_accession));
    push_record(out, ACC_ATTR_USER_FIELD, make_opt_text_value(&u.unit_cv_ref));
    push_record(out, ACC_ATTR_USER_FIELD, make_opt_text_value(&u.unit_name));
    push_record(out, ACC_ATTR_USER_FIELD, clone_param_value(&u.value));
    assert(out.deep_view() =~= start + user_six(u.deep_view()));
}

/// Makes the records that stand in front of the terms of an item.
pub fn front_records(a: &ItemAttrs, user_params: &Vec<UserParam>) -> (out: Vec<CvParam>)
    ensures
        out.deep_view() == front_params(a.deep_view(), user_params.deep_view()),
{
    let ghost am = a.deep_view();
    let ghost ups = user_params.deep_view();
    let mut out: Vec<CvParam> = Vec::new();
    assert(out.deep_view() =~= Seq::<CvParamModel>::empty());
    push_record(&mut out, ACC_ATTR_ID, ParamValue::Text(a.id.clone()));
    push_record(&mut out, ACC_ATTR_INDEX, make_opt_count_value(a.index));
    push_record(&mut out, ACC_ATTR_SCAN_NUMBER, make_opt_count_value(a.scan_number));
    push_record(&mut out, ACC_ATTR_NATIVE_ID, make_opt_text_value(&a.native_id));
    push_record(&mut out, ACC_ATTR_DATA_PROCESSING_REF, make_opt_text_value(&a.data_processing_ref));
    push_record(&mut out, ACC_ATTR_SOURCE_FILE_REF, make_opt_text_value(&a.source_file_ref));
    push_record(&mut out, ACC_ATTR_SPOT_ID, make_opt_text_value(&a.spot_id));
    push_record(&mut out, ACC_ATTR_MS_LEVEL, make_opt_count_value(a.ms_level));
    push_record(&mut out, ACC_ATTR_SPECTRUM_REF, make_opt_text_value(&a.spectrum_ref));
    push_record(&mut out, ACC_ATTR_USER_COUNT, make_count_value(user_params.len()));
    assert(ups.len() == user_params@.len());
    assert(out.deep_view() =~= attr_records(am, ups.len()));
    let mut k: usize = 0;
    assert(ups.take(0) =~= Seq::<UserParamModel>::empty());
    assert(out.deep_view() =~= attr_records(am, ups.len()) + user_records(ups.take(0)));
    while k < user_params.len()
        invariant
            k <= user_params@.len(),
            ups == user_params.deep_view(),
            out.deep_view() == attr_records(am, ups.len()) + user_records(ups.take(k as int)),
        decreases user_params@.len() - k,
    {
        let ghost before = out.deep_view();
        push_user(&mut out, &user_params[k]);
        proof {
            assert(ups[k as int] == user_params@[k as int].deep_view());
            assert(ups.take(k + 1).drop_last() =~= ups.take(k as int));
            assert(ups.take(k + 1).last() == ups[k as int]);
            assert(out.deep_view() =~= attr_records(am, ups.len()) + user_records(
                ups.take(k + 1),
            ));
        }
        k = k + 1;
    }
    assert(ups.take(k as int) =~= ups);
    out
}

/// Reads the text that a value carries.
fn read_text(v: &ParamValue) -> (s: String)
    ensures
        s@ == text_in(v.deep_view()),
{
    match v {
        ParamValue::Text(t) => t.clone(),
        _ => String::new(),
    }
}

/// Reads the optional text that a value carries.
fn read_opt_text(v: &ParamValue) -> (s: Option<String>)
    ensures
        s.deep_view() == opt_text_in(v.deep_view()),
{
    match v {
        ParamValue::Text(t) => Some(t.clone()),
        _ => None,
    }
}

/// Reads the optional 32-bit count that a value carries.
fn read_opt_count(v: &ParamValue) -> (n: Option<u32>)
    ensures
        n == opt_count_in(v.deep_view()),
{
    match v {
        ParamValue::Text(t) => parse_u32(t.as_str().as_bytes()),
        _ => None,
    }
}

/// Reads the count that a value carries.
fn read_count(v: &ParamValue) -> (n: Option<usize>)
    ensures
        n == count_in(v.deep_view()),
{
    match v {
        ParamValue::Text(t) => parse_usize(t.as_str().as_bytes()),
        _ => None,
    }
}

/// Returns whether the first ten parameters are the records of
/// attributes.
fn has_marks(params: &Vec<CvParam>) -> (r: bool)
    ensures
        r == is_marked(params.deep_view()),
{
    if params.len() < 10 {
        return false;
    }
    let tails: [u32; 10] = [
        ACC_ATTR_ID,
        ACC_ATTR_INDEX,
        ACC_ATTR_SCAN_NUMBER,
        ACC_ATTR_NATIVE_ID,
        ACC_ATTR_DATA_PROCESSING_REF,
        ACC_ATTR_SOURCE_FILE_REF,
        ACC_ATTR_SPOT_ID,
        ACC_ATTR_MS_LEVEL,
        ACC_ATTR_SPECTRUM_REF,
        ACC_ATTR_USER_COUNT,
    ];
    assert(tails@ =~= front_tails());
    let ghost ps = params.deep_view();
    let mut j: usize = 0;
    while j < 10
        invariant
            j <= 10,
            params@.len() >= 10,
            tails@ == front_tails(),
            ps == params.deep_view(),
            forall|i: int|
                0 <= i < j ==> model_tail(#[trigger] ps[i]) == front_tails()[i] && ps[i].cv_ref
                    is None,
        decreases 10 - j,
    {
        let p = &params[j];
        assert(ps[j as int] == p.deep_view());
        if param_tail(p) != tails[j] || p.cv_ref.is_some() {
            return false;
        }
        j = j + 1;
    }
    true
}

/// Parts the parameters of an item into the attributes and free-form
/// entries that stand in front, where they do, and the terms behind
/// them.  Parameters without such a front are all terms.
pub fn split_front(params: Vec<CvParam>) -> (r: (Option<(ItemAttrs, Vec<UserParam>)>, Vec<CvParam>))
    ensures
        match r.0 {
            Some(f) => is_front(params.deep_view()) && f.0.deep_view() == attrs_of(
                params.deep_view(),
            ) && f.1.deep_view() == users_of(params.deep_view()) && r.1.deep_view()
                == behind_front(params.deep_view()),
            None => !is_front(params.deep_view()) && r.1.deep_view() == params.deep_view(),
        },
{
    let ghost ps = params.deep_view();
    if !has_marks(&params) {
        return (None, params);
    }
    let len = params.len();
    assert(ps[9] == params@[9].deep_view());
    let n = match read_count(&params[9].value) {
        Some(n) => n,
        None => {
            return (None, params);
        },
    };
    if n > (len - 10) / 6 {
        return (None, params);
    }
    assert(ps[0] == params@[0].deep_view());
    assert(ps[1] == params@[1].deep_view());
    assert(ps[2] == params@[2].deep_view());
    assert(ps[3] == params@[3].deep_view());
    assert(ps[4] == params@[4].deep_view());
    assert(ps[5] == params@[5].deep_view());
    assert(ps[6] == params@[6].deep_view());
    assert(ps[7] == params@[7].deep_view());
    assert(ps[8] == params@[8].deep_view());
    let attrs = ItemAttrs {
        id: read_text(&params[0].value),
        index: read_opt_count(&params[1].value),
        scan_number: read_opt_count(&params[2].value),
        native_id: read_opt_text(&params[3].value),
        data_processing_ref: read_opt_text(&params[4].value),
        source_file_ref: read_opt_text(&params[5].value),
        spot_id: read_opt_text(&params[6].value),
        ms_level: read_opt_count(&params[7].value),
        spectrum_ref: read_opt_text(&params[8].value),
    };
    assert(attrs.deep_view() =~~= attrs_of(ps));
    let mut users: Vec<UserParam> = Vec::new();
    let mut k: usize = 0;
    while k < n
        invariant
            k <= n,
            10 + 6 * n <= len,
            len == params@.len(),
            ps == params.deep_view(),
            users@.len() == k,
            forall|i: int| 0 <= i < k ==> (#[trigger] users@[i]).deep_view() == user_at(ps, 10 + 6 * i),
        decreases n - k,
    {
        let at = 10 + 6 * k;
        assert(ps[at as int] == params@[at as int].deep_view());
        assert(ps[at + 1] == params@[at + 1].deep_view());
        assert(ps[at + 2] == params@[at + 2].deep_view());
        assert(ps[at + 3] == params@[at + 3].deep_view());
        assert(ps[at + 4] == params@[at + 4].deep_view());
        assert(ps[at + 5] == params@[at + 5].deep_view());
        let u = UserParam {
            name: read_text(&params[at].value),
            kind: read_opt_text(&params[at + 1].value),
            unit_accession: read_opt_text(&params[at + 2].value),
            unit_cv_ref: read_opt_text(&params[at + 3].value),
            unit_name: read_opt_text(&params[at + 4].value),
            value: clone_param_value(&params[at + 5].value),
        };
        assert(u.deep_view() =~~= user_at(ps, at as int));
        users.push(u);
        k = k + 1;
    }
    assert(users.deep_view() =~= users_of(ps));
    let base = 10 + 6 * n;
    let mut rest: Vec<CvParam> = Vec::new();
    let mut i: usize = base;
    while i < len
        invariant
            base <= i <= len,
            len == params@.len(),
            ps == params.deep_view(),
            rest@.len() == i - base,
            forall|m: int| 0 <= m < i - base ==> (#[trigger] rest@[m]).deep_view() == ps[base + m],
        decreases len - i,
    {
        let p = clone_cv_param(&params[i]);
        assert(ps[i as int] == params@[i as int].deep_view());
        rest.push(p);
        i = i + 1;
    }
    assert(rest.deep_view() =~= behind_front(ps));
    (Some((attrs, users)), rest)
}

} // verus!
