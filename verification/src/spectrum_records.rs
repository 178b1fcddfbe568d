//! Rebuilding spectra from metadata records.

use std::collections::{HashMap, HashSet};
use vstd::prelude::*;
use vstd::std_specs::hash::*;
use vstd::string::StringSliceAdditionalSpecFns;
use vstd::utf8::encode_utf8;
use crate::accession::{
    COLON, is_attr_prefix, is_cv_prefix_bytes, is_cv_prefix_slice, prefix_attr, split_prefix,
};
use crate::array_list::{
    array_list_of, as_len, entry_of, make_entry, make_term, parse_binary_data_array_list, term_of,
};
use crate::binary_array::{xy_lengths, xy_lengths_from_bdal};
use crate::child_index::{ChildIndex, records_view};
use crate::cv_table::CvTable;
use crate::element_lists::{
    parse_precursor_list, parse_product_list, parse_scan_list, precursor_list_under,
    product_list_under, scan_list_under,
};
use crate::metadatum::{
    ACC_ATTR_COUNT, ACC_ATTR_DATA_PROCESSING_REF, ACC_ATTR_DEFAULT_ARRAY_LENGTH,
    ACC_ATTR_DEFAULT_DATA_PROCESSING_REF, ACC_ATTR_ID, ACC_ATTR_INDEX, ACC_ATTR_MS_LEVEL,
    ACC_ATTR_NATIVE_ID, ACC_ATTR_SCAN_NUMBER, ACC_ATTR_SOURCE_FILE_REF, ACC_ATTR_SPOT_ID,
    attr_text, attr_u32, clone_metadatum, get_attr_text, get_attr_u32, Metadatum, MetadatumModel,
    rows_view, TagId,
};
use crate::params::{CvParam, CvParamModel, lemma_deep_view_push, UserParam, UserParamModel};
use crate::run::{Spectrum, SpectrumList, SpectrumListModel, SpectrumModel};
use crate::schema::{child_node, child_of, find_in_schema, find_node_by_tag, SchemaTree};
use crate::text::{bytes_eq, first_index_of, lemma_first_index_of};

verus! {

broadcast use group_hash_axioms;

/// The records of kind `tag`.
pub open spec fn tag_pred(tag: TagId) -> spec_fn(MetadatumModel) -> bool {
    |m: MetadatumModel| m.tag_id == tag
}

/// The records that element `owner` owns.
pub open spec fn owner_pred(owner: u32) -> spec_fn(MetadatumModel) -> bool {
    |m: MetadatumModel| m.owner_id == owner
}

/// The records of item `item`.
pub open spec fn item_pred(item: u32) -> spec_fn(MetadatumModel) -> bool {
    |m: MetadatumModel| m.item_index == item
}

/// Adding a row adds its content at the end.
pub proof fn lemma_rows_view_push(before: Seq<&Metadatum>, m: &Metadatum)
    ensures
        rows_view(before.push(m)) == rows_view(before).push(m.deep_view()),
{
    assert(rows_view(before.push(m)) =~= rows_view(before).push(m.deep_view()));
}

/// Collects the records of kind `tag`.
pub fn rows_with_tag<'a>(metadata: &'a [Metadatum], tag: TagId) -> (rows: Vec<&'a Metadatum>)
    ensures
        rows_view(rows@) == records_view(metadata@).filter(tag_pred(tag)),
{
    let mut rows: Vec<&'a Metadatum> = Vec::new();
    let ghost all = records_view(metadata@);
    let mut i: usize = 0;
    proof {
        reveal(Seq::filter);
        assert(all.take(0) =~= Seq::<MetadatumModel>::empty());
        assert(rows_view(rows@) =~= Seq::<MetadatumModel>::empty());
    }
    while i < metadata.len()
        invariant
            i <= metadata@.len(),
            all == records_view(metadata@),
            rows_view(rows@) == all.take(i as int).filter(tag_pred(tag)),
        decreases metadata@.len() - i,
    {
        let m = &metadata[i];
        proof {
            assert(all.take(i + 1) =~= all.take(i as int).push(m.deep_view()));
            all.take(i as int).lemma_filter_push(m.deep_view(), tag_pred(tag));
        }
        if m.tag_id == tag {
            proof {
                lemma_rows_view_push(rows@, m);
            }
            rows.push(m);
        }
        i = i + 1;
    }
    assert(all.take(i as int) =~= all);
    rows
}

/// Collects the rows that element `owner` owns.
pub fn rows_of_owner<'a>(rows: &[&'a Metadatum], owner: u32) -> (out: Vec<&'a Metadatum>)
    ensures
        rows_view(out@) == rows_view(rows@).filter(owner_pred(owner)),
{
    let mut out: Vec<&'a Metadatum> = Vec::new();
    let ghost all = rows_view(rows@);
    let mut i: usize = 0;
    proof {
        reveal(Seq::filter);
        assert(all.take(0) =~= Seq::<MetadatumModel>::empty());
        assert(rows_view(out@) =~= Seq::<MetadatumModel>::empty());
    }
    while i < rows.len()
        invariant
            i <= rows@.len(),
            all == rows_view(rows@),
            rows_view(out@) == all.take(i as int).filter(owner_pred(owner)),
        decreases rows@.len() - i,
    {
        let m = rows[i];
        proof {
            assert(all.take(i + 1) =~= all.take(i as int).push(m.deep_view()));
            all.take(i as int).lemma_filter_push(m.deep_view(), owner_pred(owner));
        }
        if m.owner_id == owner {
            proof {
                lemma_rows_view_push(out@, m);
            }
            out.push(m);
        }
        i = i + 1;
    }
    assert(all.take(i as int) =~= all);
    out
}

/// The bytes of strings.
pub open spec fn strings_bytes(v: Seq<String>) -> Seq<Seq<u8>> {
    Seq::new(v.len(), |i: int| encode_utf8(v[i]@))
}

/// Whether a list of admitted accessions admits `acc`.  The empty list
/// admits every accession.
pub open spec fn admits(allowed: Seq<Seq<u8>>, acc: Seq<u8>) -> bool {
    allowed.len() == 0 || allowed.contains(acc)
}

/// Returns whether a list of admitted accessions admits `acc`.
pub fn is_admitted(allowed: &[String], acc: &str) -> (r: bool)
    ensures
        r == admits(strings_bytes(allowed@), acc.spec_bytes()),
{
    if allowed.len() == 0 {
        return true;
    }
    let ghost list = strings_bytes(allowed@);
    let mut i: usize = 0;
    while i < allowed.len()
        invariant
            i <= allowed@.len(),
            list == strings_bytes(allowed@),
            forall|j: int| 0 <= j < i ==> list[j] != acc.spec_bytes(),
        decreases allowed@.len() - i,
    {
        if bytes_eq(allowed[i].as_str().as_bytes(), acc.as_bytes()) {
            assert(list[i as int] == acc.spec_bytes());
            return true;
        }
        i = i + 1;
    }
    false
}

/// The terms and entries after one more row.
///
/// A row without an accession, with one that has no colon, or with an
/// attribute under `B000` adds nothing.  A row under the prefix of a
/// controlled vocabulary adds a term where its accession is admitted and
/// nothing where it is not.  Any other row adds a free-form entry.
pub open spec fn params_step(
    ps: (Seq<CvParamModel>, Seq<UserParamModel>),
    m: MetadatumModel,
    allowed: Seq<Seq<u8>>,
    table: Map<Seq<u8>, Seq<char>>,
) -> (Seq<CvParamModel>, Seq<UserParamModel>) {
    match m.accession {
        None => ps,
        Some(c) => {
            let b = encode_utf8(c);
            let i = first_index_of(b, COLON);
            if i < 0 || b.subrange(0, i) == prefix_attr() {
                ps
            } else if is_cv_prefix_bytes(b.subrange(0, i)) {
                if admits(allowed, b) {
                    (ps.0.push(term_of(c, b.subrange(0, i), m, table)), ps.1)
                } else {
                    ps
                }
            } else {
                (ps.0, ps.1.push(entry_of(c, m)))
            }
        },
    }
}

/// The terms and the free-form entries that rows stand for.
pub open spec fn params_of(
    rows: Seq<MetadatumModel>,
    allowed: Seq<Seq<u8>>,
    table: Map<Seq<u8>, Seq<char>>,
) -> (Seq<CvParamModel>, Seq<UserParamModel>)
    decreases rows.len(),
{
    if rows.len() == 0 {
        (Seq::empty(), Seq::empty())
    } else {
        params_step(params_of(rows.drop_last(), allowed, table), rows.last(), allowed, table)
    }
}

/// Builds the terms and the free-form entries that rows stand for.
pub fn parse_cv_and_user_params(allowed: &[String], rows: &[&Metadatum], table: &CvTable) -> (r: (
    Vec<CvParam>,
    Vec<UserParam>,
))
    ensures
        (r.0.deep_view(), r.1.deep_view()) == params_of(
            rows_view(rows@),
            strings_bytes(allowed@),
            table@,
        ),
{
    let mut cv: Vec<CvParam> = Vec::new();
    let mut user: Vec<UserParam> = Vec::new();
    let ghost all = rows_view(rows@);
    let ghost list = strings_bytes(allowed@);
    let mut i: usize = 0;
    proof {
        assert(all.take(0) =~= Seq::<MetadatumModel>::empty());
        assert(cv.deep_view() =~= Seq::<CvParamModel>::empty());
        assert(user.deep_view() =~= Seq::<UserParamModel>::empty());
    }
    while i < rows.len()
        invariant
            i <= rows@.len(),
            all == rows_view(rows@),
            list == strings_bytes(allowed@),
            (cv.deep_view(), user.deep_view()) == params_of(all.take(i as int), list, table@),
        decreases rows@.len() - i,
    {
        let m = rows[i];
        proof {
            assert(all.take(i + 1).drop_last() =~= all.take(i as int));
            assert(all.take(i + 1).last() == m.deep_view());
        }
        match &m.accession {
            None => {},
            Some(acc_string) => {
                let acc = acc_string.as_str();
                proof {
                    lemma_first_index_of(acc.spec_bytes(), COLON);
                }
                match split_prefix(acc) {
                    None => {},
                    Some((prefix, _)) => {
                        if is_attr_prefix(prefix.as_bytes()) {
                        } else if is_cv_prefix_slice(prefix.as_bytes()) {
                            if is_admitted(allowed, acc) {
                                let p = make_term(acc_string, prefix, m, table);
                                let ghost before = cv;
                                cv.push(p);
                                proof {
                                    lemma_deep_view_push(before, cv, p);
                                }
                            }
                        } else {
                            let p = make_entry(acc_string, m);
                            let ghost before = user;
                            user.push(p);
                            proof {
                                lemma_deep_view_push(before, user, p);
                            }
                        }
                    },
                }
            },
        }
        i = i + 1;
    }
    assert(all.take(i as int) =~= all);
    (cv, user)
}

/// The first of two optional values that is there.
pub open spec fn or_else<T>(a: Option<T>, b: Option<T>) -> Option<T> {
    match a {
        Some(_) => a,
        None => b,
    }
}

/// The spectrum that the records of one item describe.
///
/// Its attributes are read from the records of kind spectrum.  Its terms
/// and entries are those of the element that owns the first of these
/// records.  The index is the declared one, else `fallback`.  The data
/// processing is the declared one, else `default_ref`.  The default array
/// length is the declared one, else the length of the X array, else that
/// of the Y array, else zero.  The scan list, the precursor list and the
/// product list are those found under the element of the spectrum.
pub open spec fn spectrum_of(
    ms: Seq<MetadatumModel>,
    fallback: u32,
    allowed: Seq<Seq<u8>>,
    default_ref: Option<Seq<char>>,
    table: Map<Seq<u8>, Seq<char>>,
) -> SpectrumModel {
    let rows = ms.filter(tag_pred(TagId::Spectrum));
    let spectrum_id = if rows.len() > 0 {
        rows[0].owner_id
    } else {
        0u32
    };
    let ps = params_of(rows.filter(owner_pred(spectrum_id)), allowed, table);
    let arrays = array_list_of(ms, table);
    let lens = xy_lengths(arrays);
    SpectrumModel {
        id: match attr_text(rows, ACC_ATTR_ID) {
            Some(t) => t,
            None => Seq::empty(),
        },
        index: or_else(attr_u32(rows, ACC_ATTR_INDEX), Some(fallback)),
        scan_number: attr_u32(rows, ACC_ATTR_SCAN_NUMBER),
        default_array_length: or_else(
            as_len(attr_u32(rows, ACC_ATTR_DEFAULT_ARRAY_LENGTH)),
            or_else(lens.0, or_else(lens.1, Some(0usize))),
        ),
        native_id: attr_text(rows, ACC_ATTR_NATIVE_ID),
        data_processing_ref: or_else(attr_text(rows, ACC_ATTR_DATA_PROCESSING_REF), default_ref),
        source_file_ref: attr_text(rows, ACC_ATTR_SOURCE_FILE_REF),
        spot_id: attr_text(rows, ACC_ATTR_SPOT_ID),
        ms_level: attr_u32(rows, ACC_ATTR_MS_LEVEL),
        cv_params: ps.0,
        user_params: ps.1,
        scan_list: scan_list_under(ms, spectrum_id, table),
        precursor_list: precursor_list_under(ms, spectrum_id, table),
        product_list: product_list_under(ms, spectrum_id, table),
        binary_data_array_list: arrays,
        ..SpectrumModel::empty()
    }
}

/// The text of an optional string slice.
pub open spec fn str_text(s: Option<&str>) -> Option<Seq<char>> {
    match s {
        Some(t) => Some(t@),
        None => None,
    }
}

/// Rebuilds a spectrum from the records of its item, with the scan list,
/// the precursor list and the product list under its element.
pub fn parse_spectrum(
    metadata: &[Metadatum],
    fallback_index: u32,
    allowed_spectrum: &[String],
    default_data_processing_ref: Option<&str>,
    table: &CvTable,
) -> (s: Spectrum)
    ensures
        s.deep_view() == spectrum_of(
            records_view(metadata@),
            fallback_index,
            strings_bytes(allowed_spectrum@),
            str_text(default_data_processing_ref),
            table@,
        ),
{
    let spectrum_rows = rows_with_tag(metadata, TagId::Spectrum);
    let rows = spectrum_rows.as_slice();
    let spectrum_id: u32 = if rows.len() > 0 {
        rows[0].owner_id
    } else {
        0
    };
    assert(rows.len() > 0 ==> rows_view(rows@)[0] == rows@[0].deep_view());
    let id = match get_attr_text(rows, ACC_ATTR_ID) {
        Some(t) => t,
        None => String::new(),
    };
    let index = match get_attr_u32(rows, ACC_ATTR_INDEX) {
        Some(v) => Some(v),
        None => Some(fallback_index),
    };
    let scan_number = get_attr_u32(rows, ACC_ATTR_SCAN_NUMBER);
    let ms_level = get_attr_u32(rows, ACC_ATTR_MS_LEVEL);
    let native_id = get_attr_text(rows, ACC_ATTR_NATIVE_ID);
    let source_file_ref = get_attr_text(rows, ACC_ATTR_SOURCE_FILE_REF);
    let spot_id = get_attr_text(rows, ACC_ATTR_SPOT_ID);
    let data_processing_ref = match get_attr_text(rows, ACC_ATTR_DATA_PROCESSING_REF) {
        Some(t) => Some(t),
        None => match default_data_processing_ref {
            Some(t) => Some(t.to_owned()),
            None => None,
        },
    };
    let own = rows_of_owner(rows, spectrum_id);
    let (cv_params, user_params) = parse_cv_and_user_params(
        allowed_spectrum,
        own.as_slice(),
        table,
    );
    let binary_data_array_list = parse_binary_data_array_list(metadata, table);
    let (x_len, y_len) = xy_lengths_from_bdal(binary_data_array_list.as_ref());
    let declared = match get_attr_u32(rows, ACC_ATTR_DEFAULT_ARRAY_LENGTH) {
        Some(v) => Some(v as usize),
        None => None,
    };
    let default_array_length = match declared {
        Some(v) => Some(v),
        None => match x_len {
            Some(v) => Some(v),
            None => match y_len {
                Some(v) => Some(v),
                None => Some(0),
            },
        },
    };
    let every = all_rows(metadata);
    let children = ChildIndex::new(metadata);
    let scan_list = parse_scan_list(every.as_slice(), &children, spectrum_id, table);
    let precursor_list = parse_precursor_list(every.as_slice(), &children, spectrum_id, table);
    let product_list = parse_product_list(every.as_slice(), &children, spectrum_id, table);
    let mut s = Spectrum::empty();
    s.id = id;
    s.scan_list = scan_list;
    s.precursor_list = precursor_list;
    s.product_list = product_list;
    s.index = index;
    s.scan_number = scan_number;
    s.default_array_length = default_array_length;
    s.native_id = native_id;
    s.data_processing_ref = data_processing_ref;
    s.source_file_ref = source_file_ref;
    s.spot_id = spot_id;
    s.ms_level = ms_level;
    s.cv_params = cv_params;
    s.user_params = user_params;
    s.binary_data_array_list = binary_data_array_list;
    assert(s.deep_view() =~~= spectrum_of(
        records_view(metadata@),
        fallback_index,
        strings_bytes(allowed_spectrum@),
        str_text(default_data_processing_ref),
        table@,
    ));
    s
}

/// The distinct item indices of the rows, in the order in which they
/// first occur.
pub open spec fn item_order(rows: Seq<MetadatumModel>) -> Seq<u32>
    decreases rows.len(),
{
    if rows.len() == 0 {
        Seq::empty()
    } else {
        let rest = item_order(rows.drop_last());
        let item = rows.last().item_index;
        if rest.contains(item) {
            rest
        } else {
            rest.push(item)
        }
    }
}

/// The item of each element that owns a row; of two rows of one element
/// the later one counts.
pub open spec fn owner_items(rows: Seq<MetadatumModel>) -> Map<u32, u32>
    decreases rows.len(),
{
    if rows.len() == 0 {
        Map::empty()
    } else {
        owner_items(rows.drop_last()).insert(rows.last().owner_id, rows.last().item_index)
    }
}

/// The distinct items of the elements `ids`, in the order of the
/// elements; elements without an item are passed over.
pub open spec fn items_of_ids(ids: Seq<u32>, items: Map<u32, u32>) -> Seq<u32>
    decreases ids.len(),
{
    if ids.len() == 0 {
        Seq::empty()
    } else {
        let rest = items_of_ids(ids.drop_last(), items);
        let id = ids.last();
        if items.contains_key(id) && !rest.contains(items[id]) {
            rest.push(items[id])
        } else {
            rest
        }
    }
}

/// The items of the spectra, in the order in which the spectra appear.
///
/// Where the list has records and the index knows spectra under it, the
/// order is that of the index, as far as it leads to items.  In every
/// other case it is the order in which the items first occur.
pub open spec fn chosen_items(ms: Seq<MetadatumModel>, ids_under: spec_fn(u32) -> Seq<u32>) -> Seq<
    u32,
> {
    let list_rows = ms.filter(tag_pred(TagId::SpectrumList));
    let rows = ms.filter(tag_pred(TagId::Spectrum));
    if list_rows.len() == 0 {
        item_order(rows)
    } else {
        let by_index = items_of_ids(ids_under(list_rows[0].owner_id), owner_items(rows));
        if by_index.len() == 0 {
            item_order(rows)
        } else {
            by_index
        }
    }
}

/// The spectra of the first `k` chosen items; an item without records
/// gives none, and neither does one whose place a 32-bit index cannot
/// number.
pub open spec fn spectra_from(
    ms: Seq<MetadatumModel>,
    chosen: Seq<u32>,
    k: int,
    allowed: Seq<Seq<u8>>,
    default_ref: Option<Seq<char>>,
    table: Map<Seq<u8>, Seq<char>>,
) -> Seq<SpectrumModel>
    decreases k,
{
    if k <= 0 {
        Seq::empty()
    } else {
        let rest = spectra_from(ms, chosen, k - 1, allowed, default_ref, table);
        let records = ms.filter(item_pred(chosen[k - 1]));
        if records.len() == 0 || k - 1 > u32::MAX {
            rest
        } else {
            rest.push(spectrum_of(records, (k - 1) as u32, allowed, default_ref, table))
        }
    }
}

/// The data processing that spectra have unless they say otherwise: the
/// default declared on the list, else the one declared on the list, else
/// the first default among all records, else the first among all.
pub open spec fn default_ref_of(ms: Seq<MetadatumModel>) -> Option<Seq<char>> {
    let list_rows = ms.filter(tag_pred(TagId::SpectrumList));
    or_else(
        attr_text(list_rows, ACC_ATTR_DEFAULT_DATA_PROCESSING_REF),
        or_else(
            attr_text(list_rows, ACC_ATTR_DATA_PROCESSING_REF),
            or_else(
                attr_text(ms, ACC_ATTR_DEFAULT_DATA_PROCESSING_REF),
                attr_text(ms, ACC_ATTR_DATA_PROCESSING_REF),
            ),
        ),
    )
}

/// The terms that the schema admits on a spectrum.
pub open spec fn allowed_of(schema: SchemaTree) -> Seq<Seq<u8>> {
    match child_of(
        child_of(find_in_schema(schema, TagId::SpectrumList), TagId::Spectrum),
        TagId::CvParam,
    ) {
        Some(n) => strings_bytes(n.accessions@),
        None => Seq::empty(),
    }
}

/// The list of spectra that the records describe.
///
/// There is none unless a record of kind spectrum occurs and a spectrum
/// comes of it.  The count is the one declared on the list, else the
/// first declared among all records, else the number of spectra.
pub open spec fn spectrum_list_of(
    ms: Seq<MetadatumModel>,
    allowed: Seq<Seq<u8>>,
    ids_under: spec_fn(u32) -> Seq<u32>,
    table: Map<Seq<u8>, Seq<char>>,
) -> Option<SpectrumListModel> {
    let list_rows = ms.filter(tag_pred(TagId::SpectrumList));
    let chosen = chosen_items(ms, ids_under);
    let spectra = spectra_from(
        ms,
        chosen,
        chosen.len() as int,
        allowed,
        default_ref_of(ms),
        table,
    );
    if ms.filter(tag_pred(TagId::Spectrum)).len() == 0 || spectra.len() == 0 {
        None
    } else {
        Some(
            SpectrumListModel {
                count: or_else(
                    as_len(
                        or_else(attr_u32(list_rows, ACC_ATTR_COUNT), attr_u32(ms, ACC_ATTR_COUNT)),
                    ),
                    Some(spectra.len() as usize),
                ),
                default_data_processing_ref: default_ref_of(ms),
                spectra,
            },
        )
    }
}

/// Collects all records as rows.
pub fn all_rows<'a>(metadata: &'a [Metadatum]) -> (rows: Vec<&'a Metadatum>)
    ensures
        rows_view(rows@) == records_view(metadata@),
{
    let mut rows: Vec<&'a Metadatum> = Vec::with_capacity(metadata.len());
    let mut i: usize = 0;
    while i < metadata.len()
        invariant
            i <= metadata@.len(),
            rows@.len() == i,
            forall|j: int| 0 <= j < i ==> rows@[j].deep_view() == metadata@[j].deep_view(),
        decreases metadata@.len() - i,
    {
        rows.push(&metadata[i]);
        i = i + 1;
    }
    assert(rows_view(rows@) =~= records_view(metadata@));
    rows
}

/// Finds the data processing that spectra have unless they say
/// otherwise.
fn find_default_ref(list_rows: &[&Metadatum], all: &[&Metadatum]) -> (r: Option<String>)
    ensures
        r.deep_view() == or_else(
            attr_text(rows_view(list_rows@), ACC_ATTR_DEFAULT_DATA_PROCESSING_REF),
            or_else(
                attr_text(rows_view(list_rows@), ACC_ATTR_DATA_PROCESSING_REF),
                or_else(
                    attr_text(rows_view(all@), ACC_ATTR_DEFAULT_DATA_PROCESSING_REF),
                    attr_text(rows_view(all@), ACC_ATTR_DATA_PROCESSING_REF),
                ),
            ),
        ),
{
    let a = get_attr_text(list_rows, ACC_ATTR_DEFAULT_DATA_PROCESSING_REF);
    if a.is_some() {
        return a;
    }
    let b = get_attr_text(list_rows, ACC_ATTR_DATA_PROCESSING_REF);
    if b.is_some() {
        return b;
    }
    let c = get_attr_text(all, ACC_ATTR_DEFAULT_DATA_PROCESSING_REF);
    if c.is_some() {
        return c;
    }
    get_attr_text(all, ACC_ATTR_DATA_PROCESSING_REF)
}

/// Pushing a number that is not there keeps what was there and adds it.
proof fn lemma_contains_push(before: Seq<u32>, x: u32, y: u32)
    ensures
        before.push(x).contains(y) <==> before.contains(y) || x == y,
{
    let after = before.push(x);
    if before.contains(y) {
        let j = choose|j: int| 0 <= j < before.len() && before[j] == y;
        assert(after[j] == y);
    }
    if x == y {
        assert(after[after.len() - 1] == y);
    }
    if after.contains(y) && x != y {
        let j = choose|j: int| 0 <= j < after.len() && after[j] == y;
        assert(before[j] == y);
    }
}

/// Collects the distinct item indices of the rows and the item of each
/// element that owns a row.
pub fn index_rows(rows: &[&Metadatum]) -> (r: (Vec<u32>, HashMap<u32, u32>))
    ensures
        r.0@ == item_order(rows_view(rows@)),
        r.1@ == owner_items(rows_view(rows@)),
{
    let mut order: Vec<u32> = Vec::new();
    let mut seen: HashSet<u32> = HashSet::new();
    let mut items: HashMap<u32, u32> = HashMap::new();
    let ghost all = rows_view(rows@);
    let mut i: usize = 0;
    proof {
        assert(all.take(0) =~= Seq::<MetadatumModel>::empty());
    }
    while i < rows.len()
        invariant
            i <= rows@.len(),
            all == rows_view(rows@),
            order@ == item_order(all.take(i as int)),
            items@ == owner_items(all.take(i as int)),
            forall|x: u32| seen@.contains(x) <==> order@.contains(x),
        decreases rows@.len() - i,
    {
        let m = rows[i];
        proof {
            assert(all.take(i + 1).drop_last() =~= all.take(i as int));
            assert(all.take(i + 1).last() == m.deep_view());
        }
        items.insert(m.owner_id, m.item_index);
        if seen.insert(m.item_index) {
            let ghost before = order@;
            order.push(m.item_index);
            proof {
                assert forall|x: u32| seen@.contains(x) <==> order@.contains(x) by {
                    lemma_contains_push(before, m.item_index, x);
                }
            }
        }
        i = i + 1;
    }
    assert(all.take(i as int) =~= all);
    (order, items)
}

/// Collects the distinct items of the elements `ids`.
fn items_in_index_order(ids: &[u32], items: &HashMap<u32, u32>) -> (out: Vec<u32>)
    ensures
        out@ == items_of_ids(ids@, items@),
{
    let mut out: Vec<u32> = Vec::with_capacity(ids.len());
    let mut seen: HashSet<u32> = HashSet::new();
    let mut i: usize = 0;
    proof {
        assert(ids@.take(0) =~= Seq::<u32>::empty());
    }
    while i < ids.len()
        invariant
            i <= ids@.len(),
            out@ == items_of_ids(ids@.take(i as int), items@),
            forall|x: u32| seen@.contains(x) <==> out@.contains(x),
        decreases ids@.len() - i,
    {
        let id = ids[i];
        proof {
            assert(ids@.take(i + 1).drop_last() =~= ids@.take(i as int));
            assert(ids@.take(i + 1).last() == id);
        }
        match items.get(&id) {
            Some(item) => {
                if seen.insert(*item) {
                    let ghost before = out@;
                    out.push(*item);
                    proof {
                        assert forall|x: u32| seen@.contains(x) <==> out@.contains(x) by {
                            lemma_contains_push(before, *item, x);
                        }
                    }
                }
            },
            None => {},
        }
        i = i + 1;
    }
    assert(ids@.take(i as int) =~= ids@);
    out
}

/// The records filed under an item, or none.
pub open spec fn filed(m: Map<u32, Vec<Metadatum>>, item: u32) -> Seq<MetadatumModel> {
    if m.contains_key(item) {
        records_view(m[item]@)
    } else {
        Seq::empty()
    }
}

/// Files a copy of every record under its item.
pub fn group_by_item(metadata: &[Metadatum]) -> (r: HashMap<u32, Vec<Metadatum>>)
    ensures
        forall|item: u32|
            #[trigger] filed(r@, item) == records_view(metadata@).filter(item_pred(item)),
{
    let mut by_item: HashMap<u32, Vec<Metadatum>> = HashMap::new();
    let ghost all = records_view(metadata@);
    let mut i: usize = 0;
    proof {
        reveal(Seq::filter);
        assert(all.take(0) =~= Seq::<MetadatumModel>::empty());
    }
    while i < metadata.len()
        invariant
            i <= metadata@.len(),
            all == records_view(metadata@),
            forall|item: u32|
                #[trigger] filed(by_item@, item) == all.take(i as int).filter(item_pred(item)),
        decreases metadata@.len() - i,
    {
        let m = &metadata[i];
        let ghost before = by_item@;
        let mut list = match by_item.remove(&m.item_index) {
            Some(v) => v,
            None => Vec::new(),
        };
        assert(records_view(list@) =~= filed(before, m.item_index));
        let copy = clone_metadatum(m);
        let ghost was = list@;
        list.push(copy);
        assert(records_view(list@) =~= records_view(was).push(m.deep_view()));
        by_item.insert(m.item_index, list);
        proof {
            assert(all.take(i + 1) =~= all.take(i as int).push(m.deep_view()));
            assert forall|item: u32|
                #[trigger] filed(by_item@, item) == all.take(i + 1).filter(item_pred(item)) by {
                all.take(i as int).lemma_filter_push(m.deep_view(), item_pred(item));
                assert(filed(before, item) == all.take(i as int).filter(item_pred(item)));
            }
        }
        i = i + 1;
    }
    assert(all.take(i as int) =~= all);
    by_item
}

/// Borrows the terms that the schema admits on a spectrum.
fn allowed_terms<'a>(schema: &'a SchemaTree) -> (r: &'a [String])
    ensures
        strings_bytes(r@) == allowed_of(*schema),
{
    let list = find_node_by_tag(schema, TagId::SpectrumList);
    let spectrum = child_node(list, TagId::Spectrum);
    let params = child_node(spectrum, TagId::CvParam);
    match params {
        Some(n) => n.accessions.as_slice(),
        None => {
            let nothing: &'a [String] = &[];
            assert(strings_bytes(nothing@) =~= Seq::<Seq<u8>>::empty());
            nothing
        },
    }
}

/// Rebuilds the list of spectra from metadata records.
///
/// `child_index` says which spectra lie under the list and in which
/// order.  Display names are taken from `table`.
pub fn parse_spectrum_list(
    schema: &SchemaTree,
    metadata: &[Metadatum],
    child_index: &ChildIndex,
    table: &CvTable,
) -> (r: Option<SpectrumList>)
    ensures
        r.deep_view() == spectrum_list_of(
            records_view(metadata@),
            allowed_of(*schema),
            |parent: u32| child_index.spec_ids(parent, TagId::Spectrum),
            table@,
        ),
{
    let ghost ms = records_view(metadata@);
    let ghost ids_under = |parent: u32| child_index.spec_ids(parent, TagId::Spectrum);
    let allowed = allowed_terms(schema);
    let list_rows_vec = rows_with_tag(metadata, TagId::SpectrumList);
    let list_rows = list_rows_vec.as_slice();
    let all_vec = all_rows(metadata);
    let all = all_vec.as_slice();
    let default_ref = find_default_ref(list_rows, all);
    let count_attr: Option<usize> = match get_attr_u32(list_rows, ACC_ATTR_COUNT) {
        Some(v) => Some(v as usize),
        None => match get_attr_u32(all, ACC_ATTR_COUNT) {
            Some(v) => Some(v as usize),
            None => None,
        },
    };
    let spectrum_rows_vec = rows_with_tag(metadata, TagId::Spectrum);
    let spectrum_rows = spectrum_rows_vec.as_slice();
    if spectrum_rows.len() == 0 {
        return None;
    }
    let (in_order, owner_to_item) = index_rows(spectrum_rows);
    let chosen: Vec<u32> = if list_rows.len() == 0 {
        in_order
    } else {
        assert(rows_view(list_rows@)[0] == list_rows@[0].deep_view());
        let direct = child_index.ids(list_rows[0].owner_id, TagId::Spectrum);
        let out = items_in_index_order(direct, &owner_to_item);
        if out.len() == 0 {
            in_order
        } else {
            out
        }
    };
    assert(chosen@ == chosen_items(ms, ids_under));
    let by_item = group_by_item(metadata);
    let default_str: Option<&str> = match &default_ref {
        Some(t) => Some(t.as_str()),
        None => None,
    };
    let mut spectra: Vec<Spectrum> = Vec::with_capacity(chosen.len());
    let mut k: usize = 0;
    assert(spectra.deep_view() =~= Seq::<SpectrumModel>::empty());
    while k < chosen.len()
        invariant
            k <= chosen@.len(),
            ms == records_view(metadata@),
            chosen@.len() <= usize::MAX,
            str_text(default_str) == default_ref.deep_view(),
            forall|item: u32| #[trigger] filed(by_item@, item) == ms.filter(item_pred(item)),
            spectra.deep_view() == spectra_from(
                ms,
                chosen@,
                k as int,
                strings_bytes(allowed@),
                default_ref.deep_view(),
                table@,
            ),
        decreases chosen@.len() - k,
    {
        let item = chosen[k];
        assert(filed(by_item@, item) == ms.filter(item_pred(item)));
        match by_item.get(&item) {
            Some(records) => {
                if records.len() > 0 && k <= u32::MAX as usize {
                    let s = parse_spectrum(records.as_slice(), k as u32, allowed, default_str, table);
                    let ghost before = spectra;
                    spectra.push(s);
                    proof {
                        lemma_deep_view_push(before, spectra, s);
                    }
                }
            },
            None => {},
        }
        k = k + 1;
    }
    if spectra.len() == 0 {
        return None;
    }
    let n = spectra.len();
    let r = Some(
        SpectrumList {
            count: match count_attr {
                Some(c) => Some(c),
                None => Some(n),
            },
            default_data_processing_ref: default_ref,
            spectra,
        },
    );
    assert(r.deep_view() =~~= spectrum_list_of(ms, allowed_of(*schema), ids_under, table@));
    r
}

} // verus!
