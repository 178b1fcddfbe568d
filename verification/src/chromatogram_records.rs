//! Rebuilding chromatograms from metadata records.

use vstd::prelude::*;
use vstd::std_specs::hash::*;
use crate::array_list::{array_list_of, as_len, parse_binary_data_array_list};
use crate::binary_array::{xy_lengths, xy_lengths_from_bdal};
use crate::child_index::{ChildIndex, records_view};
use crate::cv_table::CvTable;
use crate::element_lists::{
    first_under, owned_params, params_owned_by, parse_isolation_window, parse_precursor,
    precursor_at, product_at,
};
use crate::metadatum::{
    ACC_ATTR_COUNT, ACC_ATTR_DATA_PROCESSING_REF, ACC_ATTR_DEFAULT_ARRAY_LENGTH,
    ACC_ATTR_DEFAULT_DATA_PROCESSING_REF, ACC_ATTR_ID, ACC_ATTR_INDEX, ACC_ATTR_NATIVE_ID,
    attr_text, attr_u32, get_attr_text, get_attr_u32, Metadatum, MetadatumModel, rows_view, TagId,
};
use crate::params::lemma_deep_view_push;
use crate::run::{
    Chromatogram, ChromatogramList, ChromatogramListModel, ChromatogramModel, Precursor,
    PrecursorModel, Product, ProductModel,
};
use crate::spectrum_records::{
    all_rows, filed, group_by_item, index_rows, item_order, item_pred, or_else, rows_with_tag,
    str_text, tag_pred,
};

verus! {

broadcast use group_hash_axioms;

/// The precursor under `parent`: none where no record of one names the
/// parent.
pub open spec fn precursor_under(
    ms: Seq<MetadatumModel>,
    parent: u32,
    table: Map<Seq<u8>, Seq<char>>,
) -> Option<PrecursorModel> {
    match first_under(ms, parent, TagId::Precursor) {
        None => None,
        Some(p) => Some(precursor_at(ms, p, table)),
    }
}

/// The product under `parent`: none where no record of one names the
/// parent.
pub open spec fn product_under(ms: Seq<MetadatumModel>, parent: u32, table: Map<Seq<u8>, Seq<char>>)
    -> Option<ProductModel> {
    match first_under(ms, parent, TagId::Product) {
        None => None,
        Some(p) => Some(product_at(ms, p, table)),
    }
}

/// The chromatogram that the records of one item describe.
///
/// The element is the owner of the first record of kind chromatogram.
/// The index falls back to `fallback` and the data processing to
/// `default_ref`.  The default length of the arrays is the one declared,
/// else the length of the X array, else that of the Y array, else zero.
/// The precursor and the product are those found under the element.
pub open spec fn chromatogram_of(
    ms: Seq<MetadatumModel>,
    fallback: u32,
    default_ref: Option<Seq<char>>,
    table: Map<Seq<u8>, Seq<char>>,
) -> ChromatogramModel {
    let rows = ms.filter(tag_pred(TagId::Chromatogram));
    let element = if rows.len() > 0 {
        rows[0].owner_id
    } else {
        0u32
    };
    let ps = owned_params(ms, element, table);
    let arrays = array_list_of(ms, table);
    let lens = xy_lengths(arrays);
    ChromatogramModel {
        id: match attr_text(rows, ACC_ATTR_ID) {
            Some(t) => t,
            None => Seq::empty(),
        },
        native_id: attr_text(rows, ACC_ATTR_NATIVE_ID),
        index: or_else(attr_u32(rows, ACC_ATTR_INDEX), Some(fallback)),
        default_array_length: or_else(
            as_len(attr_u32(rows, ACC_ATTR_DEFAULT_ARRAY_LENGTH)),
            or_else(lens.0, or_else(lens.1, Some(0usize))),
        ),
        data_processing_ref: or_else(attr_text(rows, ACC_ATTR_DATA_PROCESSING_REF), default_ref),
        cv_params: ps.0,
        user_params: ps.1,
        precursor: precursor_under(ms, element, table),
        product: product_under(ms, element, table),
        binary_data_array_list: arrays,
        ..ChromatogramModel::empty()
    }
}

/// Rebuilds the precursor under `parent`.
pub fn parse_precursor_under(
    rows: &[&Metadatum],
    index: &ChildIndex,
    parent: u32,
    table: &CvTable,
) -> (r: Option<Precursor>)
    requires
        index.indexes(rows_view(rows@)),
    ensures
        r.deep_view() == precursor_under(rows_view(rows@), parent, table@),
{
    match index.first_id(parent, TagId::Precursor) {
        None => None,
        Some(p) => Some(parse_precursor(rows, index, p, table)),
    }
}

/// Rebuilds the product under `parent`.
pub fn parse_product_under(
    rows: &[&Metadatum],
    index: &ChildIndex,
    parent: u32,
    table: &CvTable,
) -> (r: Option<Product>)
    requires
        index.indexes(rows_view(rows@)),
    ensures
        r.deep_view() == product_under(rows_view(rows@), parent, table@),
{
    match index.first_id(parent, TagId::Product) {
        None => None,
        Some(p) => Some(
            Product { isolation_window: parse_isolation_window(rows, index, p, table) },
        ),
    }
}

/// Rebuilds a chromatogram from the records of its item.
pub fn parse_chromatogram(
    metadata: &[Metadatum],
    fallback_index: u32,
    default_data_processing_ref: Option<&str>,
    table: &CvTable,
) -> (c: Chromatogram)
    ensures
        c.deep_view() == chromatogram_of(
            records_view(metadata@),
            fallback_index,
            str_text(default_data_processing_ref),
            table@,
        ),
{
    let own_rows = rows_with_tag(metadata, TagId::Chromatogram);
    let rows = own_rows.as_slice();
    let element: u32 = if rows.len() > 0 {
        rows[0].owner_id
    } else {
        0
    };
    assert(rows.len() > 0 ==> rows_view(rows@)[0] == rows@[0].deep_view());
    let id = match get_attr_text(rows, ACC_ATTR_ID) {
        Some(t) => t,
        None => String::new(),
    };
    let index = match get_attr_u32(rows, ACC_ATTR_INDEX) {
        Some(v) => Some(v),
        None => Some(fallback_index),
    };
    let native_id = get_attr_text(rows, ACC_ATTR_NATIVE_ID);
    let data_processing_ref = match get_attr_text(rows, ACC_ATTR_DATA_PROCESSING_REF) {
        Some(t) => Some(t),
        None => match default_data_processing_ref {
            Some(t) => Some(t.to_owned()),
            None => None,
        },
    };
    let every = all_rows(metadata);
    let children = ChildIndex::new(metadata);
    let (cv_params, user_params) = params_owned_by(every.as_slice(), element, table);
    let precursor = parse_precursor_under(every.as_slice(), &children, element, table);
    let product = parse_product_under(every.as_slice(), &children, element, table);
    let binary_data_array_list = parse_binary_data_array_list(metadata, table);
    let (x_len, y_len) = xy_lengths_from_bdal(binary_data_array_list.as_ref());
    let declared = match get_attr_u32(rows, ACC_ATTR_DEFAULT_ARRAY_LENGTH) {
        Some(v) => Some(v as usize),
        None => None,
    };
    let default_array_length = match declared {
        Some(v) => Some(v),
        None => match x_len {
            Some(v) => Some(v),
            None => match y_len {
                Some(v) => Some(v),
                None => Some(0),
            },
        },
    };
    let mut c = Chromatogram::empty();
    c.id = id;
    c.native_id = native_id;
    c.index = index;
    c.default_array_length = default_array_length;
    c.data_processing_ref = data_processing_ref;
    c.cv_params = cv_params;
    c.user_params = user_params;
    c.precursor = precursor;
    c.product = product;
    c.binary_data_array_list = binary_data_array_list;
    assert(c.deep_view() =~~= chromatogram_of(
        records_view(metadata@),
        fallback_index,
        str_text(default_data_processing_ref),
        table@,
    ));
    c
}

/// The chromatograms of the first `k` chosen items; an item whose place
/// a 32-bit index cannot number gives none.
pub open spec fn chromatograms_from(
    ms: Seq<MetadatumModel>,
    chosen: Seq<u32>,
    k: int,
    default_ref: Option<Seq<char>>,
    table: Map<Seq<u8>, Seq<char>>,
) -> Seq<ChromatogramModel>
    decreases k,
{
    if k <= 0 {
        Seq::empty()
    } else {
        let rest = chromatograms_from(ms, chosen, k - 1, default_ref, table);
        let records = ms.filter(item_pred(chosen[k - 1]));
        if records.len() == 0 || k - 1 > u32::MAX {
            rest
        } else {
            rest.push(chromatogram_of(records, (k - 1) as u32, default_ref, table))
        }
    }
}

/// The data processing that chromatograms have unless they say
/// otherwise: the default declared on the list, else the one declared on
/// the list.
pub open spec fn chromatogram_default_ref(ms: Seq<MetadatumModel>) -> Option<Seq<char>> {
    let list_rows = ms.filter(tag_pred(TagId::ChromatogramList));
    or_else(
        attr_text(list_rows, ACC_ATTR_DEFAULT_DATA_PROCESSING_REF),
        attr_text(list_rows, ACC_ATTR_DATA_PROCESSING_REF),
    )
}

/// The list of chromatograms that the records describe.
///
/// There is none unless a record of kind chromatogram occurs.  The
/// chromatograms are those of the items of such records, in the order in
/// which the items first occur.  The count is the one declared on the
/// list, else the number of chromatograms.
pub open spec fn chromatogram_list_of(ms: Seq<MetadatumModel>, table: Map<Seq<u8>, Seq<char>>)
    -> Option<ChromatogramListModel> {
    let list_rows = ms.filter(tag_pred(TagId::ChromatogramList));
    let chosen = item_order(ms.filter(tag_pred(TagId::Chromatogram)));
    let chromatograms = chromatograms_from(
        ms,
        chosen,
        chosen.len() as int,
        chromatogram_default_ref(ms),
        table,
    );
    if chromatograms.len() == 0 {
        None
    } else {
        Some(
            ChromatogramListModel {
                count: or_else(
                    as_len(attr_u32(list_rows, ACC_ATTR_COUNT)),
                    Some(chromatograms.len() as usize),
                ),
                default_data_processing_ref: chromatogram_default_ref(ms),
                chromatograms,
            },
        )
    }
}

/// Rebuilds the list of chromatograms from metadata records.
pub fn parse_chromatogram_list(metadata: &[Metadatum], table: &CvTable) -> (r: Option<
    ChromatogramList,
>)
    ensures
        r.deep_view() == chromatogram_list_of(records_view(metadata@), table@),
{
    let ghost ms = records_view(metadata@);
    let list_rows_vec = rows_with_tag(metadata, TagId::ChromatogramList);
    let list_rows = list_rows_vec.as_slice();
    let default_ref = match get_attr_text(list_rows, ACC_ATTR_DEFAULT_DATA_PROCESSING_REF) {
        Some(t) => Some(t),
        None => get_attr_text(list_rows, ACC_ATTR_DATA_PROCESSING_REF),
    };
    let count_attr: Option<usize> = match get_attr_u32(list_rows, ACC_ATTR_COUNT) {
        Some(v) => Some(v as usize),
        None => None,
    };
    let own_rows = rows_with_tag(metadata, TagId::Chromatogram);
    let (chosen, _) = index_rows(own_rows.as_slice());
    let by_item = group_by_item(metadata);
    let default_str: Option<&str> = match &default_ref {
        Some(t) => Some(t.as_str()),
        None => None,
    };
    let mut chromatograms: Vec<Chromatogram> = Vec::with_capacity(chosen.len());
    let mut k: usize = 0;
    assert(chromatograms.deep_view() =~= Seq::<ChromatogramModel>::empty());
    while k < chosen.len()
        invariant
            k <= chosen@.len(),
            ms == records_view(metadata@),
            chosen@.len() <= usize::MAX,
            str_text(default_str) == default_ref.deep_view(),
            forall|item: u32| #[trigger] filed(by_item@, item) == ms.filter(item_pred(item)),
            chromatograms.deep_view() == chromatograms_from(
                ms,
                chosen@,
                k as int,
                default_ref.deep_view(),
                table@,
            ),
        decreases chosen@.len() - k,
    {
        let item = chosen[k];
        assert(filed(by_item@, item) == ms.filter(item_pred(item)));
        match by_item.get(&item) {
            Some(records) => {
                if records.len() > 0 && k <= u32::MAX as usize {
                    let c = parse_chromatogram(records.as_slice(), k as u32, default_str, table);
                    let ghost before = chromatograms;
                    chromatograms.push(c);
                    proof {
                        lemma_deep_view_push(before, chromatograms, c);
                    }
                }
            },
            None => {},
        }
        k = k + 1;
    }
    if chromatograms.len() == 0 {
        return None;
    }
    let n = chromatograms.len();
    let r = Some(
        ChromatogramList {
            count: match count_attr {
                Some(c) => Some(c),
                None => Some(n),
            },
            default_data_processing_ref: default_ref,
            chromatograms,
        },
    );
    assert(r.deep_view() =~~= chromatogram_list_of(ms, table@));
    r
}

} // verus!
