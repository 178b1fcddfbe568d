//! Rebuilding the scan list, the precursor list and the product list of
//! a spectrum from its metadata records.
//!
//! An element is found through the index of children: the elements of a
//! kind under a parent are the owners of the records of that kind that
//! name the parent, each once, in the order of the records.  What an
//! element holds is read from the records that it owns.

use vstd::prelude::*;
use crate::array_list::as_len;
use crate::child_index::{ChildIndex, ids_in};
use crate::cv_table::CvTable;
use crate::metadatum::{
    ACC_ATTR_COUNT, ACC_ATTR_SPECTRUM_REF, attr_text, attr_u32, get_attr_text, get_attr_u32,
    Metadatum, MetadatumModel, rows_view, TagId,
};
use crate::params::{CvParam, CvParamModel, lemma_deep_view_push, UserParam, UserParamModel};
use crate::run::{
    Activation, ActivationModel, IsolationWindow, IsolationWindowModel, Precursor, PrecursorList,
    PrecursorListModel, PrecursorModel, Product, ProductList, ProductListModel, ProductModel, Scan,
    ScanList, ScanListModel, ScanModel, SelectedIon, SelectedIonList, SelectedIonListModel,
    SelectedIonModel,
};
use crate::spectrum_records::{
    or_else, owner_pred, params_of, parse_cv_and_user_params, rows_of_owner, strings_bytes,
};

verus! {

/// The values of `ids`, each once, in the order in which they first
/// occur.
pub open spec fn distinct(ids: Seq<u32>) -> Seq<u32>
    decreases ids.len(),
{
    if ids.len() == 0 {
        Seq::empty()
    } else {
        let rest = distinct(ids.drop_last());
        if rest.contains(ids.last()) {
            rest
        } else {
            rest.push(ids.last())
        }
    }
}

/// The elements of kind `tag` under `parent`, in the order of the
/// records.
pub open spec fn elements_under(ms: Seq<MetadatumModel>, parent: u32, tag: TagId) -> Seq<u32> {
    distinct(ids_in(ms, parent, tag))
}

/// The first element of kind `tag` under `parent`.
pub open spec fn first_under(ms: Seq<MetadatumModel>, parent: u32, tag: TagId) -> Option<u32> {
    let ids = ids_in(ms, parent, tag);
    if ids.len() > 0 {
        Some(ids[0])
    } else {
        None
    }
}

/// The terms and the free-form entries that element `owner` owns.
pub open spec fn owned_params(ms: Seq<MetadatumModel>, owner: u32, table: Map<Seq<u8>, Seq<char>>)
    -> (Seq<CvParamModel>, Seq<UserParamModel>) {
    params_of(ms.filter(owner_pred(owner)), Seq::empty(), table)
}

/// The count of a list: the one that a record of the list declares,
/// else the number `n` of elements found.
pub open spec fn declared_len(ms: Seq<MetadatumModel>, owner: u32, n: nat) -> Option<usize> {
    or_else(as_len(attr_u32(ms.filter(owner_pred(owner)), ACC_ATTR_COUNT)), Some(n as usize))
}

/// Returns the values of `ids`, each once, in the order in which they
/// first occur.
pub fn distinct_ids(ids: &[u32]) -> (out: Vec<u32>)
    ensures
        out@ == distinct(ids@),
{
    let mut out: Vec<u32> = Vec::new();
    let mut i: usize = 0;
    while i < ids.len()
        invariant
            i <= ids@.len(),
            out@ == distinct(ids@.take(i as int)),
        decreases ids@.len() - i,
    {
        let x = ids[i];
        let mut found = false;
        let mut j: usize = 0;
        while j < out.len()
            invariant
                j <= out@.len(),
                found <==> exists|k: int| 0 <= k < j && out@[k] == x,
            decreases out@.len() - j,
        {
            if out[j] == x {
                found = true;
            }
            j = j + 1;
        }
        proof {
            assert(ids@.take(i + 1).drop_last() =~= ids@.take(i as int));
            assert(ids@.take(i + 1).last() == x);
        }
        if !found {
            out.push(x);
        }
        i = i + 1;
    }
    proof {
        assert(ids@.take(i as int) =~= ids@);
    }
    out
}

/// Builds the terms and the free-form entries that element `owner` owns.
pub fn params_owned_by(rows: &[&Metadatum], owner: u32, table: &CvTable) -> (r: (
    Vec<CvParam>,
    Vec<UserParam>,
))
    ensures
        (r.0.deep_view(), r.1.deep_view()) == owned_params(rows_view(rows@), owner, table@),
{
    let own = rows_of_owner(rows, owner);
    let every: Vec<String> = Vec::new();
    proof {
        assert(strings_bytes(every@) =~= Seq::<Seq<u8>>::empty());
    }
    parse_cv_and_user_params(every.as_slice(), own.as_slice(), table)
}

/// Returns the count of the list `owner`, of which `n` elements were
/// found.
pub fn count_owned_by(rows: &[&Metadatum], owner: u32, n: usize) -> (r: Option<usize>)
    ensures
        r == declared_len(rows_view(rows@), owner, n as nat),
{
    let own = rows_of_owner(rows, owner);
    match get_attr_u32(own.as_slice(), ACC_ATTR_COUNT) {
        Some(v) => Some(v as usize),
        None => Some(n),
    }
}

/// The scan that element `id` describes.
pub open spec fn scan_at(ms: Seq<MetadatumModel>, id: u32, table: Map<Seq<u8>, Seq<char>>)
    -> ScanModel {
    let ps = owned_params(ms, id, table);
    ScanModel { cv_params: ps.0, user_params: ps.1 }
}

/// The scan list under the spectrum element `spectrum`: none where no
/// record of a scan list names the spectrum, else the list that the
/// first such record belongs to, with the scans under it.
pub open spec fn scan_list_under(
    ms: Seq<MetadatumModel>,
    spectrum: u32,
    table: Map<Seq<u8>, Seq<char>>,
) -> Option<ScanListModel> {
    match first_under(ms, spectrum, TagId::ScanList) {
        None => None,
        Some(l) => {
            let ids = elements_under(ms, l, TagId::Scan);
            let ps = owned_params(ms, l, table);
            Some(
                ScanListModel {
                    count: declared_len(ms, l, ids.len()),
                    cv_params: ps.0,
                    user_params: ps.1,
                    scans: Seq::new(ids.len(), |k: int| scan_at(ms, ids[k], table)),
                },
            )
        },
    }
}

/// Rebuilds the scan list under the spectrum element `spectrum`.
pub fn parse_scan_list(rows: &[&Metadatum], index: &ChildIndex, spectrum: u32, table: &CvTable)
    -> (r: Option<ScanList>)
    requires
        index.indexes(rows_view(rows@)),
    ensures
        r.deep_view() == scan_list_under(rows_view(rows@), spectrum, table@),
{
    let ghost ms = rows_view(rows@);
    match index.first_id(spectrum, TagId::ScanList) {
        None => None,
        Some(l) => {
            let ids = distinct_ids(index.ids(l, TagId::Scan));
            let mut scans: Vec<Scan> = Vec::new();
            let mut k: usize = 0;
            assert(scans.deep_view() =~= Seq::new(0, |j: int| scan_at(ms, ids@[j], table@)));
            while k < ids.len()
                invariant
                    k <= ids@.len(),
                    ms == rows_view(rows@),
                    scans.deep_view() == Seq::new(
                        k as nat,
                        |j: int| scan_at(ms, ids@[j], table@),
                    ),
                decreases ids@.len() - k,
            {
                let (cv_params, user_params) = params_owned_by(rows, ids[k], table);
                let scan = Scan { cv_params, user_params };
                let ghost before = scans;
                scans.push(scan);
                proof {
                    lemma_deep_view_push(before, scans, scan);
                    assert(scans.deep_view() =~= Seq::new(
                        (k + 1) as nat,
                        |j: int| scan_at(ms, ids@[j], table@),
                    ));
                }
                k = k + 1;
            }
            let (cv_params, user_params) = params_owned_by(rows, l, table);
            let out = ScanList {
                count: count_owned_by(rows, l, ids.len()),
                cv_params,
                user_params,
                scans,
            };
            assert(Some(out).deep_view() =~~= scan_list_under(ms, spectrum, table@));
            Some(out)
        },
    }
}

/// The isolation window under `parent`: none where no record of one
/// names the parent.
pub open spec fn window_under(ms: Seq<MetadatumModel>, parent: u32, table: Map<Seq<u8>, Seq<char>>)
    -> Option<IsolationWindowModel> {
    match first_under(ms, parent, TagId::IsolationWindow) {
        None => None,
        Some(w) => {
            let ps = owned_params(ms, w, table);
            Some(IsolationWindowModel { cv_params: ps.0, user_params: ps.1 })
        },
    }
}

/// The activation under `parent`: none where no record of one names the
/// parent.
pub open spec fn activation_under(
    ms: Seq<MetadatumModel>,
    parent: u32,
    table: Map<Seq<u8>, Seq<char>>,
) -> Option<ActivationModel> {
    match first_under(ms, parent, TagId::Activation) {
        None => None,
        Some(a) => {
            let ps = owned_params(ms, a, table);
            Some(ActivationModel { cv_params: ps.0, user_params: ps.1 })
        },
    }
}

/// The selected ion that element `id` describes.
pub open spec fn ion_at(ms: Seq<MetadatumModel>, id: u32, table: Map<Seq<u8>, Seq<char>>)
    -> SelectedIonModel {
    let ps = owned_params(ms, id, table);
    SelectedIonModel { cv_params: ps.0, user_params: ps.1 }
}

/// The list of selected ions under `parent`: none where no record of
/// such a list names the parent.
pub open spec fn ions_under(ms: Seq<MetadatumModel>, parent: u32, table: Map<Seq<u8>, Seq<char>>)
    -> Option<SelectedIonListModel> {
    match first_under(ms, parent, TagId::SelectedIonList) {
        None => None,
        Some(l) => {
            let ids = elements_under(ms, l, TagId::SelectedIon);
            Some(
                SelectedIonListModel {
                    count: declared_len(ms, l, ids.len()),
                    selected_ions: Seq::new(ids.len(), |k: int| ion_at(ms, ids[k], table)),
                },
            )
        },
    }
}

/// The precursor that element `id` describes.
pub open spec fn precursor_at(ms: Seq<MetadatumModel>, id: u32, table: Map<Seq<u8>, Seq<char>>)
    -> PrecursorModel {
    PrecursorModel {
        spectrum_ref: attr_text(ms.filter(owner_pred(id)), ACC_ATTR_SPECTRUM_REF),
        isolation_window: window_under(ms, id, table),
        selected_ion_list: ions_under(ms, id, table),
        activation: activation_under(ms, id, table),
    }
}

/// The precursor list under the spectrum element `spectrum`: none where
/// no record of a precursor list names the spectrum.
pub open spec fn precursor_list_under(
    ms: Seq<MetadatumModel>,
    spectrum: u32,
    table: Map<Seq<u8>, Seq<char>>,
) -> Option<PrecursorListModel> {
    match first_under(ms, spectrum, TagId::PrecursorList) {
        None => None,
        Some(l) => {
            let ids = elements_under(ms, l, TagId::Precursor);
            Some(
                PrecursorListModel {
                    count: declared_len(ms, l, ids.len()),
                    precursors: Seq::new(ids.len(), |k: int| precursor_at(ms, ids[k], table)),
                },
            )
        },
    }
}

/// The product that element `id` describes.
pub open spec fn product_at(ms: Seq<MetadatumModel>, id: u32, table: Map<Seq<u8>, Seq<char>>)
    -> ProductModel {
    ProductModel { isolation_window: window_under(ms, id, table) }
}

/// The product list under the spectrum element `spectrum`: none where no
/// record of a product list names the spectrum.
pub open spec fn product_list_under(
    ms: Seq<MetadatumModel>,
    spectrum: u32,
    table: Map<Seq<u8>, Seq<char>>,
) -> Option<ProductListModel> {
    match first_under(ms, spectrum, TagId::ProductList) {
        None => None,
        Some(l) => {
            let ids = elements_under(ms, l, TagId::Product);
            Some(
                ProductListModel {
                    count: declared_len(ms, l, ids.len()),
                    products: Seq::new(ids.len(), |k: int| product_at(ms, ids[k], table)),
                },
            )
        },
    }
}

/// Rebuilds the isolation window under `parent`.
pub fn parse_isolation_window(
    rows: &[&Metadatum],
    index: &ChildIndex,
    parent: u32,
    table: &CvTable,
) -> (r: Option<IsolationWindow>)
    requires
        index.indexes(rows_view(rows@)),
    ensures
        r.deep_view() == window_under(rows_view(rows@), parent, table@),
{
    match index.first_id(parent, TagId::IsolationWindow) {
        None => None,
        Some(w) => {
            let (cv_params, user_params) = params_owned_by(rows, w, table);
            Some(IsolationWindow { cv_params, user_params })
        },
    }
}

/// Rebuilds the activation under `parent`.
pub fn parse_activation(rows: &[&Metadatum], index: &ChildIndex, parent: u32, table: &CvTable)
    -> (r: Option<Activation>)
    requires
        index.indexes(rows_view(rows@)),
    ensures
        r.deep_view() == activation_under(rows_view(rows@), parent, table@),
{
    match index.first_id(parent, TagId::Activation) {
        None => None,
        Some(a) => {
            let (cv_params, user_params) = params_owned_by(rows, a, table);
            Some(Activation { cv_params, user_params })
        },
    }
}

/// Rebuilds the list of selected ions under `parent`.
pub fn parse_selected_ion_list(
    rows: &[&Metadatum],
    index: &ChildIndex,
    parent: u32,
    table: &CvTable,
) -> (r: Option<SelectedIonList>)
    requires
        index.indexes(rows_view(rows@)),
    ensures
        r.deep_view() == ions_under(rows_view(rows@), parent, table@),
{
    let ghost ms = rows_view(rows@);
    match index.first_id(parent, TagId::SelectedIonList) {
        None => None,
        Some(l) => {
            let ids = distinct_ids(index.ids(l, TagId::SelectedIon));
            let mut selected_ions: Vec<SelectedIon> = Vec::new();
            let mut k: usize = 0;
            assert(selected_ions.deep_view() =~= Seq::new(
                0,
                |j: int| ion_at(ms, ids@[j], table@),
            ));
            while k < ids.len()
                invariant
                    k <= ids@.len(),
                    ms == rows_view(rows@),
                    selected_ions.deep_view() == Seq::new(
                        k as nat,
                        |j: int| ion_at(ms, ids@[j], table@),
                    ),
                decreases ids@.len() - k,
            {
                let (cv_params, user_params) = params_owned_by(rows, ids[k], table);
                let ion = SelectedIon { cv_params, user_params };
                let ghost before = selected_ions;
                selected_ions.push(ion);
                proof {
                    lemma_deep_view_push(before, selected_ions, ion);
                    assert(selected_ions.deep_view() =~= Seq::new(
                        (k + 1) as nat,
                        |j: int| ion_at(ms, ids@[j], table@),
                    ));
                }
                k = k + 1;
            }
            let out = SelectedIonList { count: count_owned_by(rows, l, ids.len()), selected_ions };
            assert(Some(out).deep_view() =~~= ions_under(ms, parent, table@));
            Some(out)
        },
    }
}

/// Rebuilds the precursor that element `id` describes.
pub fn parse_precursor(rows: &[&Metadatum], index: &ChildIndex, id: u32, table: &CvTable) -> (r:
    Precursor)
    requires
        index.indexes(rows_view(rows@)),
    ensures
        r.deep_view() == precursor_at(rows_view(rows@), id, table@),
{
    let own = rows_of_owner(rows, id);
    let r = Precursor {
        spectrum_ref: get_attr_text(own.as_slice(), ACC_ATTR_SPECTRUM_REF),
        isolation_window: parse_isolation_window(rows, index, id, table),
        selected_ion_list: parse_selected_ion_list(rows, index, id, table),
        activation: parse_activation(rows, index, id, table),
    };
    assert(r.deep_view() =~~= precursor_at(rows_view(rows@), id, table@));
    r
}

/// Rebuilds the precursor list under the spectrum element `spectrum`.
pub fn parse_precursor_list(
    rows: &[&Metadatum],
    index: &ChildIndex,
    spectrum: u32,
    table: &CvTable,
) -> (r: Option<PrecursorList>)
    requires
        index.indexes(rows_view(rows@)),
    ensures
        r.deep_view() == precursor_list_under(rows_view(rows@), spectrum, table@),
{
    let ghost ms = rows_view(rows@);
    match index.first_id(spectrum, TagId::PrecursorList) {
        None => None,
        Some(l) => {
            let ids = distinct_ids(index.ids(l, TagId::Precursor));
            let mut precursors: Vec<Precursor> = Vec::new();
            let mut k: usize = 0;
            assert(precursors.deep_view() =~= Seq::new(
                0,
                |j: int| precursor_at(ms, ids@[j], table@),
            ));
            while k < ids.len()
                invariant
                    k <= ids@.len(),
                    ms == rows_view(rows@),
                    index.indexes(ms),
                    precursors.deep_view() == Seq::new(
                        k as nat,
                        |j: int| precursor_at(ms, ids@[j], table@),
                    ),
                decreases ids@.len() - k,
            {
                let p = parse_precursor(rows, index, ids[k], table);
                let ghost before = precursors;
                precursors.push(p);
                proof {
                    lemma_deep_view_push(before, precursors, p);
                    assert(precursors.deep_view() =~= Seq::new(
                        (k + 1) as nat,
                        |j: int| precursor_at(ms, ids@[j], table@),
                    ));
                }
                k = k + 1;
            }
            let out = PrecursorList { count: count_owned_by(rows, l, ids.len()), precursors };
            assert(Some(out).deep_view() =~~= precursor_list_under(ms, spectrum, table@));
            Some(out)
        },
    }
}

/// Rebuilds the product list under the spectrum element `spectrum`.
pub fn parse_product_list(
    rows: &[&Metadatum],
    index: &ChildIndex,
    spectrum: u32,
    table: &CvTable,
) -> (r: Option<ProductList>)
    requires
        index.indexes(rows_view(rows@)),
    ensures
        r.deep_view() == product_list_under(rows_view(rows@), spectrum, table@),
{
    let ghost ms = rows_view(rows@);
    match index.first_id(spectrum, TagId::ProductList) {
        None => None,
        Some(l) => {
            let ids = distinct_ids(index.ids(l, TagId::Product));
            let mut products: Vec<Product> = Vec::new();
            let mut k: usize = 0;
            assert(products.deep_view() =~= Seq::new(
                0,
                |j: int| product_at(ms, ids@[j], table@),
            ));
            while k < ids.len()
                invariant
                    k <= ids@.len(),
                    ms == rows_view(rows@),
                    index.indexes(ms),
                    products.deep_view() == Seq::new(
                        k as nat,
                        |j: int| product_at(ms, ids@[j], table@),
                    ),
                decreases ids@.len() - k,
            {
                let p = Product {
                    isolation_window: parse_isolation_window(rows, index, ids[k], table),
                };
                let ghost before = products;
                products.push(p);
                proof {
                    lemma_deep_view_push(before, products, p);
                    assert(products.deep_view() =~= Seq::new(
                        (k + 1) as nat,
                        |j: int| product_at(ms, ids@[j], table@),
                    ));
                }
                k = k + 1;
            }
            let out = ProductList { count: count_owned_by(rows, l, ids.len()), products };
            assert(Some(out).deep_view() =~~= product_list_under(ms, spectrum, table@));
            Some(out)
        },
    }
}

} // verus!
