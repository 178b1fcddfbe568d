//! Rules over the parameters of a spectrum: which terms describe its
//! arrays, and which describe its precursor.

use vstd::prelude::*;
use vstd::utf8::encode_utf8;
use crate::accession::{acc_tail, parse_acc_tail};
use crate::params::{CvParam, CvParamModel, lemma_deep_view_push};
use crate::run::{
    Activation, ActivationModel, IsolationWindow, IsolationWindowModel, Precursor, PrecursorList,
    PrecursorListModel, PrecursorModel, SelectedIon, SelectedIonList, SelectedIonListModel,
    SelectedIonModel,
};

verus! {

/// Tail of the term "m/z array".
pub const ACC_MZ_ARRAY: u32 = 1_000_514;

/// Tail of the term "intensity array".
pub const ACC_INTENSITY_ARRAY: u32 = 1_000_515;

/// Tail of the term "time array".
pub const ACC_TIME_ARRAY: u32 = 1_000_595;

/// Tail of the term "32-bit float".
pub const ACC_32BIT_FLOAT: u32 = 1_000_521;

/// Tail of the term "64-bit float".
pub const ACC_64BIT_FLOAT: u32 = 1_000_523;

/// Tail of the term "zlib compression".
pub const ACC_ZLIB_COMPRESSION: u32 = 1_000_574;

/// Tail of the term "no compression".
pub const ACC_NO_COMPRESSION: u32 = 1_000_576;

/// Tail of the term "isolation window target m/z".
pub const ACC_ISO_TARGET_MZ: u32 = 1_000_827;

/// Tail of the term "isolation window lower offset".
pub const ACC_ISO_LOWER_OFFSET: u32 = 1_000_828;

/// Tail of the term "isolation window upper offset".
pub const ACC_ISO_UPPER_OFFSET: u32 = 1_000_829;

/// Tail of the term "selected ion m/z".
pub const ACC_SELECTED_ION_MZ: u32 = 1_000_744;

/// Tail of the term "charge state".
pub const ACC_CHARGE_STATE: u32 = 1_000_041;

/// Tail of the term "in-source collision-induced dissociation".
pub const ACC_IN_SOURCE_CID: u32 = 1_001_880;

/// Tail of the term "collision energy".
pub const ACC_COLLISION_ENERGY: u32 = 1_000_045;

/// Whether the tail names a term of an isolation window.
pub open spec fn isolation_window_tail(t: u32) -> bool {
    t == ACC_ISO_TARGET_MZ || t == ACC_ISO_LOWER_OFFSET || t == ACC_ISO_UPPER_OFFSET
}

/// Whether the tail names a term of a selected ion.
pub open spec fn selected_ion_tail(t: u32) -> bool {
    t == ACC_SELECTED_ION_MZ || t == ACC_CHARGE_STATE
}

/// Whether the tail names a term of an activation.
pub open spec fn activation_tail(t: u32) -> bool {
    t == ACC_IN_SOURCE_CID || t == ACC_COLLISION_ENERGY
}

/// Whether the tail names a term that describes a numeric array: its
/// axis, its element format or its compression.
pub open spec fn array_tail(t: u32) -> bool {
    t == ACC_MZ_ARRAY || t == ACC_INTENSITY_ARRAY || t == ACC_TIME_ARRAY || t == ACC_32BIT_FLOAT
        || t == ACC_64BIT_FLOAT || t == ACC_ZLIB_COMPRESSION || t == ACC_NO_COMPRESSION
}

/// Returns whether the tail names a term of an isolation window.
pub fn is_isolation_window_tail(t: u32) -> (r: bool)
    ensures
        r == isolation_window_tail(t),
{
    t == ACC_ISO_TARGET_MZ || t == ACC_ISO_LOWER_OFFSET || t == ACC_ISO_UPPER_OFFSET
}

/// Returns whether the tail names a term of a selected ion.
pub fn is_selected_ion_tail(t: u32) -> (r: bool)
    ensures
        r == selected_ion_tail(t),
{
    t == ACC_SELECTED_ION_MZ || t == ACC_CHARGE_STATE
}

/// Returns whether the tail names a term of an activation.
pub fn is_activation_tail(t: u32) -> (r: bool)
    ensures
        r == activation_tail(t),
{
    t == ACC_IN_SOURCE_CID || t == ACC_COLLISION_ENERGY
}

/// The numeric tail of the accession of a parameter, read strictly.
pub open spec fn model_tail(p: CvParamModel) -> u32 {
    acc_tail(
        match p.accession {
            Some(c) => Some(encode_utf8(c)),
            None => None,
        },
    )
}

/// Returns the numeric tail of the accession of a parameter.
pub fn param_tail(p: &CvParam) -> (t: u32)
    ensures
        t == model_tail(p.deep_view()),
{
    match &p.accession {
        Some(s) => parse_acc_tail(Some(s.as_str())),
        None => parse_acc_tail(None),
    }
}

/// The parameters that describe an isolation window.
pub open spec fn iso_pred() -> spec_fn(CvParamModel) -> bool {
    |p: CvParamModel| isolation_window_tail(model_tail(p))
}

/// The parameters that describe a selected ion.
pub open spec fn sel_pred() -> spec_fn(CvParamModel) -> bool {
    |p: CvParamModel| selected_ion_tail(model_tail(p))
}

/// The parameters that describe an activation.
pub open spec fn act_pred() -> spec_fn(CvParamModel) -> bool {
    |p: CvParamModel| activation_tail(model_tail(p))
}

/// The parameters that describe nothing of a precursor.
pub open spec fn rest_pred() -> spec_fn(CvParamModel) -> bool {
    |p: CvParamModel|
        !isolation_window_tail(model_tail(p)) && !selected_ion_tail(model_tail(p))
            && !activation_tail(model_tail(p))
}

/// The parameters that do not describe a numeric array.
pub open spec fn keep_pred() -> spec_fn(CvParamModel) -> bool {
    |p: CvParamModel| !array_tail(model_tail(p))
}

/// Removes the parameters that describe a numeric array; the others keep
/// their order.
pub fn strip_binary_array_cv_params(params: &mut Vec<CvParam>)
    ensures
        final(params).deep_view() == old(params).deep_view().filter(keep_pred()),
{
    let mut taken: Vec<CvParam> = Vec::new();
    core::mem::swap(params, &mut taken);
    let ghost all = taken.deep_view();
    assert(all == old(params).deep_view());
    assert(params.deep_view() =~= Seq::<CvParamModel>::empty());
    proof {
        reveal(Seq::filter);
        assert(all.take(0) =~= Seq::<CvParamModel>::empty());
    }
    for p in it: taken
        invariant
            it.seq().len() == all.len(),
            forall|j: int| 0 <= j < all.len() ==> it.seq()[j].deep_view() == all[j],
            params.deep_view() == all.take(it.index() as int).filter(keep_pred()),
    {
        let ghost k = it.index() as int;
        proof {
            assert(all.take(k + 1) =~= all.take(k).push(all[k]));
            all.take(k).lemma_filter_push(all[k], keep_pred());
        }
        let t = param_tail(&p);
        let drop = t == ACC_MZ_ARRAY || t == ACC_INTENSITY_ARRAY || t == ACC_TIME_ARRAY || t
            == ACC_32BIT_FLOAT || t == ACC_64BIT_FLOAT || t == ACC_ZLIB_COMPRESSION || t
            == ACC_NO_COMPRESSION;
        if !drop {
            let ghost before = *params;
            params.push(p);
            proof {
                lemma_deep_view_push(before, *params, p);
            }
        }
    }
    assert(all.take(all.len() as int) =~= all);
}

/// The precursor list that the parameters of a spectrum describe.
///
/// There is none unless some parameter describes an isolation window, a
/// selected ion or an activation.  Otherwise there is one precursor, with
/// each of the three parts present where a parameter describes it.
pub open spec fn inferred_precursors(all: Seq<CvParamModel>) -> Option<PrecursorListModel> {
    let iso = all.filter(iso_pred());
    let sel = all.filter(sel_pred());
    let act = all.filter(act_pred());
    if iso.len() == 0 && sel.len() == 0 && act.len() == 0 {
        None
    } else {
        Some(
            PrecursorListModel {
                count: Some(1usize),
                precursors: seq![
                    PrecursorModel {
                        spectrum_ref: None,
                        isolation_window: if iso.len() == 0 {
                            None
                        } else {
                            Some(IsolationWindowModel { cv_params: iso, user_params: Seq::empty() })
                        },
                        selected_ion_list: if sel.len() == 0 {
                            None
                        } else {
                            Some(
                                SelectedIonListModel {
                                    count: Some(1usize),
                                    selected_ions: seq![
                                        SelectedIonModel {
                                            cv_params: sel,
                                            user_params: Seq::empty(),
                                        },
                                    ],
                                },
                            )
                        },
                        activation: if act.len() == 0 {
                            None
                        } else {
                            Some(ActivationModel { cv_params: act, user_params: Seq::empty() })
                        },
                    },
                ],
            },
        )
    }
}

/// Moves the parameters that describe a precursor out of `params` and
/// builds the precursor list from them; the others stay, in their order.
pub fn infer_precursor_list_from_spectrum_cv(params: &mut Vec<CvParam>) -> (r: Option<
    PrecursorList,
>)
    ensures
        final(params).deep_view() == old(params).deep_view().filter(rest_pred()),
        r.deep_view() == inferred_precursors(old(params).deep_view()),
{
    let mut taken: Vec<CvParam> = Vec::new();
    core::mem::swap(params, &mut taken);
    let ghost all = taken.deep_view();
    let mut iso: Vec<CvParam> = Vec::new();
    let mut sel: Vec<CvParam> = Vec::new();
    let mut act: Vec<CvParam> = Vec::new();
    proof {
        reveal(Seq::filter);
        assert(all.take(0) =~= Seq::<CvParamModel>::empty());
        assert(params.deep_view() =~= Seq::<CvParamModel>::empty());
        assert(iso.deep_view() =~= Seq::<CvParamModel>::empty());
        assert(sel.deep_view() =~= Seq::<CvParamModel>::empty());
        assert(act.deep_view() =~= Seq::<CvParamModel>::empty());
    }
    for p in it: taken
        invariant
            it.seq().len() == all.len(),
            forall|j: int| 0 <= j < all.len() ==> it.seq()[j].deep_view() == all[j],
            params.deep_view() == all.take(it.index() as int).filter(rest_pred()),
            iso.deep_view() == all.take(it.index() as int).filter(iso_pred()),
            sel.deep_view() == all.take(it.index() as int).filter(sel_pred()),
            act.deep_view() == all.take(it.index() as int).filter(act_pred()),
    {
        let ghost k = it.index() as int;
        proof {
            assert(all.take(k + 1) =~= all.take(k).push(all[k]));
            all.take(k).lemma_filter_push(all[k], rest_pred());
            all.take(k).lemma_filter_push(all[k], iso_pred());
            all.take(k).lemma_filter_push(all[k], sel_pred());
            all.take(k).lemma_filter_push(all[k], act_pred());
        }
        let t = param_tail(&p);
        if is_isolation_window_tail(t) {
            let ghost before = iso;
            iso.push(p);
            proof {
                lemma_deep_view_push(before, iso, p);
            }
        } else if is_selected_ion_tail(t) {
            let ghost before = sel;
            sel.push(p);
            proof {
                lemma_deep_view_push(before, sel, p);
            }
        } else if is_activation_tail(t) {
            let ghost before = act;
            act.push(p);
            proof {
                lemma_deep_view_push(before, act, p);
            }
        } else {
            let ghost before = *params;
            params.push(p);
            proof {
                lemma_deep_view_push(before, *params, p);
            }
        }
    }
    assert(all.take(all.len() as int) =~= all);
    if iso.is_empty() && sel.is_empty() && act.is_empty() {
        return None;
    }
    let isolation_window = if iso.is_empty() {
        None
    } else {
        Some(IsolationWindow { cv_params: iso, user_params: Vec::new() })
    };
    let selected_ion_list = if sel.is_empty() {
        None
    } else {
        let mut ions: Vec<SelectedIon> = Vec::new();
        ions.push(SelectedIon { cv_params: sel, user_params: Vec::new() });
        Some(SelectedIonList { count: Some(1), selected_ions: ions })
    };
    let activation = if act.is_empty() {
        None
    } else {
        Some(Activation { cv_params: act, user_params: Vec::new() })
    };
    let mut precursors: Vec<Precursor> = Vec::new();
    precursors.push(
        Precursor { spectrum_ref: None, isolation_window, selected_ion_list, activation },
    );
    let r = Some(PrecursorList { count: Some(1), precursors });
    assert(r.deep_view() =~~= inferred_precursors(all));
    r
}

} // verus!
