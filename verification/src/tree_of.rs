//! How the elements of a document stand in a tree, and how they are read
//! back from it.

use vstd::prelude::*;
use crate::document::{
    Cv, CvList, CvListModel, CvModel, DataProcessing, DataProcessingList, DataProcessingListModel,
    DataProcessingModel, FileContent, FileContentModel, FileDescription, FileDescriptionModel,
    Instrument, InstrumentList, InstrumentListModel, InstrumentModel, MzML, MzMLModel,
    ProcessingMethod, ProcessingMethodModel, ReferenceableParamGroup, ReferenceableParamGroupList,
    ReferenceableParamGroupListModel, ReferenceableParamGroupModel, Sample, SampleList,
    SampleListModel, SampleModel, ScanSettings, ScanSettingsList, ScanSettingsListModel,
    ScanSettingsModel, Software, SoftwareList, SoftwareListModel, SoftwareModel, SoftwareParam,
    SoftwareParamModel, SourceFile, SourceFileList, SourceFileListModel, SourceFileModel,
};
use crate::params::{
    CvParam, CvParamModel, ReferenceableParamGroupRef, ReferenceableParamGroupRefModel, UserParam,
    UserParamModel,
};
use crate::run::{
    Activation, ActivationModel, BinaryDataArray, BinaryDataArrayList, BinaryDataArrayListModel,
    BinaryDataArrayModel, Chromatogram, ChromatogramList, ChromatogramListModel, ChromatogramModel,
    IsolationWindow, IsolationWindowModel, Precursor, PrecursorList, PrecursorListModel,
    PrecursorModel, Product, ProductList, ProductListModel, ProductModel, Run, RunModel, Scan,
    ScanList, ScanListModel, ScanModel, SelectedIon, SelectedIonList, SelectedIonListModel,
    SelectedIonModel, Spectrum, SpectrumDescription, SpectrumDescriptionModel, SpectrumList,
    SpectrumListModel, SpectrumModel,
};
use crate::tree::{children_of, lemma_list_model, model_of, models, Tree, TreeModel};
use crate::tree_fields::{
    lemma_fields_come_back, make_opt_bool_tree, make_opt_text_tree, make_opt_type_tree,
    make_opt_u32_tree, make_opt_usize_tree, make_text_tree, make_value_tree, opt_bool_tree,
    opt_text_tree, opt_type_tree, opt_u32_tree, opt_usize_tree, read_opt_bool_tree,
    read_opt_text_tree, read_opt_type_tree, read_opt_u32_tree, read_opt_usize_tree, read_text_tree,
    read_value_tree, text_tree, tree_opt_bool, tree_opt_text, tree_opt_type, tree_opt_u32,
    tree_opt_usize, tree_text, tree_value, value_tree,
};

verus! {

/// The tree of one cv param: the trees of its fields, in their order.
pub open spec fn cv_param_tree(m: CvParamModel) -> TreeModel {
    TreeModel::List(seq![
        opt_text_tree(m.cv_ref),
        opt_text_tree(m.accession),
        text_tree(m.name),
        value_tree(m.value),
        opt_text_tree(m.unit_cv_ref),
        opt_text_tree(m.unit_name),
        opt_text_tree(m.unit_accession),
    ])
}

/// One cv param without the elements of its arrays.
pub open spec fn bare_cv_param(m: CvParamModel) -> CvParamModel {
    CvParamModel {
        cv_ref: m.cv_ref,
        accession: m.accession,
        name: m.name,
        value: m.value,
        unit_cv_ref: m.unit_cv_ref,
        unit_name: m.unit_name,
        unit_accession: m.unit_accession,
    }
}

/// The cv param that a tree holds.
pub open spec fn tree_cv_param(t: TreeModel) -> Option<CvParamModel> {
    match t {
        TreeModel::List(xs) => if xs.len() == 7
            && tree_opt_text(xs[0]) is Some
            && tree_opt_text(xs[1]) is Some
            && tree_text(xs[2]) is Some
            && tree_value(xs[3]) is Some
            && tree_opt_text(xs[4]) is Some
            && tree_opt_text(xs[5]) is Some
            && tree_opt_text(xs[6]) is Some {
            Some(CvParamModel {
                cv_ref: tree_opt_text(xs[0]).unwrap(),
                accession: tree_opt_text(xs[1]).unwrap(),
                name: tree_text(xs[2]).unwrap(),
                value: tree_value(xs[3]).unwrap(),
                unit_cv_ref: tree_opt_text(xs[4]).unwrap(),
                unit_name: tree_opt_text(xs[5]).unwrap(),
                unit_accession: tree_opt_text(xs[6]).unwrap(),
            })
        } else {
            None
        },
        TreeModel::Leaf(_) => None,
    }
}

/// One cv param comes back from its tree as it went in, but for the
/// elements of its arrays.
pub proof fn lemma_cv_param_comes_back(m: CvParamModel)
    ensures
        tree_cv_param(cv_param_tree(m)) == Some(bare_cv_param(m)),
{
    lemma_fields_come_back();
    let xs = children_of(cv_param_tree(m));
    assert(xs[0] == opt_text_tree(m.cv_ref));
    assert(xs[1] == opt_text_tree(m.accession));
    assert(xs[2] == text_tree(m.name));
    assert(xs[3] == value_tree(m.value));
    assert(xs[4] == opt_text_tree(m.unit_cv_ref));
    assert(xs[5] == opt_text_tree(m.unit_name));
    assert(xs[6] == opt_text_tree(m.unit_accession));
    assert(tree_cv_param(cv_param_tree(m)).unwrap() =~~= bare_cv_param(m));
}

/// Makes the tree of one cv param.
pub fn make_cv_param_tree(x: &CvParam) -> (t: Tree)
    ensures
        model_of(t) == cv_param_tree(x.deep_view()),
{
    let mut items: Vec<Tree> = Vec::new();
    items.push(make_opt_text_tree(&x.cv_ref));
    items.push(make_opt_text_tree(&x.accession));
    items.push(make_text_tree(&x.name));
    items.push(make_value_tree(&x.value));
    items.push(make_opt_text_tree(&x.unit_cv_ref));
    items.push(make_opt_text_tree(&x.unit_name));
    items.push(make_opt_text_tree(&x.unit_accession));
    proof {
        lemma_list_model(items);
        assert(models(items@)[0] == model_of(items@[0]));
        assert(models(items@)[1] == model_of(items@[1]));
        assert(models(items@)[2] == model_of(items@[2]));
        assert(models(items@)[3] == model_of(items@[3]));
        assert(models(items@)[4] == model_of(items@[4]));
        assert(models(items@)[5] == model_of(items@[5]));
        assert(models(items@)[6] == model_of(items@[6]));
        assert(models(items@) =~= children_of(cv_param_tree(x.deep_view())));
    }
    Tree::List(items)
}

/// Reads the cv param that a tree holds.
pub fn read_cv_param_tree(t: &Tree) -> (r: Option<CvParam>)
    ensures
        match r {
            Some(x) => tree_cv_param(model_of(*t)) == Some(x.deep_view()),
            None => tree_cv_param(model_of(*t)) is None,
        },
{
    match t {
        Tree::Leaf(_) => None,
        Tree::List(xs) => {
            proof {
                lemma_list_model(*xs);
            }
            if xs.len() != 7 {
                return None;
            }
            assert(models(xs@)[0] == model_of(xs@[0]));
            assert(models(xs@)[1] == model_of(xs@[1]));
            assert(models(xs@)[2] == model_of(xs@[2]));
            assert(models(xs@)[3] == model_of(xs@[3]));
            assert(models(xs@)[4] == model_of(xs@[4]));
            assert(models(xs@)[5] == model_of(xs@[5]));
            assert(models(xs@)[6] == model_of(xs@[6]));
            let got0 = match read_opt_text_tree(&xs[0]) {
                Some(v) => v,
                None => {
                    return None;
                },
            };
            let got1 = match read_opt_text_tree(&xs[1]) {
                Some(v) => v,
                None => {
                    return None;
                },
            };
            let got2 = match read_text_tree(&xs[2]) {
                Some(v) => v,
                None => {
                    return None;
                },
            };
            let got3 = match read_value_tree(&xs[3]) {
                Some(v) => v,
                None => {
                    return None;
                },
            };
            let got4 = match read_opt_text_tree(&xs[4]) {
                Some(v) => v,
                None => {
                    return None;
                },
            };
            let got5 = match read_opt_text_tree(&xs[5]) {
                Some(v) => v,
                None => {
                    return None;
                },
            };
            let got6 = match read_opt_text_tree(&xs[6]) {
                Some(v) => v,
                None => {
                    return None;
                },
            };
            let x = CvParam {
                cv_ref: got0,
                accession: got1,
                name: got2,
                value: got3,
                unit_cv_ref: got4,
                unit_name: got5,
                unit_accession: got6,
            };
            assert(x.deep_view() =~~= tree_cv_param(model_of(*t)).unwrap());
            Some(x)
        },
    }
}

/// One cv param holds no arrays, so nothing is taken out of it.
pub proof fn lemma_bare_cv_param(m: CvParamModel)
    ensures
        bare_cv_param(m) == m,
{
    assert(bare_cv_param(m) =~~= m);
}

/// A list of elements that are each one cv param holds no arrays, so nothing
/// is taken out of it.
pub proof fn lemma_bare_each_cv_param(ms: Seq<CvParamModel>)
    ensures
        bare_each_cv_param(ms) == ms,
{
    assert forall|k: int| 0 <= k < ms.len() implies #[trigger] bare_cv_param(ms[k]) == ms[k] by {
        lemma_bare_cv_param(ms[k]);
    }
    assert(bare_each_cv_param(ms) =~= ms);
}

/// The tree of a list: the tree of each cv param, in their order.
pub open spec fn each_cv_param_tree(ms: Seq<CvParamModel>) -> TreeModel {
    TreeModel::List(Seq::new(ms.len(), |k: int| cv_param_tree(ms[k])))
}

/// Each cv param of a list without the elements of its arrays.
pub open spec fn bare_each_cv_param(ms: Seq<CvParamModel>) -> Seq<CvParamModel> {
    Seq::new(ms.len(), |k: int| bare_cv_param(ms[k]))
}

/// The list that a tree holds: each of its trees as one cv param.
pub open spec fn tree_each_cv_param(t: TreeModel) -> Option<Seq<CvParamModel>> {
    match t {
        TreeModel::List(xs) => if forall|k: int|
            0 <= k < xs.len() ==> (#[trigger] tree_cv_param(xs[k])) is Some {
            Some(Seq::new(xs.len(), |k: int| tree_cv_param(xs[k]).unwrap()))
        } else {
            None
        },
        TreeModel::Leaf(_) => None,
    }
}

/// Each cv param of a list comes back from the tree of the list as it
/// went in, but for the elements of its arrays.
pub proof fn lemma_each_cv_param_comes_back(ms: Seq<CvParamModel>)
    ensures
        tree_each_cv_param(each_cv_param_tree(ms)) == Some(bare_each_cv_param(ms)),
{
    let xs = children_of(each_cv_param_tree(ms));
    assert forall|k: int| 0 <= k < xs.len() implies #[trigger] tree_cv_param(xs[k]) == Some(
        bare_cv_param(ms[k]),
    ) by {
        lemma_cv_param_comes_back(ms[k]);
    }
    assert(tree_each_cv_param(each_cv_param_tree(ms)).unwrap() =~= bare_each_cv_param(ms));
}

/// Makes the tree of a list, of each cv param.
pub fn make_each_cv_param_tree(v: &Vec<CvParam>) -> (t: Tree)
    ensures
        model_of(t) == each_cv_param_tree(v.deep_view()),
{
    let ghost ms = v.deep_view();
    let mut items: Vec<Tree> = Vec::new();
    let mut i: usize = 0;
    while i < v.len()
        invariant
            i <= v@.len(),
            ms == v.deep_view(),
            items@.len() == i,
            forall|k: int| 0 <= k < i ==> model_of(#[trigger] items@[k]) == cv_param_tree(ms[k]),
        decreases v@.len() - i,
    {
        assert(ms[i as int] == v@[i as int].deep_view());
        items.push(make_cv_param_tree(&v[i]));
        i = i + 1;
    }
    proof {
        lemma_list_model(items);
        assert(models(items@) =~= children_of(each_cv_param_tree(ms)));
    }
    Tree::List(items)
}

/// Reads the list that a tree holds, each of its trees as one cv param.
pub fn read_each_cv_param_tree(t: &Tree) -> (r: Option<Vec<CvParam>>)
    ensures
        match r {
            Some(v) => tree_each_cv_param(model_of(*t)) == Some(v.deep_view()),
            None => tree_each_cv_param(model_of(*t)) is None,
        },
{
    match t {
        Tree::Leaf(_) => None,
        Tree::List(xs) => {
            proof {
                lemma_list_model(*xs);
            }
            let ghost tm = models(xs@);
            let mut out: Vec<CvParam> = Vec::new();
            let mut i: usize = 0;
            while i < xs.len()
                invariant
                    i <= xs@.len(),
                    tm == models(xs@),
                    model_of(*t) == TreeModel::List(tm),
                    out@.len() == i,
                    forall|k: int|
                        0 <= k < i ==> #[trigger] tree_cv_param(tm[k]) == Some(out@[k].deep_view()),
                decreases xs@.len() - i,
            {
                assert(tm[i as int] == model_of(xs@[i as int]));
                match read_cv_param_tree(&xs[i]) {
                    Some(x) => {
                        out.push(x);
                    },
                    None => {
                        assert(tree_cv_param(tm[i as int]) is None);
                        return None;
                    },
                }
                i = i + 1;
            }
            assert(out.deep_view() =~= tree_each_cv_param(model_of(*t)).unwrap());
            Some(out)
        },
    }
}

/// The tree of one user param: the trees of its fields, in their order.
pub open spec fn user_param_tree(m: UserParamModel) -> TreeModel {
    TreeModel::List(seq![
        text_tree(m.name),
        opt_text_tree(m.kind),
        opt_text_tree(m.unit_accession),
        opt_text_tree(m.unit_cv_ref),
        opt_text_tree(m.unit_name),
        value_tree(m.value),
    ])
}

/// One user param without the elements of its arrays.
pub open spec fn bare_user_param(m: UserParamModel) -> UserParamModel {
    UserParamModel {
        name: m.name,
        kind: m.kind,
        unit_accession: m.unit_accession,
        unit_cv_ref: m.unit_cv_ref,
        unit_name: m.unit_name,
        value: m.value,
    }
}

/// The user param that a tree holds.
pub open spec fn tree_user_param(t: TreeModel) -> Option<UserParamModel> {
    match t {
        TreeModel::List(xs) => if xs.len() == 6
            && tree_text(xs[0]) is Some
            && tree_opt_text(xs[1]) is Some
            && tree_opt_text(xs[2]) is Some
            && tree_opt_text(xs[3]) is Some
            && tree_opt_text(xs[4]) is Some
            && tree_value(xs[5]) is Some {
            Some(UserParamModel {
                name: tree_text(xs[0]).unwrap(),
                kind: tree_opt_text(xs[1]).unwrap(),
                unit_accession: tree_opt_text(xs[2]).unwrap(),
                unit_cv_ref: tree_opt_text(xs[3]).unwrap(),
                unit_name: tree_opt_text(xs[4]).unwrap(),
                value: tree_value(xs[5]).unwrap(),
            })
        } else {
            None
        },
        TreeModel::Leaf(_) => None,
    }
}

/// One user param comes back from its tree as it went in, but for the
/// elements of its arrays.
pub proof fn lemma_user_param_comes_back(m: UserParamModel)
    ensures
        tree_user_param(user_param_tree(m)) == Some(bare_user_param(m)),
{
    lemma_fields_come_back();
    let xs = children_of(user_param_tree(m));
    assert(xs[0] == text_tree(m.name));
    assert(xs[1] == opt_text_tree(m.kind));
    assert(xs[2] == opt_text_tree(m.unit_accession));
    assert(xs[3] == opt_text_tree(m.unit_cv_ref));
    assert(xs[4] == opt_text_tree(m.unit_name));
    assert(xs[5] == value_tree(m.value));
    assert(tree_user_param(user_param_tree(m)).unwrap() =~~= bare_user_param(m));
}

/// Makes the tree of one user param.
pub fn make_user_param_tree(x: &UserParam) -> (t: Tree)
    ensures
        model_of(t) == user_param_tree(x.deep_view()),
{
    let mut items: Vec<Tree> = Vec::new();
    items.push(make_text_tree(&x.name));
    items.push(make_opt_text_tree(&x.kind));
    items.push(make_opt_text_tree(&x.unit_accession));
    items.push(make_opt_text_tree(&x.unit_cv_ref));
    items.push(make_opt_text_tree(&x.unit_name));
    items.push(make_value_tree(&x.value));
    proof {
        lemma_list_model(items);
        assert(models(items@)[0] == model_of(items@[0]));
        assert(models(items@)[1] == model_of(items@[1]));
        assert(models(items@)[2] == model_of(items@[2]));
        assert(models(items@)[3] == model_of(items@[3]));
        assert(models(items@)[4] == model_of(items@[4]));
        assert(models(items@)[5] == model_of(items@[5]));
        assert(models(items@) =~= children_of(user_param_tree(x.deep_view())));
    }
    Tree::List(items)
}

/// Reads the user param that a tree holds.
pub fn read_user_param_tree(t: &Tree) -> (r: Option<UserParam>)
    ensures
        match r {
            Some(x) => tree_user_param(model_of(*t)) == Some(x.deep_view()),
            None => tree_user_param(model_of(*t)) is None,
        },
{
    match t {
        Tree::Leaf(_) => None,
        Tree::List(xs) => {
            proof {
                lemma_list_model(*xs);
            }
            if xs.len() != 6 {
                return None;
            }
            assert(models(xs@)[0] == model_of(xs@[0]));
            assert(models(xs@)[1] == model_of(xs@[1]));
            assert(models(xs@)[2] == model_of(xs@[2]));
            assert(models(xs@)[3] == model_of(xs@[3]));
            assert(models(xs@)[4] == model_of(xs@[4]));
            assert(models(xs@)[5] == model_of(xs@[5]));
            let got0 = match read_text_tree(&xs[0]) {
                Some(v) => v,
                None => {
                    return None;
                },
            };
            let got1 = match read_opt_text_tree(&xs[1]) {
                Some(v) => v,
                None => {
                    return None;
                },
            };
            let got2 = match read_opt_text_tree(&xs[2]) {
                Some(v) => v,
                None => {
                    return None;
                },
            };
            let got3 = match read_opt_text_tree(&xs[3]) {
                Some(v) => v,
                None => {
                    return None;
                },
            };
            let got4 = match read_opt_text_tree(&xs[4]) {
                Some(v) => v,
                None => {
                    return None;
                },
            };
            let got5 = match read_value_tree(&xs[5]) {
                Some(v) => v,
                None => {
                    return None;
                },
            };
            let x = UserParam {
                name: got0,
                kind: got1,
                unit_accession: got2,
                unit_cv_ref: got3,
                unit_name: got4,
                value: got5,
            };
            assert(x.deep_view() =~~= tree_user_param(model_of(*t)).unwrap());
            Some(x)
        },
    }
}

/// One user param holds no arrays, so nothing is taken out of it.
pub proof fn lemma_bare_user_param(m: UserParamModel)
    ensures
        bare_user_param(m) == m,
{
    assert(bare_user_param(m) =~~= m);
}

/// A list of elements that are each one user param holds no arrays, so nothing
/// is taken out of it.
pub proof fn lemma_bare_each_user_param(ms: Seq<UserParamModel>)
    ensures
        bare_each_user_param(ms) == ms,
{
    assert forall|k: int| 0 <= k < ms.len() implies #[trigger] bare_user_param(ms[k]) == ms[k] by {
        lemma_bare_user_param(ms[k]);
    }
    assert(bare_each_user_param(ms) =~= ms);
}

/// The tree of a list: the tree of each user param, in their order.
pub open spec fn each_user_param_tree(ms: Seq<UserParamModel>) -> TreeModel {
    TreeModel::List(Seq::new(ms.len(), |k: int| user_param_tree(ms[k])))
}

/// Each user param of a list without the elements of its arrays.
pub open spec fn bare_each_user_param(ms: Seq<UserParamModel>) -> Seq<UserParamModel> {
    Seq::new(ms.len(), |k: int| bare_user_param(ms[k]))
}

/// The list that a tree holds: each of its trees as one user param.
pub open spec fn tree_each_user_param(t: TreeModel) -> Option<Seq<UserParamModel>> {
    match t {
        TreeModel::List(xs) => if forall|k: int|
            0 <= k < xs.len() ==> (#[trigger] tree_user_param(xs[k])) is Some {
            Some(Seq::new(xs.len(), |k: int| tree_user_param(xs[k]).unwrap()))
        } else {
            None
        },
        TreeModel::Leaf(_) => None,
    }
}

/// Each user param of a list comes back from the tree of the list as it
/// went in, but for the elements of its arrays.
pub proof fn lemma_each_user_param_comes_back(ms: Seq<UserParamModel>)
    ensures
        tree_each_user_param(each_user_param_tree(ms)) == Some(bare_each_user_param(ms)),
{
    let xs = children_of(each_user_param_tree(ms));
    assert forall|k: int| 0 <= k < xs.len() implies #[trigger] tree_user_param(xs[k]) == Some(
        bare_user_param(ms[k]),
    ) by {
        lemma_user_param_comes_back(ms[k]);
    }
    assert(tree_each_user_param(each_user_param_tree(ms)).unwrap() =~= bare_each_user_param(ms));
}

/// Makes the tree of a list, of each user param.
pub fn make_each_user_param_tree(v: &Vec<UserParam>) -> (t: Tree)
    ensures
        model_of(t) == each_user_param_tree(v.deep_view()),
{
    let ghost ms = v.deep_view();
    let mut items: Vec<Tree> = Vec::new();
    let mut i: usize = 0;
    while i < v.len()
        invariant
            i <= v@.len(),
            ms == v.deep_view(),
            items@.len() == i,
            forall|k: int| 0 <= k < i ==> model_of(#[trigger] items@[k]) == user_param_tree(ms[k]),
        decreases v@.len() - i,
    {
        assert(ms[i as int] == v@[i as int].deep_view());
        items.push(make_user_param_tree(&v[i]));
        i = i + 1;
    }
    proof {
        lemma_list_model(items);
        assert(models(items@) =~= children_of(each_user_param_tree(ms)));
    }
    Tree::List(items)
}

/// Reads the list that a tree holds, each of its trees as one user param.
pub fn read_each_user_param_tree(t: &Tree) -> (r: Option<Vec<UserParam>>)
    ensures
        match r {
            Some(v) => tree_each_user_param(model_of(*t)) == Some(v.deep_view()),
            None => tree_each_user_param(model_of(*t)) is None,
        },
{
    match t {
        Tree::Leaf(_) => None,
        Tree::List(xs) => {
            proof {
                lemma_list_model(*xs);
            }
            let ghost tm = models(xs@);
            let mut out: Vec<UserParam> = Vec::new();
            let mut i: usize = 0;
            while i < xs.len()
                invariant
                    i <= xs@.len(),
                    tm == models(xs@),
                    model_of(*t) == TreeModel::List(tm),
                    out@.len() == i,
                    forall|k: int|
                        0 <= k < i ==> #[trigger] tree_user_param(tm[k]) == Some(out@[k].deep_view()),
                decreases xs@.len() - i,
            {
                assert(tm[i as int] == model_of(xs@[i as int]));
                match read_user_param_tree(&xs[i]) {
                    Some(x) => {
                        out.push(x);
                    },
                    None => {
                        assert(tree_user_param(tm[i as int]) is None);
                        return None;
                    },
                }
                i = i + 1;
            }
            assert(out.deep_view() =~= tree_each_user_param(model_of(*t)).unwrap());
            Some(out)
        },
    }
}

/// The tree of one referenceable param group ref: the trees of its fields, in their order.
pub open spec fn referenceable_param_group_ref_tree(m: ReferenceableParamGroupRefModel) -> TreeModel {
    TreeModel::List(seq![
        text_tree(m.reference),
    ])
}

/// One referenceable param group ref without the elements of its arrays.
pub open spec fn bare_referenceable_param_group_ref(m: ReferenceableParamGroupRefModel) -> ReferenceableParamGroupRefModel {
    ReferenceableParamGroupRefModel {
        reference: m.reference,
    }
}

/// The referenceable param group ref that a tree holds.
pub open spec fn tree_referenceable_param_group_ref(t: TreeModel) -> Option<ReferenceableParamGroupRefModel> {
    match t {
        TreeModel::List(xs) => if xs.len() == 1
            && tree_text(xs[0]) is Some {
            Some(ReferenceableParamGroupRefModel {
                reference: tree_text(xs[0]).unwrap(),
            })
        } else {
            None
        },
        TreeModel::Leaf(_) => None,
    }
}

/// One referenceable param group ref comes back from its tree as it went in, but for the
/// elements of its arrays.
pub proof fn lemma_referenceable_param_group_ref_comes_back(m: ReferenceableParamGroupRefModel)
    ensures
        tree_referenceable_param_group_ref(referenceable_param_group_ref_tree(m)) == Some(bare_referenceable_param_group_ref(m)),
{
    lemma_fields_come_back();
    let xs = children_of(referenceable_param_group_ref_tree(m));
    assert(xs[0] == text_tree(m.reference));
    assert(tree_referenceable_param_group_ref(referenceable_param_group_ref_tree(m)).unwrap() =~~= bare_referenceable_param_group_ref(m));
}

/// Makes the tree of one referenceable param group ref.
pub fn make_referenceable_param_group_ref_tree(x: &ReferenceableParamGroupRef) -> (t: Tree)
    ensures
        model_of(t) == referenceable_param_group_ref_tree(x.deep_view()),
{
    let mut items: Vec<Tree> = Vec::new();
    items.push(make_text_tree(&x.reference));
    proof {
        lemma_list_model(items);
        assert(models(items@)[0] == model_of(items@[0]));
        assert(models(items@) =~= children_of(referenceable_param_group_ref_tree(x.deep_view())));
    }
    Tree::List(items)
}

/// Reads the referenceable param group ref that a tree holds.
pub fn read_referenceable_param_group_ref_tree(t: &Tree) -> (r: Option<ReferenceableParamGroupRef>)
    ensures
        match r {
            Some(x) => tree_referenceable_param_group_ref(model_of(*t)) == Some(x.deep_view()),
            None => tree_referenceable_param_group_ref(model_of(*t)) is None,
        },
{
    match t {
        Tree::Leaf(_) => None,
        Tree::List(xs) => {
            proof {
                lemma_list_model(*xs);
            }
            if xs.len() != 1 {
                return None;
            }
            assert(models(xs@)[0] == model_of(xs@[0]));
            let got0 = match read_text_tree(&xs[0]) {
                Some(v) => v,
                None => {
                    return None;
                },
            };
            let x = ReferenceableParamGroupRef {
                reference: got0,
            };
            assert(x.deep_view() =~~= tree_referenceable_param_group_ref(model_of(*t)).unwrap());
            Some(x)
        },
    }
}

/// One referenceable param group ref holds no arrays, so nothing is taken out of it.
pub proof fn lemma_bare_referenceable_param_group_ref(m: ReferenceableParamGroupRefModel)
    ensures
        bare_referenceable_param_group_ref(m) == m,
{
    assert(bare_referenceable_param_group_ref(m) =~~= m);
}

/// A list of elements that are each one referenceable param group ref holds no arrays, so nothing
/// is taken out of it.
pub proof fn lemma_bare_each_referenceable_param_group_ref(ms: Seq<ReferenceableParamGroupRefModel>)
    ensures
        bare_each_referenceable_param_group_ref(ms) == ms,
{
    assert forall|k: int| 0 <= k < ms.len() implies #[trigger] bare_referenceable_param_group_ref(ms[k]) == ms[k] by {
        lemma_bare_referenceable_param_group_ref(ms[k]);
    }
    assert(bare_each_referenceable_param_group_ref(ms) =~= ms);
}

/// The tree of a list: the tree of each referenceable param group ref, in their order.
pub open spec fn each_referenceable_param_group_ref_tree(ms: Seq<ReferenceableParamGroupRefModel>) -> TreeModel {
    TreeModel::List(Seq::new(ms.len(), |k: int| referenceable_param_group_ref_tree(ms[k])))
}

/// Each referenceable param group ref of a list without the elements of its arrays.
pub open spec fn bare_each_referenceable_param_group_ref(ms: Seq<ReferenceableParamGroupRefModel>) -> Seq<ReferenceableParamGroupRefModel> {
    Seq::new(ms.len(), |k: int| bare_referenceable_param_group_ref(ms[k]))
}

/// The list that a tree holds: each of its trees as one referenceable param group ref.
pub open spec fn tree_each_referenceable_param_group_ref(t: TreeModel) -> Option<Seq<ReferenceableParamGroupRefModel>> {
    match t {
        TreeModel::List(xs) => if forall|k: int|
            0 <= k < xs.len() ==> (#[trigger] tree_referenceable_param_group_ref(xs[k])) is Some {
            Some(Seq::new(xs.len(), |k: int| tree_referenceable_param_group_ref(xs[k]).unwrap()))
        } else {
            None
        },
        TreeModel::Leaf(_) => None,
    }
}

/// Each referenceable param group ref of a list comes back from the tree of the list as it
/// went in, but for the elements of its arrays.
pub proof fn lemma_each_referenceable_param_group_ref_comes_back(ms: Seq<ReferenceableParamGroupRefModel>)
    ensures
        tree_each_referenceable_param_group_ref(each_referenceable_param_group_ref_tree(ms)) == Some(bare_each_referenceable_param_group_ref(ms)),
{
    let xs = children_of(each_referenceable_param_group_ref_tree(ms));
    assert forall|k: int| 0 <= k < xs.len() implies #[trigger] tree_referenceable_param_group_ref(xs[k]) == Some(
        bare_referenceable_param_group_ref(ms[k]),
    ) by {
        lemma_referenceable_param_group_ref_comes_back(ms[k]);
    }
    assert(tree_each_referenceable_param_group_ref(each_referenceable_param_group_ref_tree(ms)).unwrap() =~= bare_each_referenceable_param_group_ref(ms));
}

/// Makes the tree of a list, of each referenceable param group ref.
pub fn make_each_referenceable_param_group_ref_tree(v: &Vec<ReferenceableParamGroupRef>) -> (t: Tree)
    ensures
        model_of(t) == each_referenceable_param_group_ref_tree(v.deep_view()),
{
    let ghost ms = v.deep_view();
    let mut items: Vec<Tree> = Vec::new();
    let mut i: usize = 0;
    while i < v.len()
        invariant
            i <= v@.len(),
            ms == v.deep_view(),
            items@.len() == i,
            forall|k: int| 0 <= k < i ==> model_of(#[trigger] items@[k]) == referenceable_param_group_ref_tree(ms[k]),
        decreases v@.len() - i,
    {
        assert(ms[i as int] == v@[i as int].deep_view());
        items.push(make_referenceable_param_group_ref_tree(&v[i]));
        i = i + 1;
    }
    proof {
        lemma_list_model(items);
        assert(models(items@) =~= children_of(each_referenceable_param_group_ref_tree(ms)));
    }
    Tree::List(items)
}

/// Reads the list that a tree holds, each of its trees as one referenceable param group ref.
pub fn read_each_referenceable_param_group_ref_tree(t: &Tree) -> (r: Option<Vec<ReferenceableParamGroupRef>>)
    ensures
        match r {
            Some(v) => tree_each_referenceable_param_group_ref(model_of(*t)) == Some(v.deep_view()),
            None => tree_each_referenceable_param_group_ref(model_of(*t)) is None,
        },
{
    match t {
        Tree::Leaf(_) => None,
        Tree::List(xs) => {
            proof {
                lemma_list_model(*xs);
            }
            let ghost tm = models(xs@);
            let mut out: Vec<ReferenceableParamGroupRef> = Vec::new();
            let mut i: usize = 0;
            while i < xs.len()
                invariant
                    i <= xs@.len(),
                    tm == models(xs@),
                    model_of(*t) == TreeModel::List(tm),
                    out@.len() == i,
                    forall|k: int|
                        0 <= k < i ==> #[trigger] tree_referenceable_param_group_ref(tm[k]) == Some(out@[k].deep_view()),
                decreases xs@.len() - i,
            {
                assert(tm[i as int] == model_of(xs@[i as int]));
                match read_referenceable_param_group_ref_tree(&xs[i]) {
                    Some(x) => {
                        out.push(x);
                    },
                    None => {
                        assert(tree_referenceable_param_group_ref(tm[i as int]) is None);
                        return None;
                    },
                }
                i = i + 1;
            }
            assert(out.deep_view() =~= tree_each_referenceable_param_group_ref(model_of(*t)).unwrap());
            Some(out)
        },
    }
}

/// The tree of one binary data array: the trees of its fields, in their order.
pub open spec fn binary_data_array_tree(m: BinaryDataArrayModel) -> TreeModel {
    TreeModel::List(seq![
        opt_usize_tree(m.array_length),
        opt_usize_tree(m.encoded_length),
        opt_text_tree(m.data_processing_ref),
        each_referenceable_param_group_ref_tree(m.referenceable_param_group_refs),
        each_cv_param_tree(m.cv_params),
        each_user_param_tree(m.user_params),
        opt_type_tree(m.numeric_type),
        opt_bool_tree(m.is_f32),
        opt_bool_tree(m.is_f64),
    ])
}

/// One binary data array without the elements of its arrays.
pub open spec fn bare_binary_data_array(m: BinaryDataArrayModel) -> BinaryDataArrayModel {
    BinaryDataArrayModel {
        array_length: m.array_length,
        encoded_length: m.encoded_length,
        data_processing_ref: m.data_processing_ref,
        referenceable_param_group_refs: bare_each_referenceable_param_group_ref(m.referenceable_param_group_refs),
        cv_params: bare_each_cv_param(m.cv_params),
        user_params: bare_each_user_param(m.user_params),
        numeric_type: m.numeric_type,
        is_f32: m.is_f32,
        is_f64: m.is_f64,
        decoded_binary_f32: Seq::empty(),
        decoded_binary_f64: Seq::empty(),
    }
}

/// The binary data array that a tree holds.
pub open spec fn tree_binary_data_array(t: TreeModel) -> Option<BinaryDataArrayModel> {
    match t {
        TreeModel::List(xs) => if xs.len() == 9
            && tree_opt_usize(xs[0]) is Some
            && tree_opt_usize(xs[1]) is Some
            && tree_opt_text(xs[2]) is Some
            && tree_each_referenceable_param_group_ref(xs[3]) is Some
            && tree_each_cv_param(xs[4]) is Some
            && tree_each_user_param(xs[5]) is Some
            && tree_opt_type(xs[6]) is Some
            && tree_opt_bool(xs[7]) is Some
            && tree_opt_bool(xs[8]) is Some {
            Some(BinaryDataArrayModel {
                array_length: tree_opt_usize(xs[0]).unwrap(),
                encoded_length: tree_opt_usize(xs[1]).unwrap(),
                data_processing_ref: tree_opt_text(xs[2]).unwrap(),
                referenceable_param_group_refs: tree_each_referenceable_param_group_ref(xs[3]).unwrap(),
                cv_params: tree_each_cv_param(xs[4]).unwrap(),
                user_params: tree_each_user_param(xs[5]).unwrap(),
                numeric_type: tree_opt_type(xs[6]).unwrap(),
                is_f32: tree_opt_bool(xs[7]).unwrap(),
                is_f64: tree_opt_bool(xs[8]).unwrap(),
                decoded_binary_f32: Seq::empty(),
                decoded_binary_f64: Seq::empty(),
            })
        } else {
            None
        },
        TreeModel::Leaf(_) => None,
    }
}

/// One binary data array comes back from its tree as it went in, but for the
/// elements of its arrays.
pub proof fn lemma_binary_data_array_comes_back(m: BinaryDataArrayModel)
    ensures
        tree_binary_data_array(binary_data_array_tree(m)) == Some(bare_binary_data_array(m)),
{
    lemma_fields_come_back();
    lemma_each_referenceable_param_group_ref_comes_back(m.referenceable_param_group_refs);
    lemma_each_cv_param_comes_back(m.cv_params);
    lemma_each_user_param_comes_back(m.user_params);
    let xs = children_of(binary_data_array_tree(m));
    assert(xs[0] == opt_usize_tree(m.array_length));
    assert(xs[1] == opt_usize_tree(m.encoded_length));
    assert(xs[2] == opt_text_tree(m.data_processing_ref));
    assert(xs[3] == each_referenceable_param_group_ref_tree(m.referenceable_param_group_refs));
    assert(xs[4] == each_cv_param_tree(m.cv_params));
    assert(xs[5] == each_user_param_tree(m.user_params));
    assert(xs[6] == opt_type_tree(m.numeric_type));
    assert(xs[7] == opt_bool_tree(m.is_f32));
    assert(xs[8] == opt_bool_tree(m.is_f64));
    assert(tree_binary_data_array(binary_data_array_tree(m)).unwrap() =~~= bare_binary_data_array(m));
}

/// Makes the tree of one binary data array.
pub fn make_binary_data_array_tree(x: &BinaryDataArray) -> (t: Tree)
    ensures
        model_of(t) == binary_data_array_tree(x.deep_view()),
{
    let mut items: Vec<Tree> = Vec::new();
    items.push(make_opt_usize_tree(&x.array_length));
    items.push(make_opt_usize_tree(&x.encoded_length));
    items.push(make_opt_text_tree(&x.data_processing_ref));
    items.push(make_each_referenceable_param_group_ref_tree(&x.referenceable_param_group_refs));
    items.push(make_each_cv_param_tree(&x.cv_params));
    items.push(make_each_user_param_tree(&x.user_params));
    items.push(make_opt_type_tree(&x.numeric_type));
    items.push(make_opt_bool_tree(&x.is_f32));
    items.push(make_opt_bool_tree(&x.is_f64));
    proof {
        lemma_list_model(items);
        assert(models(items@)[0] == model_of(items@[0]));
        assert(models(items@)[1] == model_of(items@[1]));
        assert(models(items@)[2] == model_of(items@[2]));
        assert(models(items@)[3] == model_of(items@[3]));
        assert(models(items@)[4] == model_of(items@[4]));
        assert(models(items@)[5] == model_of(items@[5]));
        assert(models(items@)[6] == model_of(items@[6]));
        assert(models(items@)[7] == model_of(items@[7]));
        assert(models(items@)[8] == model_of(items@[8]));
        assert(models(items@) =~= children_of(binary_data_array_tree(x.deep_view())));
    }
    Tree::List(items)
}

/// Reads the binary data array that a tree holds.
pub fn read_binary_data_array_tree(t: &Tree) -> (r: Option<BinaryDataArray>)
    ensures
        match r {
            Some(x) => tree_binary_data_array(model_of(*t)) == Some(x.deep_view()),
            None => tree_binary_data_array(model_of(*t)) is None,
        },
{
    match t {
        Tree::Leaf(_) => None,
        Tree::List(xs) => {
            proof {
                lemma_list_model(*xs);
            }
            if xs.len() != 9 {
                return None;
            }
            assert(models(xs@)[0] == model_of(xs@[0]));
            assert(models(xs@)[1] == model_of(xs@[1]));
            assert(models(xs@)[2] == model_of(xs@[2]));
            assert(models(xs@)[3] == model_of(xs@[3]));
            assert(models(xs@)[4] == model_of(xs@[4]));
            assert(models(xs@)[5] == model_of(xs@[5]));
            assert(models(xs@)[6] == model_of(xs@[6]));
            assert(models(xs@)[7] == model_of(xs@[7]));
            assert(models(xs@)[8] == model_of(xs@[8]));
            let got0 = match read_opt_usize_tree(&xs[0]) {
                Some(v) => v,
                None => {
                    return None;
                },
            };
            let got1 = match read_opt_usize_tree(&xs[1]) {
                Some(v) => v,
                None => {
                    return None;
                },
            };
            let got2 = match read_opt_text_tree(&xs[2]) {
                Some(v) => v,
                None => {
                    return None;
                },
            };
            let got3 = match read_each_referenceable_param_group_ref_tree(&xs[3]) {
                Some(v) => v,
                None => {
                    return None;
                },
            };
            let got4 = match read_each_cv_param_tree(&xs[4]) {
                Some(v) => v,
                None => {
                    return None;
                },
            };
            let got5 = match read_each_user_param_tree(&xs[5]) {
                Some(v) => v,
                None => {
                    return None;
                },
            };
            let got6 = match read_opt_type_tree(&xs[6]) {
                Some(v) => v,
                None => {
                    return None;
                },
            };
            let got7 = match read_opt_bool_tree(&xs[7]) {
                Some(v) => v,
                None => {
                    return None;
                },
            };
            let got8 = match read_opt_bool_tree(&xs[8]) {
                Some(v) => v,
                None => {
                    return None;
                },
            };
            let x = BinaryDataArray {
                array_length: got0,
                encoded_length: got1,
                data_processing_ref: got2,
                referenceable_param_group_refs: got3,
                cv_params: got4,
                user_params: got5,
                numeric_type: got6,
                is_f32: got7,
                is_f64: got8,
                decoded_binary_f32: Vec::new(),
                decoded_binary_f64: Vec::new(),
            };
            assert(x.decoded_binary_f32.deep_view() =~= Seq::empty());
            assert(x.decoded_binary_f64.deep_view() =~= Seq::empty());
            assert(x.deep_view() =~~= tree_binary_data_array(model_of(*t)).unwrap());
            Some(x)
        },
    }
}

/// The tree of a list: the tree of each binary data array, in their order.
pub open spec fn each_binary_data_array_tree(ms: Seq<BinaryDataArrayModel>) -> TreeModel {
    TreeModel::List(Seq::new(ms.len(), |k: int| binary_data_array_tree(ms[k])))
}

/// Each binary data array of a list without the elements of its arrays.
pub open spec fn bare_each_binary_data_array(ms: Seq<BinaryDataArrayModel>) -> Seq<BinaryDataArrayModel> {
    Seq::new(ms.len(), |k: int| bare_binary_data_array(ms[k]))
}

/// The list that a tree holds: each of its trees as one binary data array.
pub open spec fn tree_each_binary_data_array(t: TreeModel) -> Option<Seq<BinaryDataArrayModel>> {
    match t {
        TreeModel::List(xs) => if forall|k: int|
            0 <= k < xs.len() ==> (#[trigger] tree_binary_data_array(xs[k])) is Some {
            Some(Seq::new(xs.len(), |k: int| tree_binary_data_array(xs[k]).unwrap()))
        } else {
            None
        },
        TreeModel::Leaf(_) => None,
    }
}

/// Each binary data array of a list comes back from the tree of the list as it
/// went in, but for the elements of its arrays.
pub proof fn lemma_each_binary_data_array_comes_back(ms: Seq<BinaryDataArrayModel>)
    ensures
        tree_each_binary_data_array(each_binary_data_array_tree(ms)) == Some(bare_each_binary_data_array(ms)),
{
    let xs = children_of(each_binary_data_array_tree(ms));
    assert forall|k: int| 0 <= k < xs.len() implies #[trigger] tree_binary_data_array(xs[k]) == Some(
        bare_binary_data_array(ms[k]),
    ) by {
        lemma_binary_data_array_comes_back(ms[k]);
    }
    assert(tree_each_binary_data_array(each_binary_data_array_tree(ms)).unwrap() =~= bare_each_binary_data_array(ms));
}

/// Makes the tree of a list, of each binary data array.
pub fn make_each_binary_data_array_tree(v: &Vec<BinaryDataArray>) -> (t: Tree)
    ensures
        model_of(t) == each_binary_data_array_tree(v.deep_view()),
{
    let ghost ms = v.deep_view();
    let mut items: Vec<Tree> = Vec::new();
    let mut i: usize = 0;
    while i < v.len()
        invariant
            i <= v@.len(),
            ms == v.deep_view(),
            items@.len() == i,
            forall|k: int| 0 <= k < i ==> model_of(#[trigger] items@[k]) == binary_data_array_tree(ms[k]),
        decreases v@.len() - i,
    {
        assert(ms[i as int] == v@[i as int].deep_view());
        items.push(make_binary_data_array_tree(&v[i]));
        i = i + 1;
    }
    proof {
        lemma_list_model(items);
        assert(models(items@) =~= children_of(each_binary_data_array_tree(ms)));
    }
    Tree::List(items)
}

/// Reads the list that a tree holds, each of its trees as one binary data array.
pub fn read_each_binary_data_array_tree(t: &Tree) -> (r: Option<Vec<BinaryDataArray>>)
    ensures
        match r {
            Some(v) => tree_each_binary_data_array(model_of(*t)) == Some(v.deep_view()),
            None => tree_each_binary_data_array(model_of(*t)) is None,
        },
{
    match t {
        Tree::Leaf(_) => None,
        Tree::List(xs) => {
            proof {
                lemma_list_model(*xs);
            }
            let ghost tm = models(xs@);
            let mut out: Vec<BinaryDataArray> = Vec::new();
            let mut i: usize = 0;
            while i < xs.len()
                invariant
                    i <= xs@.len(),
                    tm == models(xs@),
                    model_of(*t) == TreeModel::List(tm),
                    out@.len() == i,
                    forall|k: int|
                        0 <= k < i ==> #[trigger] tree_binary_data_array(tm[k]) == Some(out@[k].deep_view()),
                decreases xs@.len() - i,
            {
                assert(tm[i as int] == model_of(xs@[i as int]));
                match read_binary_data_array_tree(&xs[i]) {
                    Some(x) => {
                        out.push(x);
                    },
                    None => {
                        assert(tree_binary_data_array(tm[i as int]) is None);
                        return None;
                    },
                }
                i = i + 1;
            }
            assert(out.deep_view() =~= tree_each_binary_data_array(model_of(*t)).unwrap());
            Some(out)
        },
    }
}

/// The tree of one binary data array list: the trees of its fields, in their order.
pub open spec fn binary_data_array_list_tree(m: BinaryDataArrayListModel) -> TreeModel {
    TreeModel::List(seq![
        opt_usize_tree(m.count),
        each_binary_data_array_tree(m.binary_data_arrays),
    ])
}

/// One binary data array list without the elements of its arrays.
pub open spec fn bare_binary_data_array_list(m: BinaryDataArrayListModel) -> BinaryDataArrayListModel {
    BinaryDataArrayListModel {
        count: m.count,
        binary_data_arrays: bare_each_binary_data_array(m.binary_data_arrays),
    }
}

/// The binary data array list that a tree holds.
pub open spec fn tree_binary_data_array_list(t: TreeModel) -> Option<BinaryDataArrayListModel> {
    match t {
        TreeModel::List(xs) => if xs.len() == 2
            && tree_opt_usize(xs[0]) is Some
            && tree_each_binary_data_array(xs[1]) is Some {
            Some(BinaryDataArrayListModel {
                count: tree_opt_usize(xs[0]).unwrap(),
                binary_data_arrays: tree_each_binary_data_array(xs[1]).unwrap(),
            })
        } else {
            None
        },
        TreeModel::Leaf(_) => None,
    }
}

/// One binary data array list comes back from its tree as it went in, but for the
/// elements of its arrays.
pub proof fn lemma_binary_data_array_list_comes_back(m: BinaryDataArrayListModel)
    ensures
        tree_binary_data_array_list(binary_data_array_list_tree(m)) == Some(bare_binary_data_array_list(m)),
{
    lemma_fields_come_back();
    lemma_each_binary_data_array_comes_back(m.binary_data_arrays);
    let xs = children_of(binary_data_array_list_tree(m));
    assert(xs[0] == opt_usize_tree(m.count));
    assert(xs[1] == each_binary_data_array_tree(m.binary_data_arrays));
    assert(tree_binary_data_array_list(binary_data_array_list_tree(m)).unwrap() =~~= bare_binary_data_array_list(m));
}

/// Makes the tree of one binary data array list.
pub fn make_binary_data_array_list_tree(x: &BinaryDataArrayList) -> (t: Tree)
    ensures
        model_of(t) == binary_data_array_list_tree(x.deep_view()),
{
    let mut items: Vec<Tree> = Vec::new();
    items.push(make_opt_usize_tree(&x.count));
    items.push(make_each_binary_data_array_tree(&x.binary_data_arrays));
    proof {
        lemma_list_model(items);
        assert(models(items@)[0] == model_of(items@[0]));
        assert(models(items@)[1] == model_of(items@[1]));
        assert(models(items@) =~= children_of(binary_data_array_list_tree(x.deep_view())));
    }
    Tree::List(items)
}

/// Reads the binary data array list that a tree holds.
pub fn read_binary_data_array_list_tree(t: &Tree) -> (r: Option<BinaryDataArrayList>)
    ensures
        match r {
            Some(x) => tree_binary_data_array_list(model_of(*t)) == Some(x.deep_view()),
            None => tree_binary_data_array_list(model_of(*t)) is None,
        },
{
    match t {
        Tree::Leaf(_) => None,
        Tree::List(xs) => {
            proof {
                lemma_list_model(*xs);
            }
            if xs.len() != 2 {
                return None;
            }
            assert(models(xs@)[0] == model_of(xs@[0]));
            assert(models(xs@)[1] == model_of(xs@[1]));
            let got0 = match read_opt_usize_tree(&xs[0]) {
                Some(v) => v,
                None => {
                    return None;
                },
            };
            let got1 = match read_each_binary_data_array_tree(&xs[1]) {
                Some(v) => v,
                None => {
                    return None;
                },
            };
            let x = BinaryDataArrayList {
                count: got0,
                binary_data_arrays: got1,
            };
            assert(x.deep_view() =~~= tree_binary_data_array_list(model_of(*t)).unwrap());
            Some(x)
        },
    }
}

/// The tree of an optional binary data array list: a list of none or of one.
pub open spec fn opt_binary_data_array_list_tree(o: Option<BinaryDataArrayListModel>) -> TreeModel {
    match o {
        Some(m) => TreeModel::List(seq![binary_data_array_list_tree(m)]),
        None => TreeModel::List(Seq::empty()),
    }
}

/// An optional binary data array list without the elements of its arrays.
pub open spec fn bare_opt_binary_data_array_list(o: Option<BinaryDataArrayListModel>) -> Option<BinaryDataArrayListModel> {
    match o {
        Some(m) => Some(bare_binary_data_array_list(m)),
        None => None,
    }
}

/// The optional binary data array list that a tree holds.
pub open spec fn tree_opt_binary_data_array_list(t: TreeModel) -> Option<Option<BinaryDataArrayListModel>> {
    match t {
        TreeModel::List(xs) => if xs.len() == 0 {
            Some(None)
        } else if xs.len() == 1 && tree_binary_data_array_list(xs[0]) is Some {
            Some(Some(tree_binary_data_array_list(xs[0]).unwrap()))
        } else {
            None
        },
        TreeModel::Leaf(_) => None,
    }
}

/// An optional binary data array list comes back from its tree as it went in, but for the
/// elements of its arrays.
pub proof fn lemma_opt_binary_data_array_list_comes_back(o: Option<BinaryDataArrayListModel>)
    ensures
        tree_opt_binary_data_array_list(opt_binary_data_array_list_tree(o)) == Some(bare_opt_binary_data_array_list(o)),
{
    match o {
        Some(m) => {
            lemma_binary_data_array_list_comes_back(m);
            assert(children_of(opt_binary_data_array_list_tree(o))[0] == binary_data_array_list_tree(m));
        },
        None => {},
    }
}

/// Makes the tree of an optional binary data array list.
pub fn make_opt_binary_data_array_list_tree(o: &Option<BinaryDataArrayList>) -> (t: Tree)
    ensures
        model_of(t) == opt_binary_data_array_list_tree(o.deep_view()),
{
    let mut items: Vec<Tree> = Vec::new();
    match o {
        Some(x) => {
            items.push(make_binary_data_array_list_tree(x));
        },
        None => {},
    }
    proof {
        lemma_list_model(items);
        assert(models(items@) =~= children_of(opt_binary_data_array_list_tree(o.deep_view())));
    }
    Tree::List(items)
}

/// Reads the optional binary data array list that a tree holds.
pub fn read_opt_binary_data_array_list_tree(t: &Tree) -> (r: Option<Option<BinaryDataArrayList>>)
    ensures
        match r {
            Some(o) => tree_opt_binary_data_array_list(model_of(*t)) == Some(o.deep_view()),
            None => tree_opt_binary_data_array_list(model_of(*t)) is None,
        },
{
    match t {
        Tree::Leaf(_) => None,
        Tree::List(xs) => {
            proof {
                lemma_list_model(*xs);
            }
            if xs.len() == 0 {
                return Some(None);
            }
            if xs.len() != 1 {
                return None;
            }
            assert(models(xs@)[0] == model_of(xs@[0]));
            match read_binary_data_array_list_tree(&xs[0]) {
                Some(x) => Some(Some(x)),
                None => None,
            }
        },
    }
}

/// The tree of one isolation window: the trees of its fields, in their order.
pub open spec fn isolation_window_tree(m: IsolationWindowModel) -> TreeModel {
    TreeModel::List(seq![
        each_cv_param_tree(m.cv_params),
        each_user_param_tree(m.user_params),
    ])
}

/// One isolation window without the elements of its arrays.
pub open spec fn bare_isolation_window(m: IsolationWindowModel) -> IsolationWindowModel {
    IsolationWindowModel {
        cv_params: bare_each_cv_param(m.cv_params),
        user_params: bare_each_user_param(m.user_params),
    }
}

/// The isolation window that a tree holds.
pub open spec fn tree_isolation_window(t: TreeModel) -> Option<IsolationWindowModel> {
    match t {
        TreeModel::List(xs) => if xs.len() == 2
            && tree_each_cv_param(xs[0]) is Some
            && tree_each_user_param(xs[1]) is Some {
            Some(IsolationWindowModel {
                cv_params: tree_each_cv_param(xs[0]).unwrap(),
                user_params: tree_each_user_param(xs[1]).unwrap(),
            })
        } else {
            None
        },
        TreeModel::Leaf(_) => None,
    }
}

/// One isolation window comes back from its tree as it went in, but for the
/// elements of its arrays.
pub proof fn lemma_isolation_window_comes_back(m: IsolationWindowModel)
    ensures
        tree_isolation_window(isolation_window_tree(m)) == Some(bare_isolation_window(m)),
{
    lemma_fields_come_back();
    lemma_each_cv_param_comes_back(m.cv_params);
    lemma_each_user_param_comes_back(m.user_params);
    let xs = children_of(isolation_window_tree(m));
    assert(xs[0] == each_cv_param_tree(m.cv_params));
    assert(xs[1] == each_user_param_tree(m.user_params));
    assert(tree_isolation_window(isolation_window_tree(m)).unwrap() =~~= bare_isolation_window(m));
}

/// Makes the tree of one isolation window.
pub fn make_isolation_window_tree(x: &IsolationWindow) -> (t: Tree)
    ensures
        model_of(t) == isolation_window_tree(x.deep_view()),
{
    let mut items: Vec<Tree> = Vec::new();
    items.push(make_each_cv_param_tree(&x.cv_params));
    items.push(make_each_user_param_tree(&x.user_params));
    proof {
        lemma_list_model(items);
        assert(models(items@)[0] == model_of(items@[0]));
        assert(models(items@)[1] == model_of(items@[1]));
        assert(models(items@) =~= children_of(isolation_window_tree(x.deep_view())));
    }
    Tree::List(items)
}

/// Reads the isolation window that a tree holds.
pub fn read_isolation_window_tree(t: &Tree) -> (r: Option<IsolationWindow>)
    ensures
        match r {
            Some(x) => tree_isolation_window(model_of(*t)) == Some(x.deep_view()),
            None => tree_isolation_window(model_of(*t)) is None,
        },
{
    match t {
        Tree::Leaf(_) => None,
        Tree::List(xs) => {
            proof {
                lemma_list_model(*xs);
            }
            if xs.len() != 2 {
                return None;
            }
            assert(models(xs@)[0] == model_of(xs@[0]));
            assert(models(xs@)[1] == model_of(xs@[1]));
            let got0 = match read_each_cv_param_tree(&xs[0]) {
                Some(v) => v,
                None => {
                    return None;
                },
            };
            let got1 = match read_each_user_param_tree(&xs[1]) {
                Some(v) => v,
                None => {
                    return None;
                },
            };
            let x = IsolationWindow {
                cv_params: got0,
                user_params: got1,
            };
            assert(x.deep_view() =~~= tree_isolation_window(model_of(*t)).unwrap());
            Some(x)
        },
    }
}

/// One isolation window holds no arrays, so nothing is taken out of it.
pub proof fn lemma_bare_isolation_window(m: IsolationWindowModel)
    ensures
        bare_isolation_window(m) == m,
{
    lemma_bare_each_cv_param(m.cv_params);
    lemma_bare_each_user_param(m.user_params);
    assert(bare_isolation_window(m) =~~= m);
}

/// An optional isolation window holds no arrays, so nothing is taken out of it.
pub proof fn lemma_bare_opt_isolation_window(o: Option<IsolationWindowModel>)
    ensures
        bare_opt_isolation_window(o) == o,
{
    match o {
        Some(m) => {
            lemma_bare_isolation_window(m);
        },
        None => {},
    }
}

/// The tree of an optional isolation window: a list of none or of one.
pub open spec fn opt_isolation_window_tree(o: Option<IsolationWindowModel>) -> TreeModel {
    match o {
        Some(m) => TreeModel::List(seq![isolation_window_tree(m)]),
        None => TreeModel::List(Seq::empty()),
    }
}

/// An optional isolation window without the elements of its arrays.
pub open spec fn bare_opt_isolation_window(o: Option<IsolationWindowModel>) -> Option<IsolationWindowModel> {
    match o {
        Some(m) => Some(bare_isolation_window(m)),
        None => None,
    }
}

/// The optional isolation window that a tree holds.
pub open spec fn tree_opt_isolation_window(t: TreeModel) -> Option<Option<IsolationWindowModel>> {
    match t {
        TreeModel::List(xs) => if xs.len() == 0 {
            Some(None)
        } else if xs.len() == 1 && tree_isolation_window(xs[0]) is Some {
            Some(Some(tree_isolation_window(xs[0]).unwrap()))
        } else {
            None
        },
        TreeModel::Leaf(_) => None,
    }
}

/// An optional isolation window comes back from its tree as it went in, but for the
/// elements of its arrays.
pub proof fn lemma_opt_isolation_window_comes_back(o: Option<IsolationWindowModel>)
    ensures
        tree_opt_isolation_window(opt_isolation_window_tree(o)) == Some(bare_opt_isolation_window(o)),
{
    match o {
        Some(m) => {
            lemma_isolation_window_comes_back(m);
            assert(children_of(opt_isolation_window_tree(o))[0] == isolation_window_tree(m));
        },
        None => {},
    }
}

/// Makes the tree of an optional isolation window.
pub fn make_opt_isolation_window_tree(o: &Option<IsolationWindow>) -> (t: Tree)
    ensures
        model_of(t) == opt_isolation_window_tree(o.deep_view()),
{
    let mut items: Vec<Tree> = Vec::new();
    match o {
        Some(x) => {
            items.push(make_isolation_window_tree(x));
        },
        None => {},
    }
    proof {
        lemma_list_model(items);
        assert(models(items@) =~= children_of(opt_isolation_window_tree(o.deep_view())));
    }
    Tree::List(items)
}

/// Reads the optional isolation window that a tree holds.
pub fn read_opt_isolation_window_tree(t: &Tree) -> (r: Option<Option<IsolationWindow>>)
    ensures
        match r {
            Some(o) => tree_opt_isolation_window(model_of(*t)) == Some(o.deep_view()),
            None => tree_opt_isolation_window(model_of(*t)) is None,
        },
{
    match t {
        Tree::Leaf(_) => None,
        Tree::List(xs) => {
            proof {
                lemma_list_model(*xs);
            }
            if xs.len() == 0 {
                return Some(None);
            }
            if xs.len() != 1 {
                return None;
            }
            assert(models(xs@)[0] == model_of(xs@[0]));
            match read_isolation_window_tree(&xs[0]) {
                Some(x) => Some(Some(x)),
                None => None,
            }
        },
    }
}

/// The tree of one selected ion: the trees of its fields, in their order.
pub open spec fn selected_ion_tree(m: SelectedIonModel) -> TreeModel {
    TreeModel::List(seq![
        each_cv_param_tree(m.cv_params),
        each_user_param_tree(m.user_params),
    ])
}

/// One selected ion without the elements of its arrays.
pub open spec fn bare_selected_ion(m: SelectedIonModel) -> SelectedIonModel {
    SelectedIonModel {
        cv_params: bare_each_cv_param(m.cv_params),
        user_params: bare_each_user_param(m.user_params),
    }
}

/// The selected ion that a tree holds.
pub open spec fn tree_selected_ion(t: TreeModel) -> Option<SelectedIonModel> {
    match t {
        TreeModel::List(xs) => if xs.len() == 2
            && tree_each_cv_param(xs[0]) is Some
            && tree_each_user_param(xs[1]) is Some {
            Some(SelectedIonModel {
                cv_params: tree_each_cv_param(xs[0]).unwrap(),
                user_params: tree_each_user_param(xs[1]).unwrap(),
            })
        } else {
            None
        },
        TreeModel::Leaf(_) => None,
    }
}

/// One selected ion comes back from its tree as it went in, but for the
/// elements of its arrays.
pub proof fn lemma_selected_ion_comes_back(m: SelectedIonModel)
    ensures
        tree_selected_ion(selected_ion_tree(m)) == Some(bare_selected_ion(m)),
{
    lemma_fields_come_back();
    lemma_each_cv_param_comes_back(m.cv_params);
    lemma_each_user_param_comes_back(m.user_params);
    let xs = children_of(selected_ion_tree(m));
    assert(xs[0] == each_cv_param_tree(m.cv_params));
    assert(xs[1] == each_user_param_tree(m.user_params));
    assert(tree_selected_ion(selected_ion_tree(m)).unwrap() =~~= bare_selected_ion(m));
}

/// Makes the tree of one selected ion.
pub fn make_selected_ion_tree(x: &SelectedIon) -> (t: Tree)
    ensures
        model_of(t) == selected_ion_tree(x.deep_view()),
{
    let mut items: Vec<Tree> = Vec::new();
    items.push(make_each_cv_param_tree(&x.cv_params));
    items.push(make_each_user_param_tree(&x.user_params));
    proof {
        lemma_list_model(items);
        assert(models(items@)[0] == model_of(items@[0]));
        assert(models(items@)[1] == model_of(items@[1]));
        assert(models(items@) =~= children_of(selected_ion_tree(x.deep_view())));
    }
    Tree::List(items)
}

/// Reads the selected ion that a tree holds.
pub fn read_selected_ion_tree(t: &Tree) -> (r: Option<SelectedIon>)
    ensures
        match r {
            Some(x) => tree_selected_ion(model_of(*t)) == Some(x.deep_view()),
            None => tree_selected_ion(model_of(*t)) is None,
        },
{
    match t {
        Tree::Leaf(_) => None,
        Tree::List(xs) => {
            proof {
                lemma_list_model(*xs);
            }
            if xs.len() != 2 {
                return None;
            }
            assert(models(xs@)[0] == model_of(xs@[0]));
            assert(models(xs@)[1] == model_of(xs@[1]));
            let got0 = match read_each_cv_param_tree(&xs[0]) {
                Some(v) => v,
                None => {
                    return None;
                },
            };
            let got1 = match read_each_user_param_tree(&xs[1]) {
                Some(v) => v,
                None => {
                    return None;
                },
            };
            let x = SelectedIon {
                cv_params: got0,
                user_params: got1,
            };
            assert(x.deep_view() =~~= tree_selected_ion(model_of(*t)).unwrap());
            Some(x)
        },
    }
}

/// One selected ion holds no arrays, so nothing is taken out of it.
pub proof fn lemma_bare_selected_ion(m: SelectedIonModel)
    ensures
        bare_selected_ion(m) == m,
{
    lemma_bare_each_cv_param(m.cv_params);
    lemma_bare_each_user_param(m.user_params);
    assert(bare_selected_ion(m) =~~= m);
}

/// A list of elements that are each one selected ion holds no arrays, so nothing
/// is taken out of it.
pub proof fn lemma_bare_each_selected_ion(ms: Seq<SelectedIonModel>)
    ensures
        bare_each_selected_ion(ms) == ms,
{
    assert forall|k: int| 0 <= k < ms.len() implies #[trigger] bare_selected_ion(ms[k]) == ms[k] by {
        lemma_bare_selected_ion(ms[k]);
    }
    assert(bare_each_selected_ion(ms) =~= ms);
}

/// The tree of a list: the tree of each selected ion, in their order.
pub open spec fn each_selected_ion_tree(ms: Seq<SelectedIonModel>) -> TreeModel {
    TreeModel::List(Seq::new(ms.len(), |k: int| selected_ion_tree(ms[k])))
}

/// Each selected ion of a list without the elements of its arrays.
pub open spec fn bare_each_selected_ion(ms: Seq<SelectedIonModel>) -> Seq<SelectedIonModel> {
    Seq::new(ms.len(), |k: int| bare_selected_ion(ms[k]))
}

/// The list that a tree holds: each of its trees as one selected ion.
pub open spec fn tree_each_selected_ion(t: TreeModel) -> Option<Seq<SelectedIonModel>> {
    match t {
        TreeModel::List(xs) => if forall|k: int|
            0 <= k < xs.len() ==> (#[trigger] tree_selected_ion(xs[k])) is Some {
            Some(Seq::new(xs.len(), |k: int| tree_selected_ion(xs[k]).unwrap()))
        } else {
            None
        },
        TreeModel::Leaf(_) => None,
    }
}

/// Each selected ion of a list comes back from the tree of the list as it
/// went in, but for the elements of its arrays.
pub proof fn lemma_each_selected_ion_comes_back(ms: Seq<SelectedIonModel>)
    ensures
        tree_each_selected_ion(each_selected_ion_tree(ms)) == Some(bare_each_selected_ion(ms)),
{
    let xs = children_of(each_selected_ion_tree(ms));
    assert forall|k: int| 0 <= k < xs.len() implies #[trigger] tree_selected_ion(xs[k]) == Some(
        bare_selected_ion(ms[k]),
    ) by {
        lemma_selected_ion_comes_back(ms[k]);
    }
    assert(tree_each_selected_ion(each_selected_ion_tree(ms)).unwrap() =~= bare_each_selected_ion(ms));
}

/// Makes the tree of a list, of each selected ion.
pub fn make_each_selected_ion_tree(v: &Vec<SelectedIon>) -> (t: Tree)
    ensures
        model_of(t) == each_selected_ion_tree(v.deep_view()),
{
    let ghost ms = v.deep_view();
    let mut items: Vec<Tree> = Vec::new();
    let mut i: usize = 0;
    while i < v.len()
        invariant
            i <= v@.len(),
            ms == v.deep_view(),
            items@.len() == i,
            forall|k: int| 0 <= k < i ==> model_of(#[trigger] items@[k]) == selected_ion_tree(ms[k]),
        decreases v@.len() - i,
    {
        assert(ms[i as int] == v@[i as int].deep_view());
        items.push(make_selected_ion_tree(&v[i]));
        i = i + 1;
    }
    proof {
        lemma_list_model(items);
        assert(models(items@) =~= children_of(each_selected_ion_tree(ms)));
    }
    Tree::List(items)
}

/// Reads the list that a tree holds, each of its trees as one selected ion.
pub fn read_each_selected_ion_tree(t: &Tree) -> (r: Option<Vec<SelectedIon>>)
    ensures
        match r {
            Some(v) => tree_each_selected_ion(model_of(*t)) == Some(v.deep_view()),
            None => tree_each_selected_ion(model_of(*t)) is None,
        },
{
    match t {
        Tree::Leaf(_) => None,
        Tree::List(xs) => {
            proof {
                lemma_list_model(*xs);
            }
            let ghost tm = models(xs@);
            let mut out: Vec<SelectedIon> = Vec::new();
            let mut i: usize = 0;
            while i < xs.len()
                invariant
                    i <= xs@.len(),
                    tm == models(xs@),
                    model_of(*t) == TreeModel::List(tm),
                    out@.len() == i,
                    forall|k: int|
                        0 <= k < i ==> #[trigger] tree_selected_ion(tm[k]) == Some(out@[k].deep_view()),
                decreases xs@.len() - i,
            {
                assert(tm[i as int] == model_of(xs@[i as int]));
                match read_selected_ion_tree(&xs[i]) {
                    Some(x) => {
                        out.push(x);
                    },
                    None => {
                        assert(tree_selected_ion(tm[i as int]) is None);
                        return None;
                    },
                }
                i = i + 1;
            }
            assert(out.deep_view() =~= tree_each_selected_ion(model_of(*t)).unwrap());
            Some(out)
        },
    }
}

/// The tree of one selected ion list: the trees of its fields, in their order.
pub open spec fn selected_ion_list_tree(m: SelectedIonListModel) -> TreeModel {
    TreeModel::List(seq![
        opt_usize_tree(m.count),
        each_selected_ion_tree(m.selected_ions),
    ])
}

/// One selected ion list without the elements of its arrays.
pub open spec fn bare_selected_ion_list(m: SelectedIonListModel) -> SelectedIonListModel {
    SelectedIonListModel {
        count: m.count,
        selected_ions: bare_each_selected_ion(m.selected_ions),
    }
}

/// The selected ion list that a tree holds.
pub open spec fn tree_selected_ion_list(t: TreeModel) -> Option<SelectedIonListModel> {
    match t {
        TreeModel::List(xs) => if xs.len() == 2
            && tree_opt_usize(xs[0]) is Some
            && tree_each_selected_ion(xs[1]) is Some {
            Some(SelectedIonListModel {
                count: tree_opt_usize(xs[0]).unwrap(),
                selected_ions: tree_each_selected_ion(xs[1]).unwrap(),
            })
        } else {
            None
        },
        TreeModel::Leaf(_) => None,
    }
}

/// One selected ion list comes back from its tree as it went in, but for the
/// elements of its arrays.
pub proof fn lemma_selected_ion_list_comes_back(m: SelectedIonListModel)
    ensures
        tree_selected_ion_list(selected_ion_list_tree(m)) == Some(bare_selected_ion_list(m)),
{
    lemma_fields_come_back();
    lemma_each_selected_ion_comes_back(m.selected_ions);
    let xs = children_of(selected_ion_list_tree(m));
    assert(xs[0] == opt_usize_tree(m.count));
    assert(xs[1] == each_selected_ion_tree(m.selected_ions));
    assert(tree_selected_ion_list(selected_ion_list_tree(m)).unwrap() =~~= bare_selected_ion_list(m));
}

/// Makes the tree of one selected ion list.
pub fn make_selected_ion_list_tree(x: &SelectedIonList) -> (t: Tree)
    ensures
        model_of(t) == selected_ion_list_tree(x.deep_view()),
{
    let mut items: Vec<Tree> = Vec::new();
    items.push(make_opt_usize_tree(&x.count));
    items.push(make_each_selected_ion_tree(&x.selected_ions));
    proof {
        lemma_list_model(items);
        assert(models(items@)[0] == model_of(items@[0]));
        assert(models(items@)[1] == model_of(items@[1]));
        assert(models(items@) =~= children_of(selected_ion_list_tree(x.deep_view())));
    }
    Tree::List(items)
}

/// Reads the selected ion list that a tree holds.
pub fn read_selected_ion_list_tree(t: &Tree) -> (r: Option<SelectedIonList>)
    ensures
        match r {
            Some(x) => tree_selected_ion_list(model_of(*t)) == Some(x.deep_view()),
            None => tree_selected_ion_list(model_of(*t)) is None,
        },
{
    match t {
        Tree::Leaf(_) => None,
        Tree::List(xs) => {
            proof {
                lemma_list_model(*xs);
            }
            if xs.len() != 2 {
                return None;
            }
            assert(models(xs@)[0] == model_of(xs@[0]));
            assert(models(xs@)[1] == model_of(xs@[1]));
            let got0 = match read_opt_usize_tree(&xs[0]) {
                Some(v) => v,
                None => {
                    return None;
                },
            };
            let got1 = match read_each_selected_ion_tree(&xs[1]) {
                Some(v) => v,
                None => {
                    return None;
                },
            };
            let x = SelectedIonList {
                count: got0,
                selected_ions: got1,
            };
            assert(x.deep_view() =~~= tree_selected_ion_list(model_of(*t)).unwrap());
            Some(x)
        },
    }
}

/// One selected ion list holds no arrays, so nothing is taken out of it.
pub proof fn lemma_bare_selected_ion_list(m: SelectedIonListModel)
    ensures
        bare_selected_ion_list(m) == m,
{
    lemma_bare_each_selected_ion(m.selected_ions);
    assert(bare_selected_ion_list(m) =~~= m);
}

/// An optional selected ion list holds no arrays, so nothing is taken out of it.
pub proof fn lemma_bare_opt_selected_ion_list(o: Option<SelectedIonListModel>)
    ensures
        bare_opt_selected_ion_list(o) == o,
{
    match o {
        Some(m) => {
            lemma_bare_selected_ion_list(m);
        },
        None => {},
    }
}

/// The tree of an optional selected ion list: a list of none or of one.
pub open spec fn opt_selected_ion_list_tree(o: Option<SelectedIonListModel>) -> TreeModel {
    match o {
        Some(m) => TreeModel::List(seq![selected_ion_list_tree(m)]),
        None => TreeModel::List(Seq::empty()),
    }
}

/// An optional selected ion list without the elements of its arrays.
pub open spec fn bare_opt_selected_ion_list(o: Option<SelectedIonListModel>) -> Option<SelectedIonListModel> {
    match o {
        Some(m) => Some(bare_selected_ion_list(m)),
        None => None,
    }
}

/// The optional selected ion list that a tree holds.
pub open spec fn tree_opt_selected_ion_list(t: TreeModel) -> Option<Option<SelectedIonListModel>> {
    match t {
        TreeModel::List(xs) => if xs.len() == 0 {
            Some(None)
        } else if xs.len() == 1 && tree_selected_ion_list(xs[0]) is Some {
            Some(Some(tree_selected_ion_list(xs[0]).unwrap()))
        } else {
            None
        },
        TreeModel::Leaf(_) => None,
    }
}

/// An optional selected ion list comes back from its tree as it went in, but for the
/// elements of its arrays.
pub proof fn lemma_opt_selected_ion_list_comes_back(o: Option<SelectedIonListModel>)
    ensures
        tree_opt_selected_ion_list(opt_selected_ion_list_tree(o)) == Some(bare_opt_selected_ion_list(o)),
{
    match o {
        Some(m) => {
            lemma_selected_ion_list_comes_back(m);
            assert(children_of(opt_selected_ion_list_tree(o))[0] == selected_ion_list_tree(m));
        },
        None => {},
    }
}

/// Makes the tree of an optional selected ion list.
pub fn make_opt_selected_ion_list_tree(o: &Option<SelectedIonList>) -> (t: Tree)
    ensures
        model_of(t) == opt_selected_ion_list_tree(o.deep_view()),
{
    let mut items: Vec<Tree> = Vec::new();
    match o {
        Some(x) => {
            items.push(make_selected_ion_list_tree(x));
        },
        None => {},
    }
    proof {
        lemma_list_model(items);
        assert(models(items@) =~= children_of(opt_selected_ion_list_tree(o.deep_view())));
    }
    Tree::List(items)
}

/// Reads the optional selected ion list that a tree holds.
pub fn read_opt_selected_ion_list_tree(t: &Tree) -> (r: Option<Option<SelectedIonList>>)
    ensures
        match r {
            Some(o) => tree_opt_selected_ion_list(model_of(*t)) == Some(o.deep_view()),
            None => tree_opt_selected_ion_list(model_of(*t)) is None,
        },
{
    match t {
        Tree::Leaf(_) => None,
        Tree::List(xs) => {
            proof {
                lemma_list_model(*xs);
            }
            if xs.len() == 0 {
                return Some(None);
            }
            if xs.len() != 1 {
                return None;
            }
            assert(models(xs@)[0] == model_of(xs@[0]));
            match read_selected_ion_list_tree(&xs[0]) {
                Some(x) => Some(Some(x)),
                None => None,
            }
        },
    }
}

/// The tree of one activation: the trees of its fields, in their order.
pub open spec fn activation_tree(m: ActivationModel) -> TreeModel {
    TreeModel::List(seq![
        each_cv_param_tree(m.cv_params),
        each_user_param_tree(m.user_params),
    ])
}

/// One activation without the elements of its arrays.
pub open spec fn bare_activation(m: ActivationModel) -> ActivationModel {
    ActivationModel {
        cv_params: bare_each_cv_param(m.cv_params),
        user_params: bare_each_user_param(m.user_params),
    }
}

/// The activation that a tree holds.
pub open spec fn tree_activation(t: TreeModel) -> Option<ActivationModel> {
    match t {
        TreeModel::List(xs) => if xs.len() == 2
            && tree_each_cv_param(xs[0]) is Some
            && tree_each_user_param(xs[1]) is Some {
            Some(ActivationModel {
                cv_params: tree_each_cv_param(xs[0]).unwrap(),
                user_params: tree_each_user_param(xs[1]).unwrap(),
            })
        } else {
            None
        },
        TreeModel::Leaf(_) => None,
    }
}

/// One activation comes back from its tree as it went in, but for the
/// elements of its arrays.
pub proof fn lemma_activation_comes_back(m: ActivationModel)
    ensures
        tree_activation(activation_tree(m)) == Some(bare_activation(m)),
{
    lemma_fields_come_back();
    lemma_each_cv_param_comes_back(m.cv_params);
    lemma_each_user_param_comes_back(m.user_params);
    let xs = children_of(activation_tree(m));
    assert(xs[0] == each_cv_param_tree(m.cv_params));
    assert(xs[1] == each_user_param_tree(m.user_params));
    assert(tree_activation(activation_tree(m)).unwrap() =~~= bare_activation(m));
}

/// Makes the tree of one activation.
pub fn make_activation_tree(x: &Activation) -> (t: Tree)
    ensures
        model_of(t) == activation_tree(x.deep_view()),
{
    let mut items: Vec<Tree> = Vec::new();
    items.push(make_each_cv_param_tree(&x.cv_params));
    items.push(make_each_user_param_tree(&x.user_params));
    proof {
        lemma_list_model(items);
        assert(models(items@)[0] == model_of(items@[0]));
        assert(models(items@)[1] == model_of(items@[1]));
        assert(models(items@) =~= children_of(activation_tree(x.deep_view())));
    }
    Tree::List(items)
}

/// Reads the activation that a tree holds.
pub fn read_activation_tree(t: &Tree) -> (r: Option<Activation>)
    ensures
        match r {
            Some(x) => tree_activation(model_of(*t)) == Some(x.deep_view()),
            None => tree_activation(model_of(*t)) is None,
        },
{
    match t {
        Tree::Leaf(_) => None,
        Tree::List(xs) => {
            proof {
                lemma_list_model(*xs);
            }
            if xs.len() != 2 {
                return None;
            }
            assert(models(xs@)[0] == model_of(xs@[0]));
            assert(models(xs@)[1] == model_of(xs@[1]));
            let got0 = match read_each_cv_param_tree(&xs[0]) {
                Some(v) => v,
                None => {
                    return None;
                },
            };
            let got1 = match read_each_user_param_tree(&xs[1]) {
                Some(v) => v,
                None => {
                    return None;
                },
            };
            let x = Activation {
                cv_params: got0,
                user_params: got1,
            };
            assert(x.deep_view() =~~= tree_activation(model_of(*t)).unwrap());
            Some(x)
        },
    }
}

/// One activation holds no arrays, so nothing is taken out of it.
pub proof fn lemma_bare_activation(m: ActivationModel)
    ensures
        bare_activation(m) == m,
{
    lemma_bare_each_cv_param(m.cv_params);
    lemma_bare_each_user_param(m.user_params);
    assert(bare_activation(m) =~~= m);
}

/// An optional activation holds no arrays, so nothing is taken out of it.
pub proof fn lemma_bare_opt_activation(o: Option<ActivationModel>)
    ensures
        bare_opt_activation(o) == o,
{
    match o {
        Some(m) => {
            lemma_bare_activation(m);
        },
        None => {},
    }
}

/// The tree of an optional activation: a list of none or of one.
pub open spec fn opt_activation_tree(o: Option<ActivationModel>) -> TreeModel {
    match o {
        Some(m) => TreeModel::List(seq![activation_tree(m)]),
        None => TreeModel::List(Seq::empty()),
    }
}

/// An optional activation without the elements of its arrays.
pub open spec fn bare_opt_activation(o: Option<ActivationModel>) -> Option<ActivationModel> {
    match o {
        Some(m) => Some(bare_activation(m)),
        None => None,
    }
}

/// The optional activation that a tree holds.
pub open spec fn tree_opt_activation(t: TreeModel) -> Option<Option<ActivationModel>> {
    match t {
        TreeModel::List(xs) => if xs.len() == 0 {
            Some(None)
        } else if xs.len() == 1 && tree_activation(xs[0]) is Some {
            Some(Some(tree_activation(xs[0]).unwrap()))
        } else {
            None
        },
        TreeModel::Leaf(_) => None,
    }
}

/// An optional activation comes back from its tree as it went in, but for the
/// elements of its arrays.
pub proof fn lemma_opt_activation_comes_back(o: Option<ActivationModel>)
    ensures
        tree_opt_activation(opt_activation_tree(o)) == Some(bare_opt_activation(o)),
{
    match o {
        Some(m) => {
            lemma_activation_comes_back(m);
            assert(children_of(opt_activation_tree(o))[0] == activation_tree(m));
        },
        None => {},
    }
}

/// Makes the tree of an optional activation.
pub fn make_opt_activation_tree(o: &Option<Activation>) -> (t: Tree)
    ensures
        model_of(t) == opt_activation_tree(o.deep_view()),
{
    let mut items: Vec<Tree> = Vec::new();
    match o {
        Some(x) => {
            items.push(make_activation_tree(x));
        },
        None => {},
    }
    proof {
        lemma_list_model(items);
        assert(models(items@) =~= children_of(opt_activation_tree(o.deep_view())));
    }
    Tree::List(items)
}

/// Reads the optional activation that a tree holds.
pub fn read_opt_activation_tree(t: &Tree) -> (r: Option<Option<Activation>>)
    ensures
        match r {
            Some(o) => tree_opt_activation(model_of(*t)) == Some(o.deep_view()),
            None => tree_opt_activation(model_of(*t)) is None,
        },
{
    match t {
        Tree::Leaf(_) => None,
        Tree::List(xs) => {
            proof {
                lemma_list_model(*xs);
            }
            if xs.len() == 0 {
                return Some(None);
            }
            if xs.len() != 1 {
                return None;
            }
            assert(models(xs@)[0] == model_of(xs@[0]));
            match read_activation_tree(&xs[0]) {
                Some(x) => Some(Some(x)),
                None => None,
            }
        },
    }
}

/// The tree of one precursor: the trees of its fields, in their order.
pub open spec fn precursor_tree(m: PrecursorModel) -> TreeModel {
    TreeModel::List(seq![
        opt_text_tree(m.spectrum_ref),
        opt_isolation_window_tree(m.isolation_window),
        opt_selected_ion_list_tree(m.selected_ion_list),
        opt_activation_tree(m.activation),
    ])
}

/// One precursor without the elements of its arrays.
pub open spec fn bare_precursor(m: PrecursorModel) -> PrecursorModel {
    PrecursorModel {
        spectrum_ref: m.spectrum_ref,
        isolation_window: bare_opt_isolation_window(m.isolation_window),
        selected_ion_list: bare_opt_selected_ion_list(m.selected_ion_list),
        activation: bare_opt_activation(m.activation),
    }
}

/// The precursor that a tree holds.
pub open spec fn tree_precursor(t: TreeModel) -> Option<PrecursorModel> {
    match t {
        TreeModel::List(xs) => if xs.len() == 4
            && tree_opt_text(xs[0]) is Some
            && tree_opt_isolation_window(xs[1]) is Some
            && tree_opt_selected_ion_list(xs[2]) is Some
            && tree_opt_activation(xs[3]) is Some {
            Some(PrecursorModel {
                spectrum_ref: tree_opt_text(xs[0]).unwrap(),
                isolation_window: tree_opt_isolation_window(xs[1]).unwrap(),
                selected_ion_list: tree_opt_selected_ion_list(xs[2]).unwrap(),
                activation: tree_opt_activation(xs[3]).unwrap(),
            })
        } else {
            None
        },
        TreeModel::Leaf(_) => None,
    }
}

/// One precursor comes back from its tree as it went in, but for the
/// elements of its arrays.
pub proof fn lemma_precursor_comes_back(m: PrecursorModel)
    ensures
        tree_precursor(precursor_tree(m)) == Some(bare_precursor(m)),
{
    lemma_fields_come_back();
    lemma_opt_isolation_window_comes_back(m.isolation_window);
    lemma_opt_selected_ion_list_comes_back(m.selected_ion_list);
    lemma_opt_activation_comes_back(m.activation);
    let xs = children_of(precursor_tree(m));
    assert(xs[0] == opt_text_tree(m.spectrum_ref));
    assert(xs[1] == opt_isolation_window_tree(m.isolation_window));
    assert(xs[2] == opt_selected_ion_list_tree(m.selected_ion_list));
    assert(xs[3] == opt_activation_tree(m.activation));
    assert(tree_precursor(precursor_tree(m)).unwrap() =~~= bare_precursor(m));
}

/// Makes the tree of one precursor.
pub fn make_precursor_tree(x: &Precursor) -> (t: Tree)
    ensures
        model_of(t) == precursor_tree(x.deep_view()),
{
    let mut items: Vec<Tree> = Vec::new();
    items.push(make_opt_text_tree(&x.spectrum_ref));
    items.push(make_opt_isolation_window_tree(&x.isolation_window));
    items.push(make_opt_selected_ion_list_tree(&x.selected_ion_list));
    items.push(make_opt_activation_tree(&x.activation));
    proof {
        lemma_list_model(items);
        assert(models(items@)[0] == model_of(items@[0]));
        assert(models(items@)[1] == model_of(items@[1]));
        assert(models(items@)[2] == model_of(items@[2]));
        assert(models(items@)[3] == model_of(items@[3]));
        assert(models(items@) =~= children_of(precursor_tree(x.deep_view())));
    }
    Tree::List(items)
}

/// Reads the precursor that a tree holds.
pub fn read_precursor_tree(t: &Tree) -> (r: Option<Precursor>)
    ensures
        match r {
            Some(x) => tree_precursor(model_of(*t)) == Some(x.deep_view()),
            None => tree_precursor(model_of(*t)) is None,
        },
{
    match t {
        Tree::Leaf(_) => None,
        Tree::List(xs) => {
            proof {
                lemma_list_model(*xs);
            }
            if xs.len() != 4 {
                return None;
            }
            assert(models(xs@)[0] == model_of(xs@[0]));
            assert(models(xs@)[1] == model_of(xs@[1]));
            assert(models(xs@)[2] == model_of(xs@[2]));
            assert(models(xs@)[3] == model_of(xs@[3]));
            let got0 = match read_opt_text_tree(&xs[0]) {
                Some(v) => v,
                None => {
                    return None;
                },
            };
            let got1 = match read_opt_isolation_window_tree(&xs[1]) {
                Some(v) => v,
                None => {
                    return None;
                },
            };
            let got2 = match read_opt_selected_ion_list_tree(&xs[2]) {
                Some(v) => v,
                None => {
                    return None;
                },
            };
            let got3 = match read_opt_activation_tree(&xs[3]) {
                Some(v) => v,
                None => {
                    return None;
                },
            };
            let x = Precursor {
                spectrum_ref: got0,
                isolation_window: got1,
                selected_ion_list: got2,
                activation: got3,
            };
            assert(x.deep_view() =~~= tree_precursor(model_of(*t)).unwrap());
            Some(x)
        },
    }
}

/// One precursor holds no arrays, so nothing is taken out of it.
pub proof fn lemma_bare_precursor(m: PrecursorModel)
    ensures
        bare_precursor(m) == m,
{
    lemma_bare_opt_isolation_window(m.isolation_window);
    lemma_bare_opt_selected_ion_list(m.selected_ion_list);
    lemma_bare_opt_activation(m.activation);
    assert(bare_precursor(m) =~~= m);
}

/// A list of elements that are each one precursor holds no arrays, so nothing
/// is taken out of it.
pub proof fn lemma_bare_each_precursor(ms: Seq<PrecursorModel>)
    ensures
        bare_each_precursor(ms) == ms,
{
    assert forall|k: int| 0 <= k < ms.len() implies #[trigger] bare_precursor(ms[k]) == ms[k] by {
        lemma_bare_precursor(ms[k]);
    }
    assert(bare_each_precursor(ms) =~= ms);
}

/// An optional precursor holds no arrays, so nothing is taken out of it.
pub proof fn lemma_bare_opt_precursor(o: Option<PrecursorModel>)
    ensures
        bare_opt_precursor(o) == o,
{
    match o {
        Some(m) => {
            lemma_bare_precursor(m);
        },
        None => {},
    }
}

/// The tree of a list: the tree of each precursor, in their order.
pub open spec fn each_precursor_tree(ms: Seq<PrecursorModel>) -> TreeModel {
    TreeModel::List(Seq::new(ms.len(), |k: int| precursor_tree(ms[k])))
}

/// Each precursor of a list without the elements of its arrays.
pub open spec fn bare_each_precursor(ms: Seq<PrecursorModel>) -> Seq<PrecursorModel> {
    Seq::new(ms.len(), |k: int| bare_precursor(ms[k]))
}

/// The list that a tree holds: each of its trees as one precursor.
pub open spec fn tree_each_precursor(t: TreeModel) -> Option<Seq<PrecursorModel>> {
    match t {
        TreeModel::List(xs) => if forall|k: int|
            0 <= k < xs.len() ==> (#[trigger] tree_precursor(xs[k])) is Some {
            Some(Seq::new(xs.len(), |k: int| tree_precursor(xs[k]).unwrap()))
        } else {
            None
        },
        TreeModel::Leaf(_) => None,
    }
}

/// Each precursor of a list comes back from the tree of the list as it
/// went in, but for the elements of its arrays.
pub proof fn lemma_each_precursor_comes_back(ms: Seq<PrecursorModel>)
    ensures
        tree_each_precursor(each_precursor_tree(ms)) == Some(bare_each_precursor(ms)),
{
    let xs = children_of(each_precursor_tree(ms));
    assert forall|k: int| 0 <= k < xs.len() implies #[trigger] tree_precursor(xs[k]) == Some(
        bare_precursor(ms[k]),
    ) by {
        lemma_precursor_comes_back(ms[k]);
    }
    assert(tree_each_precursor(each_precursor_tree(ms)).unwrap() =~= bare_each_precursor(ms));
}

/// Makes the tree of a list, of each precursor.
pub fn make_each_precursor_tree(v: &Vec<Precursor>) -> (t: Tree)
    ensures
        model_of(t) == each_precursor_tree(v.deep_view()),
{
    let ghost ms = v.deep_view();
    let mut items: Vec<Tree> = Vec::new();
    let mut i: usize = 0;
    while i < v.len()
        invariant
            i <= v@.len(),
            ms == v.deep_view(),
            items@.len() == i,
            forall|k: int| 0 <= k < i ==> model_of(#[trigger] items@[k]) == precursor_tree(ms[k]),
        decreases v@.len() - i,
    {
        assert(ms[i as int] == v@[i as int].deep_view());
        items.push(make_precursor_tree(&v[i]));
        i = i + 1;
    }
    proof {
        lemma_list_model(items);
        assert(models(items@) =~= children_of(each_precursor_tree(ms)));
    }
    Tree::List(items)
}

/// Reads the list that a tree holds, each of its trees as one precursor.
pub fn read_each_precursor_tree(t: &Tree) -> (r: Option<Vec<Precursor>>)
    ensures
        match r {
            Some(v) => tree_each_precursor(model_of(*t)) == Some(v.deep_view()),
            None => tree_each_precursor(model_of(*t)) is None,
        },
{
    match t {
        Tree::Leaf(_) => None,
        Tree::List(xs) => {
            proof {
                lemma_list_model(*xs);
            }
            let ghost tm = models(xs@);
            let mut out: Vec<Precursor> = Vec::new();
            let mut i: usize = 0;
            while i < xs.len()
                invariant
                    i <= xs@.len(),
                    tm == models(xs@),
                    model_of(*t) == TreeModel::List(tm),
                    out@.len() == i,
                    forall|k: int|
                        0 <= k < i ==> #[trigger] tree_precursor(tm[k]) == Some(out@[k].deep_view()),
                decreases xs@.len() - i,
            {
                assert(tm[i as int] == model_of(xs@[i as int]));
                match read_precursor_tree(&xs[i]) {
                    Some(x) => {
                        out.push(x);
                    },
                    None => {
                        assert(tree_precursor(tm[i as int]) is None);
                        return None;
                    },
                }
                i = i + 1;
            }
            assert(out.deep_view() =~= tree_each_precursor(model_of(*t)).unwrap());
            Some(out)
        },
    }
}

/// The tree of an optional precursor: a list of none or of one.
pub open spec fn opt_precursor_tree(o: Option<PrecursorModel>) -> TreeModel {
    match o {
        Some(m) => TreeModel::List(seq![precursor_tree(m)]),
        None => TreeModel::List(Seq::empty()),
    }
}

/// An optional precursor without the elements of its arrays.
pub open spec fn bare_opt_precursor(o: Option<PrecursorModel>) -> Option<PrecursorModel> {
    match o {
        Some(m) => Some(bare_precursor(m)),
        None => None,
    }
}

/// The optional precursor that a tree holds.
pub open spec fn tree_opt_precursor(t: TreeModel) -> Option<Option<PrecursorModel>> {
    match t {
        TreeModel::List(xs) => if xs.len() == 0 {
            Some(None)
        } else if xs.len() == 1 && tree_precursor(xs[0]) is Some {
            Some(Some(tree_precursor(xs[0]).unwrap()))
        } else {
            None
        },
        TreeModel::Leaf(_) => None,
    }
}

/// An optional precursor comes back from its tree as it went in, but for the
/// elements of its arrays.
pub proof fn lemma_opt_precursor_comes_back(o: Option<PrecursorModel>)
    ensures
        tree_opt_precursor(opt_precursor_tree(o)) == Some(bare_opt_precursor(o)),
{
    match o {
        Some(m) => {
            lemma_precursor_comes_back(m);
            assert(children_of(opt_precursor_tree(o))[0] == precursor_tree(m));
        },
        None => {},
    }
}

/// Makes the tree of an optional precursor.
pub fn make_opt_precursor_tree(o: &Option<Precursor>) -> (t: Tree)
    ensures
        model_of(t) == opt_precursor_tree(o.deep_view()),
{
    let mut items: Vec<Tree> = Vec::new();
    match o {
        Some(x) => {
            items.push(make_precursor_tree(x));
        },
        None => {},
    }
    proof {
        lemma_list_model(items);
        assert(models(items@) =~= children_of(opt_precursor_tree(o.deep_view())));
    }
    Tree::List(items)
}

/// Reads the optional precursor that a tree holds.
pub fn read_opt_precursor_tree(t: &Tree) -> (r: Option<Option<Precursor>>)
    ensures
        match r {
            Some(o) => tree_opt_precursor(model_of(*t)) == Some(o.deep_view()),
            None => tree_opt_precursor(model_of(*t)) is None,
        },
{
    match t {
        Tree::Leaf(_) => None,
        Tree::List(xs) => {
            proof {
                lemma_list_model(*xs);
            }
            if xs.len() == 0 {
                return Some(None);
            }
            if xs.len() != 1 {
                return None;
            }
            assert(models(xs@)[0] == model_of(xs@[0]));
            match read_precursor_tree(&xs[0]) {
                Some(x) => Some(Some(x)),
                None => None,
            }
        },
    }
}

/// The tree of one precursor list: the trees of its fields, in their order.
pub open spec fn precursor_list_tree(m: PrecursorListModel) -> TreeModel {
    TreeModel::List(seq![
        opt_usize_tree(m.count),
        each_precursor_tree(m.precursors),
    ])
}

/// One precursor list without the elements of its arrays.
pub open spec fn bare_precursor_list(m: PrecursorListModel) -> PrecursorListModel {
    PrecursorListModel {
        count: m.count,
        precursors: bare_each_precursor(m.precursors),
    }
}

/// The precursor list that a tree holds.
pub open spec fn tree_precursor_list(t: TreeModel) -> Option<PrecursorListModel> {
    match t {
        TreeModel::List(xs) => if xs.len() == 2
            && tree_opt_usize(xs[0]) is Some
            && tree_each_precursor(xs[1]) is Some {
            Some(PrecursorListModel {
                count: tree_opt_usize(xs[0]).unwrap(),
                precursors: tree_each_precursor(xs[1]).unwrap(),
            })
        } else {
            None
        },
        TreeModel::Leaf(_) => None,
    }
}

/// One precursor list comes back from its tree as it went in, but for the
/// elements of its arrays.
pub proof fn lemma_precursor_list_comes_back(m: PrecursorListModel)
    ensures
        tree_precursor_list(precursor_list_tree(m)) == Some(bare_precursor_list(m)),
{
    lemma_fields_come_back();
    lemma_each_precursor_comes_back(m.precursors);
    let xs = children_of(precursor_list_tree(m));
    assert(xs[0] == opt_usize_tree(m.count));
    assert(xs[1] == each_precursor_tree(m.precursors));
    assert(tree_precursor_list(precursor_list_tree(m)).unwrap() =~~= bare_precursor_list(m));
}

/// Makes the tree of one precursor list.
pub fn make_precursor_list_tree(x: &PrecursorList) -> (t: Tree)
    ensures
        model_of(t) == precursor_list_tree(x.deep_view()),
{
    let mut items: Vec<Tree> = Vec::new();
    items.push(make_opt_usize_tree(&x.count));
    items.push(make_each_precursor_tree(&x.precursors));
    proof {
        lemma_list_model(items);
        assert(models(items@)[0] == model_of(items@[0]));
        assert(models(items@)[1] == model_of(items@[1]));
        assert(models(items@) =~= children_of(precursor_list_tree(x.deep_view())));
    }
    Tree::List(items)
}

/// Reads the precursor list that a tree holds.
pub fn read_precursor_list_tree(t: &Tree) -> (r: Option<PrecursorList>)
    ensures
        match r {
            Some(x) => tree_precursor_list(model_of(*t)) == Some(x.deep_view()),
            None => tree_precursor_list(model_of(*t)) is None,
        },
{
    match t {
        Tree::Leaf(_) => None,
        Tree::List(xs) => {
            proof {
                lemma_list_model(*xs);
            }
            if xs.len() != 2 {
                return None;
            }
            assert(models(xs@)[0] == model_of(xs@[0]));
            assert(models(xs@)[1] == model_of(xs@[1]));
            let got0 = match read_opt_usize_tree(&xs[0]) {
                Some(v) => v,
                None => {
                    return None;
                },
            };
            let got1 = match read_each_precursor_tree(&xs[1]) {
                Some(v) => v,
                None => {
                    return None;
                },
            };
            let x = PrecursorList {
                count: got0,
                precursors: got1,
            };
            assert(x.deep_view() =~~= tree_precursor_list(model_of(*t)).unwrap());
            Some(x)
        },
    }
}

/// One precursor list holds no arrays, so nothing is taken out of it.
pub proof fn lemma_bare_precursor_list(m: PrecursorListModel)
    ensures
        bare_precursor_list(m) == m,
{
    lemma_bare_each_precursor(m.precursors);
    assert(bare_precursor_list(m) =~~= m);
}

/// An optional precursor list holds no arrays, so nothing is taken out of it.
pub proof fn lemma_bare_opt_precursor_list(o: Option<PrecursorListModel>)
    ensures
        bare_opt_precursor_list(o) == o,
{
    match o {
        Some(m) => {
            lemma_bare_precursor_list(m);
        },
        None => {},
    }
}

/// The tree of an optional precursor list: a list of none or of one.
pub open spec fn opt_precursor_list_tree(o: Option<PrecursorListModel>) -> TreeModel {
    match o {
        Some(m) => TreeModel::List(seq![precursor_list_tree(m)]),
        None => TreeModel::List(Seq::empty()),
    }
}

/// An optional precursor list without the elements of its arrays.
pub open spec fn bare_opt_precursor_list(o: Option<PrecursorListModel>) -> Option<PrecursorListModel> {
    match o {
        Some(m) => Some(bare_precursor_list(m)),
        None => None,
    }
}

/// The optional precursor list that a tree holds.
pub open spec fn tree_opt_precursor_list(t: TreeModel) -> Option<Option<PrecursorListModel>> {
    match t {
        TreeModel::List(xs) => if xs.len() == 0 {
            Some(None)
        } else if xs.len() == 1 && tree_precursor_list(xs[0]) is Some {
            Some(Some(tree_precursor_list(xs[0]).unwrap()))
        } else {
            None
        },
        TreeModel::Leaf(_) => None,
    }
}

/// An optional precursor list comes back from its tree as it went in, but for the
/// elements of its arrays.
pub proof fn lemma_opt_precursor_list_comes_back(o: Option<PrecursorListModel>)
    ensures
        tree_opt_precursor_list(opt_precursor_list_tree(o)) == Some(bare_opt_precursor_list(o)),
{
    match o {
        Some(m) => {
            lemma_precursor_list_comes_back(m);
            assert(children_of(opt_precursor_list_tree(o))[0] == precursor_list_tree(m));
        },
        None => {},
    }
}

/// Makes the tree of an optional precursor list.
pub fn make_opt_precursor_list_tree(o: &Option<PrecursorList>) -> (t: Tree)
    ensures
        model_of(t) == opt_precursor_list_tree(o.deep_view()),
{
    let mut items: Vec<Tree> = Vec::new();
    match o {
        Some(x) => {
            items.push(make_precursor_list_tree(x));
        },
        None => {},
    }
    proof {
        lemma_list_model(items);
        assert(models(items@) =~= children_of(opt_precursor_list_tree(o.deep_view())));
    }
    Tree::List(items)
}

/// Reads the optional precursor list that a tree holds.
pub fn read_opt_precursor_list_tree(t: &Tree) -> (r: Option<Option<PrecursorList>>)
    ensures
        match r {
            Some(o) => tree_opt_precursor_list(model_of(*t)) == Some(o.deep_view()),
            None => tree_opt_precursor_list(model_of(*t)) is None,
        },
{
    match t {
        Tree::Leaf(_) => None,
        Tree::List(xs) => {
            proof {
                lemma_list_model(*xs);
            }
            if xs.len() == 0 {
                return Some(None);
            }
            if xs.len() != 1 {
                return None;
            }
            assert(models(xs@)[0] == model_of(xs@[0]));
            match read_precursor_list_tree(&xs[0]) {
                Some(x) => Some(Some(x)),
                None => None,
            }
        },
    }
}

/// The tree of one product: the trees of its fields, in their order.
pub open spec fn product_tree(m: ProductModel) -> TreeModel {
    TreeModel::List(seq![
        opt_isolation_window_tree(m.isolation_window),
    ])
}

/// One product without the elements of its arrays.
pub open spec fn bare_product(m: ProductModel) -> ProductModel {
    ProductModel {
        isolation_window: bare_opt_isolation_window(m.isolation_window),
    }
}

/// The product that a tree holds.
pub open spec fn tree_product(t: TreeModel) -> Option<ProductModel> {
    match t {
        TreeModel::List(xs) => if xs.len() == 1
            && tree_opt_isolation_window(xs[0]) is Some {
            Some(ProductModel {
                isolation_window: tree_opt_isolation_window(xs[0]).unwrap(),
            })
        } else {
            None
        },
        TreeModel::Leaf(_) => None,
    }
}

/// One product comes back from its tree as it went in, but for the
/// elements of its arrays.
pub proof fn lemma_product_comes_back(m: ProductModel)
    ensures
        tree_product(product_tree(m)) == Some(bare_product(m)),
{
    lemma_fields_come_back();
    lemma_opt_isolation_window_comes_back(m.isolation_window);
    let xs = children_of(product_tree(m));
    assert(xs[0] == opt_isolation_window_tree(m.isolation_window));
    assert(tree_product(product_tree(m)).unwrap() =~~= bare_product(m));
}

/// Makes the tree of one product.
pub fn make_product_tree(x: &Product) -> (t: Tree)
    ensures
        model_of(t) == product_tree(x.deep_view()),
{
    let mut items: Vec<Tree> = Vec::new();
    items.push(make_opt_isolation_window_tree(&x.isolation_window));
    proof {
        lemma_list_model(items);
        assert(models(items@)[0] == model_of(items@[0]));
        assert(models(items@) =~= children_of(product_tree(x.deep_view())));
    }
    Tree::List(items)
}

/// Reads the product that a tree holds.
pub fn read_product_tree(t: &Tree) -> (r: Option<Product>)
    ensures
        match r {
            Some(x) => tree_product(model_of(*t)) == Some(x.deep_view()),
            None => tree_product(model_of(*t)) is None,
        },
{
    match t {
        Tree::Leaf(_) => None,
        Tree::List(xs) => {
            proof {
                lemma_list_model(*xs);
            }
            if xs.len() != 1 {
                return None;
            }
            assert(models(xs@)[0] == model_of(xs@[0]));
            let got0 = match read_opt_isolation_window_tree(&xs[0]) {
                Some(v) => v,
                None => {
                    return None;
                },
            };
            let x = Product {
                isolation_window: got0,
            };
            assert(x.deep_view() =~~= tree_product(model_of(*t)).unwrap());
            Some(x)
        },
    }
}

/// One product holds no arrays, so nothing is taken out of it.
pub proof fn lemma_bare_product(m: ProductModel)
    ensures
        bare_product(m) == m,
{
    lemma_bare_opt_isolation_window(m.isolation_window);
    assert(bare_product(m) =~~= m);
}

/// A list of elements that are each one product holds no arrays, so nothing
/// is taken out of it.
pub proof fn lemma_bare_each_product(ms: Seq<ProductModel>)
    ensures
        bare_each_product(ms) == ms,
{
    assert forall|k: int| 0 <= k < ms.len() implies #[trigger] bare_product(ms[k]) == ms[k] by {
        lemma_bare_product(ms[k]);
    }
    assert(bare_each_product(ms) =~= ms);
}

/// An optional product holds no arrays, so nothing is taken out of it.
pub proof fn lemma_bare_opt_product(o: Option<ProductModel>)
    ensures
        bare_opt_product(o) == o,
{
    match o {
        Some(m) => {
            lemma_bare_product(m);
        },
        None => {},
    }
}

/// The tree of a list: the tree of each product, in their order.
pub open spec fn each_product_tree(ms: Seq<ProductModel>) -> TreeModel {
    TreeModel::List(Seq::new(ms.len(), |k: int| product_tree(ms[k])))
}

/// Each product of a list without the elements of its arrays.
pub open spec fn bare_each_product(ms: Seq<ProductModel>) -> Seq<ProductModel> {
    Seq::new(ms.len(), |k: int| bare_product(ms[k]))
}

/// The list that a tree holds: each of its trees as one product.
pub open spec fn tree_each_product(t: TreeModel) -> Option<Seq<ProductModel>> {
    match t {
        TreeModel::List(xs) => if forall|k: int|
            0 <= k < xs.len() ==> (#[trigger] tree_product(xs[k])) is Some {
            Some(Seq::new(xs.len(), |k: int| tree_product(xs[k]).unwrap()))
        } else {
            None
        },
        TreeModel::Leaf(_) => None,
    }
}

/// Each product of a list comes back from the tree of the list as it
/// went in, but for the elements of its arrays.
pub proof fn lemma_each_product_comes_back(ms: Seq<ProductModel>)
    ensures
        tree_each_product(each_product_tree(ms)) == Some(bare_each_product(ms)),
{
    let xs = children_of(each_product_tree(ms));
    assert forall|k: int| 0 <= k < xs.len() implies #[trigger] tree_product(xs[k]) == Some(
        bare_product(ms[k]),
    ) by {
        lemma_product_comes_back(ms[k]);
    }
    assert(tree_each_product(each_product_tree(ms)).unwrap() =~= bare_each_product(ms));
}

/// Makes the tree of a list, of each product.
pub fn make_each_product_tree(v: &Vec<Product>) -> (t: Tree)
    ensures
        model_of(t) == each_product_tree(v.deep_view()),
{
    let ghost ms = v.deep_view();
    let mut items: Vec<Tree> = Vec::new();
    let mut i: usize = 0;
    while i < v.len()
        invariant
            i <= v@.len(),
            ms == v.deep_view(),
            items@.len() == i,
            forall|k: int| 0 <= k < i ==> model_of(#[trigger] items@[k]) == product_tree(ms[k]),
        decreases v@.len() - i,
    {
        assert(ms[i as int] == v@[i as int].deep_view());
        items.push(make_product_tree(&v[i]));
        i = i + 1;
    }
    proof {
        lemma_list_model(items);
        assert(models(items@) =~= children_of(each_product_tree(ms)));
    }
    Tree::List(items)
}

/// Reads the list that a tree holds, each of its trees as one product.
pub fn read_each_product_tree(t: &Tree) -> (r: Option<Vec<Product>>)
    ensures
        match r {
            Some(v) => tree_each_product(model_of(*t)) == Some(v.deep_view()),
            None => tree_each_product(model_of(*t)) is None,
        },
{
    match t {
        Tree::Leaf(_) => None,
        Tree::List(xs) => {
            proof {
                lemma_list_model(*xs);
            }
            let ghost tm = models(xs@);
            let mut out: Vec<Product> = Vec::new();
            let mut i: usize = 0;
            while i < xs.len()
                invariant
                    i <= xs@.len(),
                    tm == models(xs@),
                    model_of(*t) == TreeModel::List(tm),
                    out@.len() == i,
                    forall|k: int|
                        0 <= k < i ==> #[trigger] tree_product(tm[k]) == Some(out@[k].deep_view()),
                decreases xs@.len() - i,
            {
                assert(tm[i as int] == model_of(xs@[i as int]));
                match read_product_tree(&xs[i]) {
                    Some(x) => {
                        out.push(x);
                    },
                    None => {
                        assert(tree_product(tm[i as int]) is None);
                        return None;
                    },
                }
                i = i + 1;
            }
            assert(out.deep_view() =~= tree_each_product(model_of(*t)).unwrap());
            Some(out)
        },
    }
}

/// The tree of an optional product: a list of none or of one.
pub open spec fn opt_product_tree(o: Option<ProductModel>) -> TreeModel {
    match o {
        Some(m) => TreeModel::List(seq![product_tree(m)]),
        None => TreeModel::List(Seq::empty()),
    }
}

/// An optional product without the elements of its arrays.
pub open spec fn bare_opt_product(o: Option<ProductModel>) -> Option<ProductModel> {
    match o {
        Some(m) => Some(bare_product(m)),
        None => None,
    }
}

/// The optional product that a tree holds.
pub open spec fn tree_opt_product(t: TreeModel) -> Option<Option<ProductModel>> {
    match t {
        TreeModel::List(xs) => if xs.len() == 0 {
            Some(None)
        } else if xs.len() == 1 && tree_product(xs[0]) is Some {
            Some(Some(tree_product(xs[0]).unwrap()))
        } else {
            None
        },
        TreeModel::Leaf(_) => None,
    }
}

/// An optional product comes back from its tree as it went in, but for the
/// elements of its arrays.
pub proof fn lemma_opt_product_comes_back(o: Option<ProductModel>)
    ensures
        tree_opt_product(opt_product_tree(o)) == Some(bare_opt_product(o)),
{
    match o {
        Some(m) => {
            lemma_product_comes_back(m);
            assert(children_of(opt_product_tree(o))[0] == product_tree(m));
        },
        None => {},
    }
}

/// Makes the tree of an optional product.
pub fn make_opt_product_tree(o: &Option<Product>) -> (t: Tree)
    ensures
        model_of(t) == opt_product_tree(o.deep_view()),
{
    let mut items: Vec<Tree> = Vec::new();
    match o {
        Some(x) => {
            items.push(make_product_tree(x));
        },
        None => {},
    }
    proof {
        lemma_list_model(items);
        assert(models(items@) =~= children_of(opt_product_tree(o.deep_view())));
    }
    Tree::List(items)
}

/// Reads the optional product that a tree holds.
pub fn read_opt_product_tree(t: &Tree) -> (r: Option<Option<Product>>)
    ensures
        match r {
            Some(o) => tree_opt_product(model_of(*t)) == Some(o.deep_view()),
            None => tree_opt_product(model_of(*t)) is None,
        },
{
    match t {
        Tree::Leaf(_) => None,
        Tree::List(xs) => {
            proof {
                lemma_list_model(*xs);
            }
            if xs.len() == 0 {
                return Some(None);
            }
            if xs.len() != 1 {
                return None;
            }
            assert(models(xs@)[0] == model_of(xs@[0]));
            match read_product_tree(&xs[0]) {
                Some(x) => Some(Some(x)),
                None => None,
            }
        },
    }
}

/// The tree of one product list: the trees of its fields, in their order.
pub open spec fn product_list_tree(m: ProductListModel) -> TreeModel {
    TreeModel::List(seq![
        opt_usize_tree(m.count),
        each_product_tree(m.products),
    ])
}

/// One product list without the elements of its arrays.
pub open spec fn bare_product_list(m: ProductListModel) -> ProductListModel {
    ProductListModel {
        count: m.count,
        products: bare_each_product(m.products),
    }
}

/// The product list that a tree holds.
pub open spec fn tree_product_list(t: TreeModel) -> Option<ProductListModel> {
    match t {
        TreeModel::List(xs) => if xs.len() == 2
            && tree_opt_usize(xs[0]) is Some
            && tree_each_product(xs[1]) is Some {
            Some(ProductListModel {
                count: tree_opt_usize(xs[0]).unwrap(),
                products: tree_each_product(xs[1]).unwrap(),
            })
        } else {
            None
        },
        TreeModel::Leaf(_) => None,
    }
}

/// One product list comes back from its tree as it went in, but for the
/// elements of its arrays.
pub proof fn lemma_product_list_comes_back(m: ProductListModel)
    ensures
        tree_product_list(product_list_tree(m)) == Some(bare_product_list(m)),
{
    lemma_fields_come_back();
    lemma_each_product_comes_back(m.products);
    let xs = children_of(product_list_tree(m));
    assert(xs[0] == opt_usize_tree(m.count));
    assert(xs[1] == each_product_tree(m.products));
    assert(tree_product_list(product_list_tree(m)).unwrap() =~~= bare_product_list(m));
}

/// Makes the tree of one product list.
pub fn make_product_list_tree(x: &ProductList) -> (t: Tree)
    ensures
        model_of(t) == product_list_tree(x.deep_view()),
{
    let mut items: Vec<Tree> = Vec::new();
    items.push(make_opt_usize_tree(&x.count));
    items.push(make_each_product_tree(&x.products));
    proof {
        lemma_list_model(items);
        assert(models(items@)[0] == model_of(items@[0]));
        assert(models(items@)[1] == model_of(items@[1]));
        assert(models(items@) =~= children_of(product_list_tree(x.deep_view())));
    }
    Tree::List(items)
}

/// Reads the product list that a tree holds.
pub fn read_product_list_tree(t: &Tree) -> (r: Option<ProductList>)
    ensures
        match r {
            Some(x) => tree_product_list(model_of(*t)) == Some(x.deep_view()),
            None => tree_product_list(model_of(*t)) is None,
        },
{
    match t {
        Tree::Leaf(_) => None,
        Tree::List(xs) => {
            proof {
                lemma_list_model(*xs);
            }
            if xs.len() != 2 {
                return None;
            }
            assert(models(xs@)[0] == model_of(xs@[0]));
            assert(models(xs@)[1] == model_of(xs@[1]));
            let got0 = match read_opt_usize_tree(&xs[0]) {
                Some(v) => v,
                None => {
                    return None;
                },
            };
            let got1 = match read_each_product_tree(&xs[1]) {
                Some(v) => v,
                None => {
                    return None;
                },
            };
            let x = ProductList {
                count: got0,
                products: got1,
            };
            assert(x.deep_view() =~~= tree_product_list(model_of(*t)).unwrap());
            Some(x)
        },
    }
}

/// One product list holds no arrays, so nothing is taken out of it.
pub proof fn lemma_bare_product_list(m: ProductListModel)
    ensures
        bare_product_list(m) == m,
{
    lemma_bare_each_product(m.products);
    assert(bare_product_list(m) =~~= m);
}

/// An optional product list holds no arrays, so nothing is taken out of it.
pub proof fn lemma_bare_opt_product_list(o: Option<ProductListModel>)
    ensures
        bare_opt_product_list(o) == o,
{
    match o {
        Some(m) => {
            lemma_bare_product_list(m);
        },
        None => {},
    }
}

/// The tree of an optional product list: a list of none or of one.
pub open spec fn opt_product_list_tree(o: Option<ProductListModel>) -> TreeModel {
    match o {
        Some(m) => TreeModel::List(seq![product_list_tree(m)]),
        None => TreeModel::List(Seq::empty()),
    }
}

/// An optional product list without the elements of its arrays.
pub open spec fn bare_opt_product_list(o: Option<ProductListModel>) -> Option<ProductListModel> {
    match o {
        Some(m) => Some(bare_product_list(m)),
        None => None,
    }
}

/// The optional product list that a tree holds.
pub open spec fn tree_opt_product_list(t: TreeModel) -> Option<Option<ProductListModel>> {
    match t {
        TreeModel::List(xs) => if xs.len() == 0 {
            Some(None)
        } else if xs.len() == 1 && tree_product_list(xs[0]) is Some {
            Some(Some(tree_product_list(xs[0]).unwrap()))
        } else {
            None
        },
        TreeModel::Leaf(_) => None,
    }
}

/// An optional product list comes back from its tree as it went in, but for the
/// elements of its arrays.
pub proof fn lemma_opt_product_list_comes_back(o: Option<ProductListModel>)
    ensures
        tree_opt_product_list(opt_product_list_tree(o)) == Some(bare_opt_product_list(o)),
{
    match o {
        Some(m) => {
            lemma_product_list_comes_back(m);
            assert(children_of(opt_product_list_tree(o))[0] == product_list_tree(m));
        },
        None => {},
    }
}

/// Makes the tree of an optional product list.
pub fn make_opt_product_list_tree(o: &Option<ProductList>) -> (t: Tree)
    ensures
        model_of(t) == opt_product_list_tree(o.deep_view()),
{
    let mut items: Vec<Tree> = Vec::new();
    match o {
        Some(x) => {
            items.push(make_product_list_tree(x));
        },
        None => {},
    }
    proof {
        lemma_list_model(items);
        assert(models(items@) =~= children_of(opt_product_list_tree(o.deep_view())));
    }
    Tree::List(items)
}

/// Reads the optional product list that a tree holds.
pub fn read_opt_product_list_tree(t: &Tree) -> (r: Option<Option<ProductList>>)
    ensures
        match r {
            Some(o) => tree_opt_product_list(model_of(*t)) == Some(o.deep_view()),
            None => tree_opt_product_list(model_of(*t)) is None,
        },
{
    match t {
        Tree::Leaf(_) => None,
        Tree::List(xs) => {
            proof {
                lemma_list_model(*xs);
            }
            if xs.len() == 0 {
                return Some(None);
            }
            if xs.len() != 1 {
                return None;
            }
            assert(models(xs@)[0] == model_of(xs@[0]));
            match read_product_list_tree(&xs[0]) {
                Some(x) => Some(Some(x)),
                None => None,
            }
        },
    }
}

/// The tree of one scan: the trees of its fields, in their order.
pub open spec fn scan_tree(m: ScanModel) -> TreeModel {
    TreeModel::List(seq![
        each_cv_param_tree(m.cv_params),
        each_user_param_tree(m.user_params),
    ])
}

/// One scan without the elements of its arrays.
pub open spec fn bare_scan(m: ScanModel) -> ScanModel {
    ScanModel {
        cv_params: bare_each_cv_param(m.cv_params),
        user_params: bare_each_user_param(m.user_params),
    }
}

/// The scan that a tree holds.
pub open spec fn tree_scan(t: TreeModel) -> Option<ScanModel> {
    match t {
        TreeModel::List(xs) => if xs.len() == 2
            && tree_each_cv_param(xs[0]) is Some
            && tree_each_user_param(xs[1]) is Some {
            Some(ScanModel {
                cv_params: tree_each_cv_param(xs[0]).unwrap(),
                user_params: tree_each_user_param(xs[1]).unwrap(),
            })
        } else {
            None
        },
        TreeModel::Leaf(_) => None,
    }
}

/// One scan comes back from its tree as it went in, but for the
/// elements of its arrays.
pub proof fn lemma_scan_comes_back(m: ScanModel)
    ensures
        tree_scan(scan_tree(m)) == Some(bare_scan(m)),
{
    lemma_fields_come_back();
    lemma_each_cv_param_comes_back(m.cv_params);
    lemma_each_user_param_comes_back(m.user_params);
    let xs = children_of(scan_tree(m));
    assert(xs[0] == each_cv_param_tree(m.cv_params));
    assert(xs[1] == each_user_param_tree(m.user_params));
    assert(tree_scan(scan_tree(m)).unwrap() =~~= bare_scan(m));
}

/// Makes the tree of one scan.
pub fn make_scan_tree(x: &Scan) -> (t: Tree)
    ensures
        model_of(t) == scan_tree(x.deep_view()),
{
    let mut items: Vec<Tree> = Vec::new();
    items.push(make_each_cv_param_tree(&x.cv_params));
    items.push(make_each_user_param_tree(&x.user_params));
    proof {
        lemma_list_model(items);
        assert(models(items@)[0] == model_of(items@[0]));
        assert(models(items@)[1] == model_of(items@[1]));
        assert(models(items@) =~= children_of(scan_tree(x.deep_view())));
    }
    Tree::List(items)
}

/// Reads the scan that a tree holds.
pub fn read_scan_tree(t: &Tree) -> (r: Option<Scan>)
    ensures
        match r {
            Some(x) => tree_scan(model_of(*t)) == Some(x.deep_view()),
            None => tree_scan(model_of(*t)) is None,
        },
{
    match t {
        Tree::Leaf(_) => None,
        Tree::List(xs) => {
            proof {
                lemma_list_model(*xs);
            }
            if xs.len() != 2 {
                return None;
            }
            assert(models(xs@)[0] == model_of(xs@[0]));
            assert(models(xs@)[1] == model_of(xs@[1]));
            let got0 = match read_each_cv_param_tree(&xs[0]) {
                Some(v) => v,
                None => {
                    return None;
                },
            };
            let got1 = match read_each_user_param_tree(&xs[1]) {
                Some(v) => v,
                None => {
                    return None;
                },
            };
            let x = Scan {
                cv_params: got0,
                user_params: got1,
            };
            assert(x.deep_view() =~~= tree_scan(model_of(*t)).unwrap());
            Some(x)
        },
    }
}

/// One scan holds no arrays, so nothing is taken out of it.
pub proof fn lemma_bare_scan(m: ScanModel)
    ensures
        bare_scan(m) == m,
{
    lemma_bare_each_cv_param(m.cv_params);
    lemma_bare_each_user_param(m.user_params);
    assert(bare_scan(m) =~~= m);
}

/// A list of elements that are each one scan holds no arrays, so nothing
/// is taken out of it.
pub proof fn lemma_bare_each_scan(ms: Seq<ScanModel>)
    ensures
        bare_each_scan(ms) == ms,
{
    assert forall|k: int| 0 <= k < ms.len() implies #[trigger] bare_scan(ms[k]) == ms[k] by {
        lemma_bare_scan(ms[k]);
    }
    assert(bare_each_scan(ms) =~= ms);
}

/// The tree of a list: the tree of each scan, in their order.
pub open spec fn each_scan_tree(ms: Seq<ScanModel>) -> TreeModel {
    TreeModel::List(Seq::new(ms.len(), |k: int| scan_tree(ms[k])))
}

/// Each scan of a list without the elements of its arrays.
pub open spec fn bare_each_scan(ms: Seq<ScanModel>) -> Seq<ScanModel> {
    Seq::new(ms.len(), |k: int| bare_scan(ms[k]))
}

/// The list that a tree holds: each of its trees as one scan.
pub open spec fn tree_each_scan(t: TreeModel) -> Option<Seq<ScanModel>> {
    match t {
        TreeModel::List(xs) => if forall|k: int|
            0 <= k < xs.len() ==> (#[trigger] tree_scan(xs[k])) is Some {
            Some(Seq::new(xs.len(), |k: int| tree_scan(xs[k]).unwrap()))
        } else {
            None
        },
        TreeModel::Leaf(_) => None,
    }
}

/// Each scan of a list comes back from the tree of the list as it
/// went in, but for the elements of its arrays.
pub proof fn lemma_each_scan_comes_back(ms: Seq<ScanModel>)
    ensures
        tree_each_scan(each_scan_tree(ms)) == Some(bare_each_scan(ms)),
{
    let xs = children_of(each_scan_tree(ms));
    assert forall|k: int| 0 <= k < xs.len() implies #[trigger] tree_scan(xs[k]) == Some(
        bare_scan(ms[k]),
    ) by {
        lemma_scan_comes_back(ms[k]);
    }
    assert(tree_each_scan(each_scan_tree(ms)).unwrap() =~= bare_each_scan(ms));
}

/// Makes the tree of a list, of each scan.
pub fn make_each_scan_tree(v: &Vec<Scan>) -> (t: Tree)
    ensures
        model_of(t) == each_scan_tree(v.deep_view()),
{
    let ghost ms = v.deep_view();
    let mut items: Vec<Tree> = Vec::new();
    let mut i: usize = 0;
    while i < v.len()
        invariant
            i <= v@.len(),
            ms == v.deep_view(),
            items@.len() == i,
            forall|k: int| 0 <= k < i ==> model_of(#[trigger] items@[k]) == scan_tree(ms[k]),
        decreases v@.len() - i,
    {
        assert(ms[i as int] == v@[i as int].deep_view());
        items.push(make_scan_tree(&v[i]));
        i = i + 1;
    }
    proof {
        lemma_list_model(items);
        assert(models(items@) =~= children_of(each_scan_tree(ms)));
    }
    Tree::List(items)
}

/// Reads the list that a tree holds, each of its trees as one scan.
pub fn read_each_scan_tree(t: &Tree) -> (r: Option<Vec<Scan>>)
    ensures
        match r {
            Some(v) => tree_each_scan(model_of(*t)) == Some(v.deep_view()),
            None => tree_each_scan(model_of(*t)) is None,
        },
{
    match t {
        Tree::Leaf(_) => None,
        Tree::List(xs) => {
            proof {
                lemma_list_model(*xs);
            }
            let ghost tm = models(xs@);
            let mut out: Vec<Scan> = Vec::new();
            let mut i: usize = 0;
            while i < xs.len()
                invariant
                    i <= xs@.len(),
                    tm == models(xs@),
                    model_of(*t) == TreeModel::List(tm),
                    out@.len() == i,
                    forall|k: int|
                        0 <= k < i ==> #[trigger] tree_scan(tm[k]) == Some(out@[k].deep_view()),
                decreases xs@.len() - i,
            {
                assert(tm[i as int] == model_of(xs@[i as int]));
                match read_scan_tree(&xs[i]) {
                    Some(x) => {
                        out.push(x);
                    },
                    None => {
                        assert(tree_scan(tm[i as int]) is None);
                        return None;
                    },
                }
                i = i + 1;
            }
            assert(out.deep_view() =~= tree_each_scan(model_of(*t)).unwrap());
            Some(out)
        },
    }
}

/// The tree of one scan list: the trees of its fields, in their order.
pub open spec fn scan_list_tree(m: ScanListModel) -> TreeModel {
    TreeModel::List(seq![
        opt_usize_tree(m.count),
        each_cv_param_tree(m.cv_params),
        each_user_param_tree(m.user_params),
        each_scan_tree(m.scans),
    ])
}

/// One scan list without the elements of its arrays.
pub open spec fn bare_scan_list(m: ScanListModel) -> ScanListModel {
    ScanListModel {
        count: m.count,
        cv_params: bare_each_cv_param(m.cv_params),
        user_params: bare_each_user_param(m.user_params),
        scans: bare_each_scan(m.scans),
    }
}

/// The scan list that a tree holds.
pub open spec fn tree_scan_list(t: TreeModel) -> Option<ScanListModel> {
    match t {
        TreeModel::List(xs) => if xs.len() == 4
            && tree_opt_usize(xs[0]) is Some
            && tree_each_cv_param(xs[1]) is Some
            && tree_each_user_param(xs[2]) is Some
            && tree_each_scan(xs[3]) is Some {
            Some(ScanListModel {
                count: tree_opt_usize(xs[0]).unwrap(),
                cv_params: tree_each_cv_param(xs[1]).unwrap(),
                user_params: tree_each_user_param(xs[2]).unwrap(),
                scans: tree_each_scan(xs[3]).unwrap(),
            })
        } else {
            None
        },
        TreeModel::Leaf(_) => None,
    }
}

/// One scan list comes back from its tree as it went in, but for the
/// elements of its arrays.
pub proof fn lemma_scan_list_comes_back(m: ScanListModel)
    ensures
        tree_scan_list(scan_list_tree(m)) == Some(bare_scan_list(m)),
{
    lemma_fields_come_back();
    lemma_each_cv_param_comes_back(m.cv_params);
    lemma_each_user_param_comes_back(m.user_params);
    lemma_each_scan_comes_back(m.scans);
    let xs = children_of(scan_list_tree(m));
    assert(xs[0] == opt_usize_tree(m.count));
    assert(xs[1] == each_cv_param_tree(m.cv_params));
    assert(xs[2] == each_user_param_tree(m.user_params));
    assert(xs[3] == each_scan_tree(m.scans));
    assert(tree_scan_list(scan_list_tree(m)).unwrap() =~~= bare_scan_list(m));
}

/// Makes the tree of one scan list.
pub fn make_scan_list_tree(x: &ScanList) -> (t: Tree)
    ensures
        model_of(t) == scan_list_tree(x.deep_view()),
{
    let mut items: Vec<Tree> = Vec::new();
    items.push(make_opt_usize_tree(&x.count));
    items.push(make_each_cv_param_tree(&x.cv_params));
    items.push(make_each_user_param_tree(&x.user_params));
    items.push(make_each_scan_tree(&x.scans));
    proof {
        lemma_list_model(items);
        assert(models(items@)[0] == model_of(items@[0]));
        assert(models(items@)[1] == model_of(items@[1]));
        assert(models(items@)[2] == model_of(items@[2]));
        assert(models(items@)[3] == model_of(items@[3]));
        assert(models(items@) =~= children_of(scan_list_tree(x.deep_view())));
    }
    Tree::List(items)
}

/// Reads the scan list that a tree holds.
pub fn read_scan_list_tree(t: &Tree) -> (r: Option<ScanList>)
    ensures
        match r {
            Some(x) => tree_scan_list(model_of(*t)) == Some(x.deep_view()),
            None => tree_scan_list(model_of(*t)) is None,
        },
{
    match t {
        Tree::Leaf(_) => None,
        Tree::List(xs) => {
            proof {
                lemma_list_model(*xs);
            }
            if xs.len() != 4 {
                return None;
            }
            assert(models(xs@)[0] == model_of(xs@[0]));
            assert(models(xs@)[1] == model_of(xs@[1]));
            assert(models(xs@)[2] == model_of(xs@[2]));
            assert(models(xs@)[3] == model_of(xs@[3]));
            let got0 = match read_opt_usize_tree(&xs[0]) {
                Some(v) => v,
                None => {
                    return None;
                },
            };
            let got1 = match read_each_cv_param_tree(&xs[1]) {
                Some(v) => v,
                None => {
                    return None;
                },
            };
            let got2 = match read_each_user_param_tree(&xs[2]) {
                Some(v) => v,
                None => {
                    return None;
                },
            };
            let got3 = match read_each_scan_tree(&xs[3]) {
                Some(v) => v,
                None => {
                    return None;
                },
            };
            let x = ScanList {
                count: got0,
                cv_params: got1,
                user_params: got2,
                scans: got3,
            };
            assert(x.deep_view() =~~= tree_scan_list(model_of(*t)).unwrap());
            Some(x)
        },
    }
}

/// One scan list holds no arrays, so nothing is taken out of it.
pub proof fn lemma_bare_scan_list(m: ScanListModel)
    ensures
        bare_scan_list(m) == m,
{
    lemma_bare_each_cv_param(m.cv_params);
    lemma_bare_each_user_param(m.user_params);
    lemma_bare_each_scan(m.scans);
    assert(bare_scan_list(m) =~~= m);
}

/// An optional scan list holds no arrays, so nothing is taken out of it.
pub proof fn lemma_bare_opt_scan_list(o: Option<ScanListModel>)
    ensures
        bare_opt_scan_list(o) == o,
{
    match o {
        Some(m) => {
            lemma_bare_scan_list(m);
        },
        None => {},
    }
}

/// The tree of an optional scan list: a list of none or of one.
pub open spec fn opt_scan_list_tree(o: Option<ScanListModel>) -> TreeModel {
    match o {
        Some(m) => TreeModel::List(seq![scan_list_tree(m)]),
        None => TreeModel::List(Seq::empty()),
    }
}

/// An optional scan list without the elements of its arrays.
pub open spec fn bare_opt_scan_list(o: Option<ScanListModel>) -> Option<ScanListModel> {
    match o {
        Some(m) => Some(bare_scan_list(m)),
        None => None,
    }
}

/// The optional scan list that a tree holds.
pub open spec fn tree_opt_scan_list(t: TreeModel) -> Option<Option<ScanListModel>> {
    match t {
        TreeModel::List(xs) => if xs.len() == 0 {
            Some(None)
        } else if xs.len() == 1 && tree_scan_list(xs[0]) is Some {
            Some(Some(tree_scan_list(xs[0]).unwrap()))
        } else {
            None
        },
        TreeModel::Leaf(_) => None,
    }
}

/// An optional scan list comes back from its tree as it went in, but for the
/// elements of its arrays.
pub proof fn lemma_opt_scan_list_comes_back(o: Option<ScanListModel>)
    ensures
        tree_opt_scan_list(opt_scan_list_tree(o)) == Some(bare_opt_scan_list(o)),
{
    match o {
        Some(m) => {
            lemma_scan_list_comes_back(m);
            assert(children_of(opt_scan_list_tree(o))[0] == scan_list_tree(m));
        },
        None => {},
    }
}

/// Makes the tree of an optional scan list.
pub fn make_opt_scan_list_tree(o: &Option<ScanList>) -> (t: Tree)
    ensures
        model_of(t) == opt_scan_list_tree(o.deep_view()),
{
    let mut items: Vec<Tree> = Vec::new();
    match o {
        Some(x) => {
            items.push(make_scan_list_tree(x));
        },
        None => {},
    }
    proof {
        lemma_list_model(items);
        assert(models(items@) =~= children_of(opt_scan_list_tree(o.deep_view())));
    }
    Tree::List(items)
}

/// Reads the optional scan list that a tree holds.
pub fn read_opt_scan_list_tree(t: &Tree) -> (r: Option<Option<ScanList>>)
    ensures
        match r {
            Some(o) => tree_opt_scan_list(model_of(*t)) == Some(o.deep_view()),
            None => tree_opt_scan_list(model_of(*t)) is None,
        },
{
    match t {
        Tree::Leaf(_) => None,
        Tree::List(xs) => {
            proof {
                lemma_list_model(*xs);
            }
            if xs.len() == 0 {
                return Some(None);
            }
            if xs.len() != 1 {
                return None;
            }
            assert(models(xs@)[0] == model_of(xs@[0]));
            match read_scan_list_tree(&xs[0]) {
                Some(x) => Some(Some(x)),
                None => None,
            }
        },
    }
}

/// The tree of one spectrum description: the trees of its fields, in their order.
pub open spec fn spectrum_description_tree(m: SpectrumDescriptionModel) -> TreeModel {
    TreeModel::List(seq![
        each_cv_param_tree(m.cv_params),
        each_user_param_tree(m.user_params),
        opt_scan_list_tree(m.scan_list),
        opt_precursor_list_tree(m.precursor_list),
    ])
}

/// One spectrum description without the elements of its arrays.
pub open spec fn bare_spectrum_description(m: SpectrumDescriptionModel) -> SpectrumDescriptionModel {
    SpectrumDescriptionModel {
        cv_params: bare_each_cv_param(m.cv_params),
        user_params: bare_each_user_param(m.user_params),
        scan_list: bare_opt_scan_list(m.scan_list),
        precursor_list: bare_opt_precursor_list(m.precursor_list),
    }
}

/// The spectrum description that a tree holds.
pub open spec fn tree_spectrum_description(t: TreeModel) -> Option<SpectrumDescriptionModel> {
    match t {
        TreeModel::List(xs) => if xs.len() == 4
            && tree_each_cv_param(xs[0]) is Some
            && tree_each_user_param(xs[1]) is Some
            && tree_opt_scan_list(xs[2]) is Some
            && tree_opt_precursor_list(xs[3]) is Some {
            Some(SpectrumDescriptionModel {
                cv_params: tree_each_cv_param(xs[0]).unwrap(),
                user_params: tree_each_user_param(xs[1]).unwrap(),
                scan_list: tree_opt_scan_list(xs[2]).unwrap(),
                precursor_list: tree_opt_precursor_list(xs[3]).unwrap(),
            })
        } else {
            None
        },
        TreeModel::Leaf(_) => None,
    }
}

/// One spectrum description comes back from its tree as it went in, but for the
/// elements of its arrays.
pub proof fn lemma_spectrum_description_comes_back(m: SpectrumDescriptionModel)
    ensures
        tree_spectrum_description(spectrum_description_tree(m)) == Some(bare_spectrum_description(m)),
{
    lemma_fields_come_back();
    lemma_each_cv_param_comes_back(m.cv_params);
    lemma_each_user_param_comes_back(m.user_params);
    lemma_opt_scan_list_comes_back(m.scan_list);
    lemma_opt_precursor_list_comes_back(m.precursor_list);
    let xs = children_of(spectrum_description_tree(m));
    assert(xs[0] == each_cv_param_tree(m.cv_params));
    assert(xs[1] == each_user_param_tree(m.user_params));
    assert(xs[2] == opt_scan_list_tree(m.scan_list));
    assert(xs[3] == opt_precursor_list_tree(m.precursor_list));
    assert(tree_spectrum_description(spectrum_description_tree(m)).unwrap() =~~= bare_spectrum_description(m));
}

/// Makes the tree of one spectrum description.
pub fn make_spectrum_description_tree(x: &SpectrumDescription) -> (t: Tree)
    ensures
        model_of(t) == spectrum_description_tree(x.deep_view()),
{
    let mut items: Vec<Tree> = Vec::new();
    items.push(make_each_cv_param_tree(&x.cv_params));
    items.push(make_each_user_param_tree(&x.user_params));
    items.push(make_opt_scan_list_tree(&x.scan_list));
    items.push(make_opt_precursor_list_tree(&x.precursor_list));
    proof {
        lemma_list_model(items);
        assert(models(items@)[0] == model_of(items@[0]));
        assert(models(items@)[1] == model_of(items@[1]));
        assert(models(items@)[2] == model_of(items@[2]));
        assert(models(items@)[3] == model_of(items@[3]));
        assert(models(items@) =~= children_of(spectrum_description_tree(x.deep_view())));
    }
    Tree::List(items)
}

/// Reads the spectrum description that a tree holds.
pub fn read_spectrum_description_tree(t: &Tree) -> (r: Option<SpectrumDescription>)
    ensures
        match r {
            Some(x) => tree_spectrum_description(model_of(*t)) == Some(x.deep_view()),
            None => tree_spectrum_description(model_of(*t)) is None,
        },
{
    match t {
        Tree::Leaf(_) => None,
        Tree::List(xs) => {
            proof {
                lemma_list_model(*xs);
            }
            if xs.len() != 4 {
                return None;
            }
            assert(models(xs@)[0] == model_of(xs@[0]));
            assert(models(xs@)[1] == model_of(xs@[1]));
            assert(models(xs@)[2] == model_of(xs@[2]));
            assert(models(xs@)[3] == model_of(xs@[3]));
            let got0 = match read_each_cv_param_tree(&xs[0]) {
                Some(v) => v,
                None => {
                    return None;
                },
            };
            let got1 = match read_each_user_param_tree(&xs[1]) {
                Some(v) => v,
                None => {
                    return None;
                },
            };
            let got2 = match read_opt_scan_list_tree(&xs[2]) {
                Some(v) => v,
                None => {
                    return None;
                },
            };
            let got3 = match read_opt_precursor_list_tree(&xs[3]) {
                Some(v) => v,
                None => {
                    return None;
                },
            };
            let x = SpectrumDescription {
                cv_params: got0,
                user_params: got1,
                scan_list: got2,
                precursor_list: got3,
            };
            assert(x.deep_view() =~~= tree_spectrum_description(model_of(*t)).unwrap());
            Some(x)
        },
    }
}

/// One spectrum description holds no arrays, so nothing is taken out of it.
pub proof fn lemma_bare_spectrum_description(m: SpectrumDescriptionModel)
    ensures
        bare_spectrum_description(m) == m,
{
    lemma_bare_each_cv_param(m.cv_params);
    lemma_bare_each_user_param(m.user_params);
    lemma_bare_opt_scan_list(m.scan_list);
    lemma_bare_opt_precursor_list(m.precursor_list);
    assert(bare_spectrum_description(m) =~~= m);
}

/// An optional spectrum description holds no arrays, so nothing is taken out of it.
pub proof fn lemma_bare_opt_spectrum_description(o: Option<SpectrumDescriptionModel>)
    ensures
        bare_opt_spectrum_description(o) == o,
{
    match o {
        Some(m) => {
            lemma_bare_spectrum_description(m);
        },
        None => {},
    }
}

/// The tree of an optional spectrum description: a list of none or of one.
pub open spec fn opt_spectrum_description_tree(o: Option<SpectrumDescriptionModel>) -> TreeModel {
    match o {
        Some(m) => TreeModel::List(seq![spectrum_description_tree(m)]),
        None => TreeModel::List(Seq::empty()),
    }
}

/// An optional spectrum description without the elements of its arrays.
pub open spec fn bare_opt_spectrum_description(o: Option<SpectrumDescriptionModel>) -> Option<SpectrumDescriptionModel> {
    match o {
        Some(m) => Some(bare_spectrum_description(m)),
        None => None,
    }
}

/// The optional spectrum description that a tree holds.
pub open spec fn tree_opt_spectrum_description(t: TreeModel) -> Option<Option<SpectrumDescriptionModel>> {
    match t {
        TreeModel::List(xs) => if xs.len() == 0 {
            Some(None)
        } else if xs.len() == 1 && tree_spectrum_description(xs[0]) is Some {
            Some(Some(tree_spectrum_description(xs[0]).unwrap()))
        } else {
            None
        },
        TreeModel::Leaf(_) => None,
    }
}

/// An optional spectrum description comes back from its tree as it went in, but for the
/// elements of its arrays.
pub proof fn lemma_opt_spectrum_description_comes_back(o: Option<SpectrumDescriptionModel>)
    ensures
        tree_opt_spectrum_description(opt_spectrum_description_tree(o)) == Some(bare_opt_spectrum_description(o)),
{
    match o {
        Some(m) => {
            lemma_spectrum_description_comes_back(m);
            assert(children_of(opt_spectrum_description_tree(o))[0] == spectrum_description_tree(m));
        },
        None => {},
    }
}

/// Makes the tree of an optional spectrum description.
pub fn make_opt_spectrum_description_tree(o: &Option<SpectrumDescription>) -> (t: Tree)
    ensures
        model_of(t) == opt_spectrum_description_tree(o.deep_view()),
{
    let mut items: Vec<Tree> = Vec::new();
    match o {
        Some(x) => {
            items.push(make_spectrum_description_tree(x));
        },
        None => {},
    }
    proof {
        lemma_list_model(items);
        assert(models(items@) =~= children_of(opt_spectrum_description_tree(o.deep_view())));
    }
    Tree::List(items)
}

/// Reads the optional spectrum description that a tree holds.
pub fn read_opt_spectrum_description_tree(t: &Tree) -> (r: Option<Option<SpectrumDescription>>)
    ensures
        match r {
            Some(o) => tree_opt_spectrum_description(model_of(*t)) == Some(o.deep_view()),
            None => tree_opt_spectrum_description(model_of(*t)) is None,
        },
{
    match t {
        Tree::Leaf(_) => None,
        Tree::List(xs) => {
            proof {
                lemma_list_model(*xs);
            }
            if xs.len() == 0 {
                return Some(None);
            }
            if xs.len() != 1 {
                return None;
            }
            assert(models(xs@)[0] == model_of(xs@[0]));
            match read_spectrum_description_tree(&xs[0]) {
                Some(x) => Some(Some(x)),
                None => None,
            }
        },
    }
}

/// The tree of one spectrum: the trees of its fields, in their order.
pub open spec fn spectrum_tree(m: SpectrumModel) -> TreeModel {
    TreeModel::List(seq![
        text_tree(m.id),
        opt_u32_tree(m.index),
        opt_u32_tree(m.scan_number),
        opt_usize_tree(m.default_array_length),
        opt_text_tree(m.native_id),
        opt_text_tree(m.data_processing_ref),
        opt_text_tree(m.source_file_ref),
        opt_text_tree(m.spot_id),
        opt_u32_tree(m.ms_level),
        each_referenceable_param_group_ref_tree(m.referenceable_param_group_refs),
        each_cv_param_tree(m.cv_params),
        each_user_param_tree(m.user_params),
        opt_spectrum_description_tree(m.spectrum_description),
        opt_scan_list_tree(m.scan_list),
        opt_precursor_list_tree(m.precursor_list),
        opt_product_list_tree(m.product_list),
        opt_binary_data_array_list_tree(m.binary_data_array_list),
    ])
}

/// One spectrum without the elements of its arrays.
pub open spec fn bare_spectrum(m: SpectrumModel) -> SpectrumModel {
    SpectrumModel {
        id: m.id,
        index: m.index,
        scan_number: m.scan_number,
        default_array_length: m.default_array_length,
        native_id: m.native_id,
        data_processing_ref: m.data_processing_ref,
        source_file_ref: m.source_file_ref,
        spot_id: m.spot_id,
        ms_level: m.ms_level,
        referenceable_param_group_refs: bare_each_referenceable_param_group_ref(m.referenceable_param_group_refs),
        cv_params: bare_each_cv_param(m.cv_params),
        user_params: bare_each_user_param(m.user_params),
        spectrum_description: bare_opt_spectrum_description(m.spectrum_description),
        scan_list: bare_opt_scan_list(m.scan_list),
        precursor_list: bare_opt_precursor_list(m.precursor_list),
        product_list: bare_opt_product_list(m.product_list),
        binary_data_array_list: bare_opt_binary_data_array_list(m.binary_data_array_list),
    }
}

/// The spectrum that a tree holds.
pub open spec fn tree_spectrum(t: TreeModel) -> Option<SpectrumModel> {
    match t {
        TreeModel::List(xs) => if xs.len() == 17
            && tree_text(xs[0]) is Some
            && tree_opt_u32(xs[1]) is Some
            && tree_opt_u32(xs[2]) is Some
            && tree_opt_usize(xs[3]) is Some
            && tree_opt_text(xs[4]) is Some
            && tree_opt_text(xs[5]) is Some
            && tree_opt_text(xs[6]) is Some
            && tree_opt_text(xs[7]) is Some
            && tree_opt_u32(xs[8]) is Some
            && tree_each_referenceable_param_group_ref(xs[9]) is Some
            && tree_each_cv_param(xs[10]) is Some
            && tree_each_user_param(xs[11]) is Some
            && tree_opt_spectrum_description(xs[12]) is Some
            && tree_opt_scan_list(xs[13]) is Some
            && tree_opt_precursor_list(xs[14]) is Some
            && tree_opt_product_list(xs[15]) is Some
            && tree_opt_binary_data_array_list(xs[16]) is Some {
            Some(SpectrumModel {
                id: tree_text(xs[0]).unwrap(),
                index: tree_opt_u32(xs[1]).unwrap(),
                scan_number: tree_opt_u32(xs[2]).unwrap(),
                default_array_length: tree_opt_usize(xs[3]).unwrap(),
                native_id: tree_opt_text(xs[4]).unwrap(),
                data_processing_ref: tree_opt_text(xs[5]).unwrap(),
                source_file_ref: tree_opt_text(xs[6]).unwrap(),
                spot_id: tree_opt_text(xs[7]).unwrap(),
                ms_level: tree_opt_u32(xs[8]).unwrap(),
                referenceable_param_group_refs: tree_each_referenceable_param_group_ref(xs[9]).unwrap(),
                cv_params: tree_each_cv_param(xs[10]).unwrap(),
                user_params: tree_each_user_param(xs[11]).unwrap(),
                spectrum_description: tree_opt_spectrum_description(xs[12]).unwrap(),
                scan_list: tree_opt_scan_list(xs[13]).unwrap(),
                precursor_list: tree_opt_precursor_list(xs[14]).unwrap(),
                product_list: tree_opt_product_list(xs[15]).unwrap(),
                binary_data_array_list: tree_opt_binary_data_array_list(xs[16]).unwrap(),
            })
        } else {
            None
        },
        TreeModel::Leaf(_) => None,
    }
}

/// One spectrum comes back from its tree as it went in, but for the
/// elements of its arrays.
pub proof fn lemma_spectrum_comes_back(m: SpectrumModel)
    ensures
        tree_spectrum(spectrum_tree(m)) == Some(bare_spectrum(m)),
{
    lemma_fields_come_back();
    lemma_each_referenceable_param_group_ref_comes_back(m.referenceable_param_group_refs);
    lemma_each_cv_param_comes_back(m.cv_params);
    lemma_each_user_param_comes_back(m.user_params);
    lemma_opt_spectrum_description_comes_back(m.spectrum_description);
    lemma_opt_scan_list_comes_back(m.scan_list);
    lemma_opt_precursor_list_comes_back(m.precursor_list);
    lemma_opt_product_list_comes_back(m.product_list);
    lemma_opt_binary_data_array_list_comes_back(m.binary_data_array_list);
    let xs = children_of(spectrum_tree(m));
    assert(xs[0] == text_tree(m.id));
    assert(xs[1] == opt_u32_tree(m.index));
    assert(xs[2] == opt_u32_tree(m.scan_number));
    assert(xs[3] == opt_usize_tree(m.default_array_length));
    assert(xs[4] == opt_text_tree(m.native_id));
    assert(xs[5] == opt_text_tree(m.data_processing_ref));
    assert(xs[6] == opt_text_tree(m.source_file_ref));
    assert(xs[7] == opt_text_tree(m.spot_id));
    assert(xs[8] == opt_u32_tree(m.ms_level));
    assert(xs[9] == each_referenceable_param_group_ref_tree(m.referenceable_param_group_refs));
    assert(xs[10] == each_cv_param_tree(m.cv_params));
    assert(xs[11] == each_user_param_tree(m.user_params));
    assert(xs[12] == opt_spectrum_description_tree(m.spectrum_description));
    assert(xs[13] == opt_scan_list_tree(m.scan_list));
    assert(xs[14] == opt_precursor_list_tree(m.precursor_list));
    assert(xs[15] == opt_product_list_tree(m.product_list));
    assert(xs[16] == opt_binary_data_array_list_tree(m.binary_data_array_list));
    assert(tree_spectrum(spectrum_tree(m)).unwrap() =~~= bare_spectrum(m));
}

/// Makes the tree of one spectrum.
pub fn make_spectrum_tree(x: &Spectrum) -> (t: Tree)
    ensures
        model_of(t) == spectrum_tree(x.deep_view()),
{
    let mut items: Vec<Tree> = Vec::new();
    items.push(make_text_tree(&x.id));
    items.push(make_opt_u32_tree(&x.index));
    items.push(make_opt_u32_tree(&x.scan_number));
    items.push(make_opt_usize_tree(&x.default_array_length));
    items.push(make_opt_text_tree(&x.native_id));
    items.push(make_opt_text_tree(&x.data_processing_ref));
    items.push(make_opt_text_tree(&x.source_file_ref));
    items.push(make_opt_text_tree(&x.spot_id));
    items.push(make_opt_u32_tree(&x.ms_level));
    items.push(make_each_referenceable_param_group_ref_tree(&x.referenceable_param_group_refs));
    items.push(make_each_cv_param_tree(&x.cv_params));
    items.push(make_each_user_param_tree(&x.user_params));
    items.push(make_opt_spectrum_description_tree(&x.spectrum_description));
    items.push(make_opt_scan_list_tree(&x.scan_list));
    items.push(make_opt_precursor_list_tree(&x.precursor_list));
    items.push(make_opt_product_list_tree(&x.product_list));
    items.push(make_opt_binary_data_array_list_tree(&x.binary_data_array_list));
    proof {
        lemma_list_model(items);
        assert(models(items@)[0] == model_of(items@[0]));
        assert(models(items@)[1] == model_of(items@[1]));
        assert(models(items@)[2] == model_of(items@[2]));
        assert(models(items@)[3] == model_of(items@[3]));
        assert(models(items@)[4] == model_of(items@[4]));
        assert(models(items@)[5] == model_of(items@[5]));
        assert(models(items@)[6] == model_of(items@[6]));
        assert(models(items@)[7] == model_of(items@[7]));
        assert(models(items@)[8] == model_of(items@[8]));
        assert(models(items@)[9] == model_of(items@[9]));
        assert(models(items@)[10] == model_of(items@[10]));
        assert(models(items@)[11] == model_of(items@[11]));
        assert(models(items@)[12] == model_of(items@[12]));
        assert(models(items@)[13] == model_of(items@[13]));
        assert(models(items@)[14] == model_of(items@[14]));
        assert(models(items@)[15] == model_of(items@[15]));
        assert(models(items@)[16] == model_of(items@[16]));
        assert(models(items@) =~= children_of(spectrum_tree(x.deep_view())));
    }
    Tree::List(items)
}

/// Reads the spectrum that a tree holds.
pub fn read_spectrum_tree(t: &Tree) -> (r: Option<Spectrum>)
    ensures
        match r {
            Some(x) => tree_spectrum(model_of(*t)) == Some(x.deep_view()),
            None => tree_spectrum(model_of(*t)) is None,
        },
{
    match t {
        Tree::Leaf(_) => None,
        Tree::List(xs) => {
            proof {
                lemma_list_model(*xs);
            }
            if xs.len() != 17 {
                return None;
            }
            assert(models(xs@)[0] == model_of(xs@[0]));
            assert(models(xs@)[1] == model_of(xs@[1]));
            assert(models(xs@)[2] == model_of(xs@[2]));
            assert(models(xs@)[3] == model_of(xs@[3]));
            assert(models(xs@)[4] == model_of(xs@[4]));
            assert(models(xs@)[5] == model_of(xs@[5]));
            assert(models(xs@)[6] == model_of(xs@[6]));
            assert(models(xs@)[7] == model_of(xs@[7]));
            assert(models(xs@)[8] == model_of(xs@[8]));
            assert(models(xs@)[9] == model_of(xs@[9]));
            assert(models(xs@)[10] == model_of(xs@[10]));
            assert(models(xs@)[11] == model_of(xs@[11]));
            assert(models(xs@)[12] == model_of(xs@[12]));
            assert(models(xs@)[13] == model_of(xs@[13]));
            assert(models(xs@)[14] == model_of(xs@[14]));
            assert(models(xs@)[15] == model_of(xs@[15]));
            assert(models(xs@)[16] == model_of(xs@[16]));
            let got0 = match read_text_tree(&xs[0]) {
                Some(v) => v,
                None => {
                    return None;
                },
            };
            let got1 = match read_opt_u32_tree(&xs[1]) {
                Some(v) => v,
                None => {
                    return None;
                },
            };
            let got2 = match read_opt_u32_tree(&xs[2]) {
                Some(v) => v,
                None => {
                    return None;
                },
            };
            let got3 = match read_opt_usize_tree(&xs[3]) {
                Some(v) => v,
                None => {
                    return None;
                },
            };
            let got4 = match read_opt_text_tree(&xs[4]) {
                Some(v) => v,
                None => {
                    return None;
                },
            };
            let got5 = match read_opt_text_tree(&xs[5]) {
                Some(v) => v,
                None => {
                    return None;
                },
            };
            let got6 = match read_opt_text_tree(&xs[6]) {
                Some(v) => v,
                None => {
                    return None;
                },
            };
            let got7 = match read_opt_text_tree(&xs[7]) {
                Some(v) => v,
                None => {
                    return None;
                },
            };
            let got8 = match read_opt_u32_tree(&xs[8]) {
                Some(v) => v,
                None => {
                    return None;
                },
            };
            let got9 = match read_each_referenceable_param_group_ref_tree(&xs[9]) {
                Some(v) => v,
                None => {
                    return None;
                },
            };
            let got10 = match read_each_cv_param_tree(&xs[10]) {
                Some(v) => v,
                None => {
                    return None;
                },
            };
            let got11 = match read_each_user_param_tree(&xs[11]) {
                Some(v) => v,
                None => {
                    return None;
                },
            };
            let got12 = match read_opt_spectrum_description_tree(&xs[12]) {
                Some(v) => v,
                None => {
                    return None;
                },
            };
            let got13 = match read_opt_scan_list_tree(&xs[13]) {
                Some(v) => v,
                None => {
                    return None;
                },
            };
            let got14 = match read_opt_precursor_list_tree(&xs[14]) {
                Some(v) => v,
                None => {
                    return None;
                },
            };
            let got15 = match read_opt_product_list_tree(&xs[15]) {
                Some(v) => v,
                None => {
                    return None;
                },
            };
            let got16 = match read_opt_binary_data_array_list_tree(&xs[16]) {
                Some(v) => v,
                None => {
                    return None;
                },
            };
            let x = Spectrum {
                id: got0,
                index: got1,
                scan_number: got2,
                default_array_length: got3,
                native_id: got4,
                data_processing_ref: got5,
                source_file_ref: got6,
                spot_id: got7,
                ms_level: got8,
                referenceable_param_group_refs: got9,
                cv_params: got10,
                user_params: got11,
                spectrum_description: got12,
                scan_list: got13,
                precursor_list: got14,
                product_list: got15,
                binary_data_array_list: got16,
            };
            assert(x.deep_view() =~~= tree_spectrum(model_of(*t)).unwrap());
            Some(x)
        },
    }
}

/// The tree of a list: the tree of each spectrum, in their order.
pub open spec fn each_spectrum_tree(ms: Seq<SpectrumModel>) -> TreeModel {
    TreeModel::List(Seq::new(ms.len(), |k: int| spectrum_tree(ms[k])))
}

/// Each spectrum of a list without the elements of its arrays.
pub open spec fn bare_each_spectrum(ms: Seq<SpectrumModel>) -> Seq<SpectrumModel> {
    Seq::new(ms.len(), |k: int| bare_spectrum(ms[k]))
}

/// The list that a tree holds: each of its trees as one spectrum.
pub open spec fn tree_each_spectrum(t: TreeModel) -> Option<Seq<SpectrumModel>> {
    match t {
        TreeModel::List(xs) => if forall|k: int|
            0 <= k < xs.len() ==> (#[trigger] tree_spectrum(xs[k])) is Some {
            Some(Seq::new(xs.len(), |k: int| tree_spectrum(xs[k]).unwrap()))
        } else {
            None
        },
        TreeModel::Leaf(_) => None,
    }
}

/// Each spectrum of a list comes back from the tree of the list as it
/// went in, but for the elements of its arrays.
pub proof fn lemma_each_spectrum_comes_back(ms: Seq<SpectrumModel>)
    ensures
        tree_each_spectrum(each_spectrum_tree(ms)) == Some(bare_each_spectrum(ms)),
{
    let xs = children_of(each_spectrum_tree(ms));
    assert forall|k: int| 0 <= k < xs.len() implies #[trigger] tree_spectrum(xs[k]) == Some(
        bare_spectrum(ms[k]),
    ) by {
        lemma_spectrum_comes_back(ms[k]);
    }
    assert(tree_each_spectrum(each_spectrum_tree(ms)).unwrap() =~= bare_each_spectrum(ms));
}

/// Makes the tree of a list, of each spectrum.
pub fn make_each_spectrum_tree(v: &Vec<Spectrum>) -> (t: Tree)
    ensures
        model_of(t) == each_spectrum_tree(v.deep_view()),
{
    let ghost ms = v.deep_view();
    let mut items: Vec<Tree> = Vec::new();
    let mut i: usize = 0;
    while i < v.len()
        invariant
            i <= v@.len(),
            ms == v.deep_view(),
            items@.len() == i,
            forall|k: int| 0 <= k < i ==> model_of(#[trigger] items@[k]) == spectrum_tree(ms[k]),
        decreases v@.len() - i,
    {
        assert(ms[i as int] == v@[i as int].deep_view());
        items.push(make_spectrum_tree(&v[i]));
        i = i + 1;
    }
    proof {
        lemma_list_model(items);
        assert(models(items@) =~= children_of(each_spectrum_tree(ms)));
    }
    Tree::List(items)
}

/// Reads the list that a tree holds, each of its trees as one spectrum.
pub fn read_each_spectrum_tree(t: &Tree) -> (r: Option<Vec<Spectrum>>)
    ensures
        match r {
            Some(v) => tree_each_spectrum(model_of(*t)) == Some(v.deep_view()),
            None => tree_each_spectrum(model_of(*t)) is None,
        },
{
    match t {
        Tree::Leaf(_) => None,
        Tree::List(xs) => {
            proof {
                lemma_list_model(*xs);
            }
            let ghost tm = models(xs@);
            let mut out: Vec<Spectrum> = Vec::new();
            let mut i: usize = 0;
            while i < xs.len()
                invariant
                    i <= xs@.len(),
                    tm == models(xs@),
                    model_of(*t) == TreeModel::List(tm),
                    out@.len() == i,
                    forall|k: int|
                        0 <= k < i ==> #[trigger] tree_spectrum(tm[k]) == Some(out@[k].deep_view()),
                decreases xs@.len() - i,
            {
                assert(tm[i as int] == model_of(xs@[i as int]));
                match read_spectrum_tree(&xs[i]) {
                    Some(x) => {
                        out.push(x);
                    },
                    None => {
                        assert(tree_spectrum(tm[i as int]) is None);
                        return None;
                    },
                }
                i = i + 1;
            }
            assert(out.deep_view() =~= tree_each_spectrum(model_of(*t)).unwrap());
            Some(out)
        },
    }
}

/// The tree of one spectrum list: the trees of its fields, in their order.
pub open spec fn spectrum_list_tree(m: SpectrumListModel) -> TreeModel {
    TreeModel::List(seq![
        opt_usize_tree(m.count),
        opt_text_tree(m.default_data_processing_ref),
        each_spectrum_tree(m.spectra),
    ])
}

/// One spectrum list without the elements of its arrays.
pub open spec fn bare_spectrum_list(m: SpectrumListModel) -> SpectrumListModel {
    SpectrumListModel {
        count: m.count,
        default_data_processing_ref: m.default_data_processing_ref,
        spectra: bare_each_spectrum(m.spectra),
    }
}

/// The spectrum list that a tree holds.
pub open spec fn tree_spectrum_list(t: TreeModel) -> Option<SpectrumListModel> {
    match t {
        TreeModel::List(xs) => if xs.len() == 3
            && tree_opt_usize(xs[0]) is Some
            && tree_opt_text(xs[1]) is Some
            && tree_each_spectrum(xs[2]) is Some {
            Some(SpectrumListModel {
                count: tree_opt_usize(xs[0]).unwrap(),
                default_data_processing_ref: tree_opt_text(xs[1]).unwrap(),
                spectra: tree_each_spectrum(xs[2]).unwrap(),
            })
        } else {
            None
        },
        TreeModel::Leaf(_) => None,
    }
}

/// One spectrum list comes back from its tree as it went in, but for the
/// elements of its arrays.
pub proof fn lemma_spectrum_list_comes_back(m: SpectrumListModel)
    ensures
        tree_spectrum_list(spectrum_list_tree(m)) == Some(bare_spectrum_list(m)),
{
    lemma_fields_come_back();
    lemma_each_spectrum_comes_back(m.spectra);
    let xs = children_of(spectrum_list_tree(m));
    assert(xs[0] == opt_usize_tree(m.count));
    assert(xs[1] == opt_text_tree(m.default_data_processing_ref));
    assert(xs[2] == each_spectrum_tree(m.spectra));
    assert(tree_spectrum_list(spectrum_list_tree(m)).unwrap() =~~= bare_spectrum_list(m));
}

/// Makes the tree of one spectrum list.
pub fn make_spectrum_list_tree(x: &SpectrumList) -> (t: Tree)
    ensures
        model_of(t) == spectrum_list_tree(x.deep_view()),
{
    let mut items: Vec<Tree> = Vec::new();
    items.push(make_opt_usize_tree(&x.count));
    items.push(make_opt_text_tree(&x.default_data_processing_ref));
    items.push(make_each_spectrum_tree(&x.spectra));
    proof {
        lemma_list_model(items);
        assert(models(items@)[0] == model_of(items@[0]));
        assert(models(items@)[1] == model_of(items@[1]));
        assert(models(items@)[2] == model_of(items@[2]));
        assert(models(items@) =~= children_of(spectrum_list_tree(x.deep_view())));
    }
    Tree::List(items)
}

/// Reads the spectrum list that a tree holds.
pub fn read_spectrum_list_tree(t: &Tree) -> (r: Option<SpectrumList>)
    ensures
        match r {
            Some(x) => tree_spectrum_list(model_of(*t)) == Some(x.deep_view()),
            None => tree_spectrum_list(model_of(*t)) is None,
        },
{
    match t {
        Tree::Leaf(_) => None,
        Tree::List(xs) => {
            proof {
                lemma_list_model(*xs);
            }
            if xs.len() != 3 {
                return None;
            }
            assert(models(xs@)[0] == model_of(xs@[0]));
            assert(models(xs@)[1] == model_of(xs@[1]));
            assert(models(xs@)[2] == model_of(xs@[2]));
            let got0 = match read_opt_usize_tree(&xs[0]) {
                Some(v) => v,
                None => {
                    return None;
                },
            };
            let got1 = match read_opt_text_tree(&xs[1]) {
                Some(v) => v,
                None => {
                    return None;
                },
            };
            let got2 = match read_each_spectrum_tree(&xs[2]) {
                Some(v) => v,
                None => {
                    return None;
                },
            };
            let x = SpectrumList {
                count: got0,
                default_data_processing_ref: got1,
                spectra: got2,
            };
            assert(x.deep_view() =~~= tree_spectrum_list(model_of(*t)).unwrap());
            Some(x)
        },
    }
}

/// The tree of an optional spectrum list: a list of none or of one.
pub open spec fn opt_spectrum_list_tree(o: Option<SpectrumListModel>) -> TreeModel {
    match o {
        Some(m) => TreeModel::List(seq![spectrum_list_tree(m)]),
        None => TreeModel::List(Seq::empty()),
    }
}

/// An optional spectrum list without the elements of its arrays.
pub open spec fn bare_opt_spectrum_list(o: Option<SpectrumListModel>) -> Option<SpectrumListModel> {
    match o {
        Some(m) => Some(bare_spectrum_list(m)),
        None => None,
    }
}

/// The optional spectrum list that a tree holds.
pub open spec fn tree_opt_spectrum_list(t: TreeModel) -> Option<Option<SpectrumListModel>> {
    match t {
        TreeModel::List(xs) => if xs.len() == 0 {
            Some(None)
        } else if xs.len() == 1 && tree_spectrum_list(xs[0]) is Some {
            Some(Some(tree_spectrum_list(xs[0]).unwrap()))
        } else {
            None
        },
        TreeModel::Leaf(_) => None,
    }
}

/// An optional spectrum list comes back from its tree as it went in, but for the
/// elements of its arrays.
pub proof fn lemma_opt_spectrum_list_comes_back(o: Option<SpectrumListModel>)
    ensures
        tree_opt_spectrum_list(opt_spectrum_list_tree(o)) == Some(bare_opt_spectrum_list(o)),
{
    match o {
        Some(m) => {
            lemma_spectrum_list_comes_back(m);
            assert(children_of(opt_spectrum_list_tree(o))[0] == spectrum_list_tree(m));
        },
        None => {},
    }
}

/// Makes the tree of an optional spectrum list.
pub fn make_opt_spectrum_list_tree(o: &Option<SpectrumList>) -> (t: Tree)
    ensures
        model_of(t) == opt_spectrum_list_tree(o.deep_view()),
{
    let mut items: Vec<Tree> = Vec::new();
    match o {
        Some(x) => {
            items.push(make_spectrum_list_tree(x));
        },
        None => {},
    }
    proof {
        lemma_list_model(items);
        assert(models(items@) =~= children_of(opt_spectrum_list_tree(o.deep_view())));
    }
    Tree::List(items)
}

/// Reads the optional spectrum list that a tree holds.
pub fn read_opt_spectrum_list_tree(t: &Tree) -> (r: Option<Option<SpectrumList>>)
    ensures
        match r {
            Some(o) => tree_opt_spectrum_list(model_of(*t)) == Some(o.deep_view()),
            None => tree_opt_spectrum_list(model_of(*t)) is None,
        },
{
    match t {
        Tree::Leaf(_) => None,
        Tree::List(xs) => {
            proof {
                lemma_list_model(*xs);
            }
            if xs.len() == 0 {
                return Some(None);
            }
            if xs.len() != 1 {
                return None;
            }
            assert(models(xs@)[0] == model_of(xs@[0]));
            match read_spectrum_list_tree(&xs[0]) {
                Some(x) => Some(Some(x)),
                None => None,
            }
        },
    }
}

/// The tree of one chromatogram: the trees of its fields, in their order.
pub open spec fn chromatogram_tree(m: ChromatogramModel) -> TreeModel {
    TreeModel::List(seq![
        text_tree(m.id),
        opt_text_tree(m.native_id),
        opt_u32_tree(m.index),
        opt_usize_tree(m.default_array_length),
        opt_text_tree(m.data_processing_ref),
        each_referenceable_param_group_ref_tree(m.referenceable_param_group_refs),
        each_cv_param_tree(m.cv_params),
        each_user_param_tree(m.user_params),
        opt_precursor_tree(m.precursor),
        opt_product_tree(m.product),
        opt_binary_data_array_list_tree(m.binary_data_array_list),
    ])
}

/// One chromatogram without the elements of its arrays.
pub open spec fn bare_chromatogram(m: ChromatogramModel) -> ChromatogramModel {
    ChromatogramModel {
        id: m.id,
        native_id: m.native_id,
        index: m.index,
        default_array_length: m.default_array_length,
        data_processing_ref: m.data_processing_ref,
        referenceable_param_group_refs: bare_each_referenceable_param_group_ref(m.referenceable_param_group_refs),
        cv_params: bare_each_cv_param(m.cv_params),
        user_params: bare_each_user_param(m.user_params),
        precursor: bare_opt_precursor(m.precursor),
        product: bare_opt_product(m.product),
        binary_data_array_list: bare_opt_binary_data_array_list(m.binary_data_array_list),
    }
}

/// The chromatogram that a tree holds.
pub open spec fn tree_chromatogram(t: TreeModel) -> Option<ChromatogramModel> {
    match t {
        TreeModel::List(xs) => if xs.len() == 11
            && tree_text(xs[0]) is Some
            && tree_opt_text(xs[1]) is Some
            && tree_opt_u32(xs[2]) is Some
            && tree_opt_usize(xs[3]) is Some
            && tree_opt_text(xs[4]) is Some
            && tree_each_referenceable_param_group_ref(xs[5]) is Some
            && tree_each_cv_param(xs[6]) is Some
            && tree_each_user_param(xs[7]) is Some
            && tree_opt_precursor(xs[8]) is Some
            && tree_opt_product(xs[9]) is Some
            && tree_opt_binary_data_array_list(xs[10]) is Some {
            Some(ChromatogramModel {
                id: tree_text(xs[0]).unwrap(),
                native_id: tree_opt_text(xs[1]).unwrap(),
                index: tree_opt_u32(xs[2]).unwrap(),
                default_array_length: tree_opt_usize(xs[3]).unwrap(),
                data_processing_ref: tree_opt_text(xs[4]).unwrap(),
                referenceable_param_group_refs: tree_each_referenceable_param_group_ref(xs[5]).unwrap(),
                cv_params: tree_each_cv_param(xs[6]).unwrap(),
                user_params: tree_each_user_param(xs[7]).unwrap(),
                precursor: tree_opt_precursor(xs[8]).unwrap(),
                product: tree_opt_product(xs[9]).unwrap(),
                binary_data_array_list: tree_opt_binary_data_array_list(xs[10]).unwrap(),
            })
        } else {
            None
        },
        TreeModel::Leaf(_) => None,
    }
}

/// One chromatogram comes back from its tree as it went in, but for the
/// elements of its arrays.
pub proof fn lemma_chromatogram_comes_back(m: ChromatogramModel)
    ensures
        tree_chromatogram(chromatogram_tree(m)) == Some(bare_chromatogram(m)),
{
    lemma_fields_come_back();
    lemma_each_referenceable_param_group_ref_comes_back(m.referenceable_param_group_refs);
    lemma_each_cv_param_comes_back(m.cv_params);
    lemma_each_user_param_comes_back(m.user_params);
    lemma_opt_precursor_comes_back(m.precursor);
    lemma_opt_product_comes_back(m.product);
    lemma_opt_binary_data_array_list_comes_back(m.binary_data_array_list);
    let xs = children_of(chromatogram_tree(m));
    assert(xs[0] == text_tree(m.id));
    assert(xs[1] == opt_text_tree(m.native_id));
    assert(xs[2] == opt_u32_tree(m.index));
    assert(xs[3] == opt_usize_tree(m.default_array_length));
    assert(xs[4] == opt_text_tree(m.data_processing_ref));
    assert(xs[5] == each_referenceable_param_group_ref_tree(m.referenceable_param_group_refs));
    assert(xs[6] == each_cv_param_tree(m.cv_params));
    assert(xs[7] == each_user_param_tree(m.user_params));
    assert(xs[8] == opt_precursor_tree(m.precursor));
    assert(xs[9] == opt_product_tree(m.product));
    assert(xs[10] == opt_binary_data_array_list_tree(m.binary_data_array_list));
    assert(tree_chromatogram(chromatogram_tree(m)).unwrap() =~~= bare_chromatogram(m));
}

/// Makes the tree of one chromatogram.
pub fn make_chromatogram_tree(x: &Chromatogram) -> (t: Tree)
    ensures
        model_of(t) == chromatogram_tree(x.deep_view()),
{
    let mut items: Vec<Tree> = Vec::new();
    items.push(make_text_tree(&x.id));
    items.push(make_opt_text_tree(&x.native_id));
    items.push(make_opt_u32_tree(&x.index));
    items.push(make_opt_usize_tree(&x.default_array_length));
    items.push(make_opt_text_tree(&x.data_processing_ref));
    items.push(make_each_referenceable_param_group_ref_tree(&x.referenceable_param_group_refs));
    items.push(make_each_cv_param_tree(&x.cv_params));
    items.push(make_each_user_param_tree(&x.user_params));
    items.push(make_opt_precursor_tree(&x.precursor));
    items.push(make_opt_product_tree(&x.product));
    items.push(make_opt_binary_data_array_list_tree(&x.binary_data_array_list));
    proof {
        lemma_list_model(items);
        assert(models(items@)[0] == model_of(items@[0]));
        assert(models(items@)[1] == model_of(items@[1]));
        assert(models(items@)[2] == model_of(items@[2]));
        assert(models(items@)[3] == model_of(items@[3]));
        assert(models(items@)[4] == model_of(items@[4]));
        assert(models(items@)[5] == model_of(items@[5]));
        assert(models(items@)[6] == model_of(items@[6]));
        assert(models(items@)[7] == model_of(items@[7]));
        assert(models(items@)[8] == model_of(items@[8]));
        assert(models(items@)[9] == model_of(items@[9]));
        assert(models(items@)[10] == model_of(items@[10]));
        assert(models(items@) =~= children_of(chromatogram_tree(x.deep_view())));
    }
    Tree::List(items)
}

/// Reads the chromatogram that a tree holds.
pub fn read_chromatogram_tree(t: &Tree) -> (r: Option<Chromatogram>)
    ensures
        match r {
            Some(x) => tree_chromatogram(model_of(*t)) == Some(x.deep_view()),
            None => tree_chromatogram(model_of(*t)) is None,
        },
{
    match t {
        Tree::Leaf(_) => None,
        Tree::List(xs) => {
            proof {
                lemma_list_model(*xs);
            }
            if xs.len() != 11 {
                return None;
            }
            assert(models(xs@)[0] == model_of(xs@[0]));
            assert(models(xs@)[1] == model_of(xs@[1]));
            assert(models(xs@)[2] == model_of(xs@[2]));
            assert(models(xs@)[3] == model_of(xs@[3]));
            assert(models(xs@)[4] == model_of(xs@[4]));
            assert(models(xs@)[5] == model_of(xs@[5]));
            assert(models(xs@)[6] == model_of(xs@[6]));
            assert(models(xs@)[7] == model_of(xs@[7]));
            assert(models(xs@)[8] == model_of(xs@[8]));
            assert(models(xs@)[9] == model_of(xs@[9]));
            assert(models(xs@)[10] == model_of(xs@[10]));
            let got0 = match read_text_tree(&xs[0]) {
                Some(v) => v,
                None => {
                    return None;
                },
            };
            let got1 = match read_opt_text_tree(&xs[1]) {
                Some(v) => v,
                None => {
                    return None;
                },
            };
            let got2 = match read_opt_u32_tree(&xs[2]) {
                Some(v) => v,
                None => {
                    return None;
                },
            };
            let got3 = match read_opt_usize_tree(&xs[3]) {
                Some(v) => v,
                None => {
                    return None;
                },
            };
            let got4 = match read_opt_text_tree(&xs[4]) {
                Some(v) => v,
                None => {
                    return None;
                },
            };
            let got5 = match read_each_referenceable_param_group_ref_tree(&xs[5]) {
                Some(v) => v,
                None => {
                    return None;
                },
            };
            let got6 = match read_each_cv_param_tree(&xs[6]) {
                Some(v) => v,
                None => {
                    return None;
                },
            };
            let got7 = match read_each_user_param_tree(&xs[7]) {
                Some(v) => v,
                None => {
                    return None;
                },
            };
            let got8 = match read_opt_precursor_tree(&xs[8]) {
                Some(v) => v,
                None => {
                    return None;
                },
            };
            let got9 = match read_opt_product_tree(&xs[9]) {
                Some(v) => v,
                None => {
                    return None;
                },
            };
            let got10 = match read_opt_binary_data_array_list_tree(&xs[10]) {
                Some(v) => v,
                None => {
                    return None;
                },
            };
            let x = Chromatogram {
                id: got0,
                native_id: got1,
                index: got2,
                default_array_length: got3,
                data_processing_ref: got4,
                referenceable_param_group_refs: got5,
                cv_params: got6,
                user_params: got7,
                precursor: got8,
                product: got9,
                binary_data_array_list: got10,
            };
            assert(x.deep_view() =~~= tree_chromatogram(model_of(*t)).unwrap());
            Some(x)
        },
    }
}

/// The tree of a list: the tree of each chromatogram, in their order.
pub open spec fn each_chromatogram_tree(ms: Seq<ChromatogramModel>) -> TreeModel {
    TreeModel::List(Seq::new(ms.len(), |k: int| chromatogram_tree(ms[k])))
}

/// Each chromatogram of a list without the elements of its arrays.
pub open spec fn bare_each_chromatogram(ms: Seq<ChromatogramModel>) -> Seq<ChromatogramModel> {
    Seq::new(ms.len(), |k: int| bare_chromatogram(ms[k]))
}

/// The list that a tree holds: each of its trees as one chromatogram.
pub open spec fn tree_each_chromatogram(t: TreeModel) -> Option<Seq<ChromatogramModel>> {
    match t {
        TreeModel::List(xs) => if forall|k: int|
            0 <= k < xs.len() ==> (#[trigger] tree_chromatogram(xs[k])) is Some {
            Some(Seq::new(xs.len(), |k: int| tree_chromatogram(xs[k]).unwrap()))
        } else {
            None
        },
        TreeModel::Leaf(_) => None,
    }
}

/// Each chromatogram of a list comes back from the tree of the list as it
/// went in, but for the elements of its arrays.
pub proof fn lemma_each_chromatogram_comes_back(ms: Seq<ChromatogramModel>)
    ensures
        tree_each_chromatogram(each_chromatogram_tree(ms)) == Some(bare_each_chromatogram(ms)),
{
    let xs = children_of(each_chromatogram_tree(ms));
    assert forall|k: int| 0 <= k < xs.len() implies #[trigger] tree_chromatogram(xs[k]) == Some(
        bare_chromatogram(ms[k]),
    ) by {
        lemma_chromatogram_comes_back(ms[k]);
    }
    assert(tree_each_chromatogram(each_chromatogram_tree(ms)).unwrap() =~= bare_each_chromatogram(ms));
}

/// Makes the tree of a list, of each chromatogram.
pub fn make_each_chromatogram_tree(v: &Vec<Chromatogram>) -> (t: Tree)
    ensures
        model_of(t) == each_chromatogram_tree(v.deep_view()),
{
    let ghost ms = v.deep_view();
    let mut items: Vec<Tree> = Vec::new();
    let mut i: usize = 0;
    while i < v.len()
        invariant
            i <= v@.len(),
            ms == v.deep_view(),
            items@.len() == i,
            forall|k: int| 0 <= k < i ==> model_of(#[trigger] items@[k]) == chromatogram_tree(ms[k]),
        decreases v@.len() - i,
    {
        assert(ms[i as int] == v@[i as int].deep_view());
        items.push(make_chromatogram_tree(&v[i]));
        i = i + 1;
    }
    proof {
        lemma_list_model(items);
        assert(models(items@) =~= children_of(each_chromatogram_tree(ms)));
    }
    Tree::List(items)
}

/// Reads the list that a tree holds, each of its trees as one chromatogram.
pub fn read_each_chromatogram_tree(t: &Tree) -> (r: Option<Vec<Chromatogram>>)
    ensures
        match r {
            Some(v) => tree_each_chromatogram(model_of(*t)) == Some(v.deep_view()),
            None => tree_each_chromatogram(model_of(*t)) is None,
        },
{
    match t {
        Tree::Leaf(_) => None,
        Tree::List(xs) => {
            proof {
                lemma_list_model(*xs);
            }
            let ghost tm = models(xs@);
            let mut out: Vec<Chromatogram> = Vec::new();
            let mut i: usize = 0;
            while i < xs.len()
                invariant
                    i <= xs@.len(),
                    tm == models(xs@),
                    model_of(*t) == TreeModel::List(tm),
                    out@.len() == i,
                    forall|k: int|
                        0 <= k < i ==> #[trigger] tree_chromatogram(tm[k]) == Some(out@[k].deep_view()),
                decreases xs@.len() - i,
            {
                assert(tm[i as int] == model_of(xs@[i as int]));
                match read_chromatogram_tree(&xs[i]) {
                    Some(x) => {
                        out.push(x);
                    },
                    None => {
                        assert(tree_chromatogram(tm[i as int]) is None);
                        return None;
                    },
                }
                i = i + 1;
            }
            assert(out.deep_view() =~= tree_each_chromatogram(model_of(*t)).unwrap());
            Some(out)
        },
    }
}

/// The tree of one chromatogram list: the trees of its fields, in their order.
pub open spec fn chromatogram_list_tree(m: ChromatogramListModel) -> TreeModel {
    TreeModel::List(seq![
        opt_usize_tree(m.count),
        opt_text_tree(m.default_data_processing_ref),
        each_chromatogram_tree(m.chromatograms),
    ])
}

/// One chromatogram list without the elements of its arrays.
pub open spec fn bare_chromatogram_list(m: ChromatogramListModel) -> ChromatogramListModel {
    ChromatogramListModel {
        count: m.count,
        default_data_processing_ref: m.default_data_processing_ref,
        chromatograms: bare_each_chromatogram(m.chromatograms),
    }
}

/// The chromatogram list that a tree holds.
pub open spec fn tree_chromatogram_list(t: TreeModel) -> Option<ChromatogramListModel> {
    match t {
        TreeModel::List(xs) => if xs.len() == 3
            && tree_opt_usize(xs[0]) is Some
            && tree_opt_text(xs[1]) is Some
            && tree_each_chromatogram(xs[2]) is Some {
            Some(ChromatogramListModel {
                count: tree_opt_usize(xs[0]).unwrap(),
                default_data_processing_ref: tree_opt_text(xs[1]).unwrap(),
                chromatograms: tree_each_chromatogram(xs[2]).unwrap(),
            })
        } else {
            None
        },
        TreeModel::Leaf(_) => None,
    }
}

/// One chromatogram list comes back from its tree as it went in, but for the
/// elements of its arrays.
pub proof fn lemma_chromatogram_list_comes_back(m: ChromatogramListModel)
    ensures
        tree_chromatogram_list(chromatogram_list_tree(m)) == Some(bare_chromatogram_list(m)),
{
    lemma_fields_come_back();
    lemma_each_chromatogram_comes_back(m.chromatograms);
    let xs = children_of(chromatogram_list_tree(m));
    assert(xs[0] == opt_usize_tree(m.count));
    assert(xs[1] == opt_text_tree(m.default_data_processing_ref));
    assert(xs[2] == each_chromatogram_tree(m.chromatograms));
    assert(tree_chromatogram_list(chromatogram_list_tree(m)).unwrap() =~~= bare_chromatogram_list(m));
}

/// Makes the tree of one chromatogram list.
pub fn make_chromatogram_list_tree(x: &ChromatogramList) -> (t: Tree)
    ensures
        model_of(t) == chromatogram_list_tree(x.deep_view()),
{
    let mut items: Vec<Tree> = Vec::new();
    items.push(make_opt_usize_tree(&x.count));
    items.push(make_opt_text_tree(&x.default_data_processing_ref));
    items.push(make_each_chromatogram_tree(&x.chromatograms));
    proof {
        lemma_list_model(items);
        assert(models(items@)[0] == model_of(items@[0]));
        assert(models(items@)[1] == model_of(items@[1]));
        assert(models(items@)[2] == model_of(items@[2]));
        assert(models(items@) =~= children_of(chromatogram_list_tree(x.deep_view())));
    }
    Tree::List(items)
}

/// Reads the chromatogram list that a tree holds.
pub fn read_chromatogram_list_tree(t: &Tree) -> (r: Option<ChromatogramList>)
    ensures
        match r {
            Some(x) => tree_chromatogram_list(model_of(*t)) == Some(x.deep_view()),
            None => tree_chromatogram_list(model_of(*t)) is None,
        },
{
    match t {
        Tree::Leaf(_) => None,
        Tree::List(xs) => {
            proof {
                lemma_list_model(*xs);
            }
            if xs.len() != 3 {
                return None;
            }
            assert(models(xs@)[0] == model_of(xs@[0]));
            assert(models(xs@)[1] == model_of(xs@[1]));
            assert(models(xs@)[2] == model_of(xs@[2]));
            let got0 = match read_opt_usize_tree(&xs[0]) {
                Some(v) => v,
                None => {
                    return None;
                },
            };
            let got1 = match read_opt_text_tree(&xs[1]) {
                Some(v) => v,
                None => {
                    return None;
                },
            };
            let got2 = match read_each_chromatogram_tree(&xs[2]) {
                Some(v) => v,
                None => {
                    return None;
                },
            };
            let x = ChromatogramList {
                count: got0,
                default_data_processing_ref: got1,
                chromatograms: got2,
            };
            assert(x.deep_view() =~~= tree_chromatogram_list(model_of(*t)).unwrap());
            Some(x)
        },
    }
}

/// The tree of an optional chromatogram list: a list of none or of one.
pub open spec fn opt_chromatogram_list_tree(o: Option<ChromatogramListModel>) -> TreeModel {
    match o {
        Some(m) => TreeModel::List(seq![chromatogram_list_tree(m)]),
        None => TreeModel::List(Seq::empty()),
    }
}

/// An optional chromatogram list without the elements of its arrays.
pub open spec fn bare_opt_chromatogram_list(o: Option<ChromatogramListModel>) -> Option<ChromatogramListModel> {
    match o {
        Some(m) => Some(bare_chromatogram_list(m)),
        None => None,
    }
}

/// The optional chromatogram list that a tree holds.
pub open spec fn tree_opt_chromatogram_list(t: TreeModel) -> Option<Option<ChromatogramListModel>> {
    match t {
        TreeModel::List(xs) => if xs.len() == 0 {
            Some(None)
        } else if xs.len() == 1 && tree_chromatogram_list(xs[0]) is Some {
            Some(Some(tree_chromatogram_list(xs[0]).unwrap()))
        } else {
            None
        },
        TreeModel::Leaf(_) => None,
    }
}

/// An optional chromatogram list comes back from its tree as it went in, but for the
/// elements of its arrays.
pub proof fn lemma_opt_chromatogram_list_comes_back(o: Option<ChromatogramListModel>)
    ensures
        tree_opt_chromatogram_list(opt_chromatogram_list_tree(o)) == Some(bare_opt_chromatogram_list(o)),
{
    match o {
        Some(m) => {
            lemma_chromatogram_list_comes_back(m);
            assert(children_of(opt_chromatogram_list_tree(o))[0] == chromatogram_list_tree(m));
        },
        None => {},
    }
}

/// Makes the tree of an optional chromatogram list.
pub fn make_opt_chromatogram_list_tree(o: &Option<ChromatogramList>) -> (t: Tree)
    ensures
        model_of(t) == opt_chromatogram_list_tree(o.deep_view()),
{
    let mut items: Vec<Tree> = Vec::new();
    match o {
        Some(x) => {
            items.push(make_chromatogram_list_tree(x));
        },
        None => {},
    }
    proof {
        lemma_list_model(items);
        assert(models(items@) =~= children_of(opt_chromatogram_list_tree(o.deep_view())));
    }
    Tree::List(items)
}

/// Reads the optional chromatogram list that a tree holds.
pub fn read_opt_chromatogram_list_tree(t: &Tree) -> (r: Option<Option<ChromatogramList>>)
    ensures
        match r {
            Some(o) => tree_opt_chromatogram_list(model_of(*t)) == Some(o.deep_view()),
            None => tree_opt_chromatogram_list(model_of(*t)) is None,
        },
{
    match t {
        Tree::Leaf(_) => None,
        Tree::List(xs) => {
            proof {
                lemma_list_model(*xs);
            }
            if xs.len() == 0 {
                return Some(None);
            }
            if xs.len() != 1 {
                return None;
            }
            assert(models(xs@)[0] == model_of(xs@[0]));
            match read_chromatogram_list_tree(&xs[0]) {
                Some(x) => Some(Some(x)),
                None => None,
            }
        },
    }
}

/// The tree of one run: the trees of its fields, in their order.
pub open spec fn run_tree(m: RunModel) -> TreeModel {
    TreeModel::List(seq![
        text_tree(m.id),
        opt_text_tree(m.start_time_stamp),
        opt_text_tree(m.default_instrument_configuration_ref),
        opt_text_tree(m.default_source_file_ref),
        opt_text_tree(m.sample_ref),
        each_referenceable_param_group_ref_tree(m.referenceable_param_group_refs),
        each_cv_param_tree(m.cv_params),
        each_user_param_tree(m.user_params),
        opt_spectrum_list_tree(m.spectrum_list),
        opt_chromatogram_list_tree(m.chromatogram_list),
    ])
}

/// One run without the elements of its arrays.
pub open spec fn bare_run(m: RunModel) -> RunModel {
    RunModel {
        id: m.id,
        start_time_stamp: m.start_time_stamp,
        default_instrument_configuration_ref: m.default_instrument_configuration_ref,
        default_source_file_ref: m.default_source_file_ref,
        sample_ref: m.sample_ref,
        referenceable_param_group_refs: bare_each_referenceable_param_group_ref(m.referenceable_param_group_refs),
        cv_params: bare_each_cv_param(m.cv_params),
        user_params: bare_each_user_param(m.user_params),
        spectrum_list: bare_opt_spectrum_list(m.spectrum_list),
        chromatogram_list: bare_opt_chromatogram_list(m.chromatogram_list),
    }
}

/// The run that a tree holds.
pub open spec fn tree_run(t: TreeModel) -> Option<RunModel> {
    match t {
        TreeModel::List(xs) => if xs.len() == 10
            && tree_text(xs[0]) is Some
            && tree_opt_text(xs[1]) is Some
            && tree_opt_text(xs[2]) is Some
            && tree_opt_text(xs[3]) is Some
            && tree_opt_text(xs[4]) is Some
            && tree_each_referenceable_param_group_ref(xs[5]) is Some
            && tree_each_cv_param(xs[6]) is Some
            && tree_each_user_param(xs[7]) is Some
            && tree_opt_spectrum_list(xs[8]) is Some
            && tree_opt_chromatogram_list(xs[9]) is Some {
            Some(RunModel {
                id: tree_text(xs[0]).unwrap(),
                start_time_stamp: tree_opt_text(xs[1]).unwrap(),
                default_instrument_configuration_ref: tree_opt_text(xs[2]).unwrap(),
                default_source_file_ref: tree_opt_text(xs[3]).unwrap(),
                sample_ref: tree_opt_text(xs[4]).unwrap(),
                referenceable_param_group_refs: tree_each_referenceable_param_group_ref(xs[5]).unwrap(),
                cv_params: tree_each_cv_param(xs[6]).unwrap(),
                user_params: tree_each_user_param(xs[7]).unwrap(),
                spectrum_list: tree_opt_spectrum_list(xs[8]).unwrap(),
                chromatogram_list: tree_opt_chromatogram_list(xs[9]).unwrap(),
            })
        } else {
            None
        },
        TreeModel::Leaf(_) => None,
    }
}

/// One run comes back from its tree as it went in, but for the
/// elements of its arrays.
pub proof fn lemma_run_comes_back(m: RunModel)
    ensures
        tree_run(run_tree(m)) == Some(bare_run(m)),
{
    lemma_fields_come_back();
    lemma_each_referenceable_param_group_ref_comes_back(m.referenceable_param_group_refs);
    lemma_each_cv_param_comes_back(m.cv_params);
    lemma_each_user_param_comes_back(m.user_params);
    lemma_opt_spectrum_list_comes_back(m.spectrum_list);
    lemma_opt_chromatogram_list_comes_back(m.chromatogram_list);
    let xs = children_of(run_tree(m));
    assert(xs[0] == text_tree(m.id));
    assert(xs[1] == opt_text_tree(m.start_time_stamp));
    assert(xs[2] == opt_text_tree(m.default_instrument_configuration_ref));
    assert(xs[3] == opt_text_tree(m.default_source_file_ref));
    assert(xs[4] == opt_text_tree(m.sample_ref));
    assert(xs[5] == each_referenceable_param_group_ref_tree(m.referenceable_param_group_refs));
    assert(xs[6] == each_cv_param_tree(m.cv_params));
    assert(xs[7] == each_user_param_tree(m.user_params));
    assert(xs[8] == opt_spectrum_list_tree(m.spectrum_list));
    assert(xs[9] == opt_chromatogram_list_tree(m.chromatogram_list));
    assert(tree_run(run_tree(m)).unwrap() =~~= bare_run(m));
}

/// Makes the tree of one run.
pub fn make_run_tree(x: &Run) -> (t: Tree)
    ensures
        model_of(t) == run_tree(x.deep_view()),
{
    let mut items: Vec<Tree> = Vec::new();
    items.push(make_text_tree(&x.id));
    items.push(make_opt_text_tree(&x.start_time_stamp));
    items.push(make_opt_text_tree(&x.default_instrument_configuration_ref));
    items.push(make_opt_text_tree(&x.default_source_file_ref));
    items.push(make_opt_text_tree(&x.sample_ref));
    items.push(make_each_referenceable_param_group_ref_tree(&x.referenceable_param_group_refs));
    items.push(make_each_cv_param_tree(&x.cv_params));
    items.push(make_each_user_param_tree(&x.user_params));
    items.push(make_opt_spectrum_list_tree(&x.spectrum_list));
    items.push(make_opt_chromatogram_list_tree(&x.chromatogram_list));
    proof {
        lemma_list_model(items);
        assert(models(items@)[0] == model_of(items@[0]));
        assert(models(items@)[1] == model_of(items@[1]));
        assert(models(items@)[2] == model_of(items@[2]));
        assert(models(items@)[3] == model_of(items@[3]));
        assert(models(items@)[4] == model_of(items@[4]));
        assert(models(items@)[5] == model_of(items@[5]));
        assert(models(items@)[6] == model_of(items@[6]));
        assert(models(items@)[7] == model_of(items@[7]));
        assert(models(items@)[8] == model_of(items@[8]));
        assert(models(items@)[9] == model_of(items@[9]));
        assert(models(items@) =~= children_of(run_tree(x.deep_view())));
    }
    Tree::List(items)
}

/// Reads the run that a tree holds.
pub fn read_run_tree(t: &Tree) -> (r: Option<Run>)
    ensures
        match r {
            Some(x) => tree_run(model_of(*t)) == Some(x.deep_view()),
            None => tree_run(model_of(*t)) is None,
        },
{
    match t {
        Tree::Leaf(_) => None,
        Tree::List(xs) => {
            proof {
                lemma_list_model(*xs);
            }
            if xs.len() != 10 {
                return None;
            }
            assert(models(xs@)[0] == model_of(xs@[0]));
            assert(models(xs@)[1] == model_of(xs@[1]));
            assert(models(xs@)[2] == model_of(xs@[2]));
            assert(models(xs@)[3] == model_of(xs@[3]));
            assert(models(xs@)[4] == model_of(xs@[4]));
            assert(models(xs@)[5] == model_of(xs@[5]));
            assert(models(xs@)[6] == model_of(xs@[6]));
            assert(models(xs@)[7] == model_of(xs@[7]));
            assert(models(xs@)[8] == model_of(xs@[8]));
            assert(models(xs@)[9] == model_of(xs@[9]));
            let got0 = match read_text_tree(&xs[0]) {
                Some(v) => v,
                None => {
                    return None;
                },
            };
            let got1 = match read_opt_text_tree(&xs[1]) {
                Some(v) => v,
                None => {
                    return None;
                },
            };
            let got2 = match read_opt_text_tree(&xs[2]) {
                Some(v) => v,
                None => {
                    return None;
                },
            };
            let got3 = match read_opt_text_tree(&xs[3]) {
                Some(v) => v,
                None => {
                    return None;
                },
            };
            let got4 = match read_opt_text_tree(&xs[4]) {
                Some(v) => v,
                None => {
                    return None;
                },
            };
            let got5 = match read_each_referenceable_param_group_ref_tree(&xs[5]) {
                Some(v) => v,
                None => {
                    return None;
                },
            };
            let got6 = match read_each_cv_param_tree(&xs[6]) {
                Some(v) => v,
                None => {
                    return None;
                },
            };
            let got7 = match read_each_user_param_tree(&xs[7]) {
                Some(v) => v,
                None => {
                    return None;
                },
            };
            let got8 = match read_opt_spectrum_list_tree(&xs[8]) {
                Some(v) => v,
                None => {
                    return None;
                },
            };
            let got9 = match read_opt_chromatogram_list_tree(&xs[9]) {
                Some(v) => v,
                None => {
                    return None;
                },
            };
            let x = Run {
                id: got0,
                start_time_stamp: got1,
                default_instrument_configuration_ref: got2,
                default_source_file_ref: got3,
                sample_ref: got4,
                referenceable_param_group_refs: got5,
                cv_params: got6,
                user_params: got7,
                spectrum_list: got8,
                chromatogram_list: got9,
            };
            assert(x.deep_view() =~~= tree_run(model_of(*t)).unwrap());
            Some(x)
        },
    }
}

/// The tree of one cv: the trees of its fields, in their order.
pub open spec fn cv_tree(m: CvModel) -> TreeModel {
    TreeModel::List(seq![
        value_tree(m.id),
        value_tree(m.full_name),
        value_tree(m.version),
        value_tree(m.uri),
    ])
}

/// One cv without the elements of its arrays.
pub open spec fn bare_cv(m: CvModel) -> CvModel {
    CvModel {
        id: m.id,
        full_name: m.full_name,
        version: m.version,
        uri: m.uri,
    }
}

/// The cv that a tree holds.
pub open spec fn tree_cv(t: TreeModel) -> Option<CvModel> {
    match t {
        TreeModel::List(xs) => if xs.len() == 4
            && tree_value(xs[0]) is Some
            && tree_value(xs[1]) is Some
            && tree_value(xs[2]) is Some
            && tree_value(xs[3]) is Some {
            Some(CvModel {
                id: tree_value(xs[0]).unwrap(),
                full_name: tree_value(xs[1]).unwrap(),
                version: tree_value(xs[2]).unwrap(),
                uri: tree_value(xs[3]).unwrap(),
            })
        } else {
            None
        },
        TreeModel::Leaf(_) => None,
    }
}

/// One cv comes back from its tree as it went in, but for the
/// elements of its arrays.
pub proof fn lemma_cv_comes_back(m: CvModel)
    ensures
        tree_cv(cv_tree(m)) == Some(bare_cv(m)),
{
    lemma_fields_come_back();
    let xs = children_of(cv_tree(m));
    assert(xs[0] == value_tree(m.id));
    assert(xs[1] == value_tree(m.full_name));
    assert(xs[2] == value_tree(m.version));
    assert(xs[3] == value_tree(m.uri));
    assert(tree_cv(cv_tree(m)).unwrap() =~~= bare_cv(m));
}

/// Makes the tree of one cv.
pub fn make_cv_tree(x: &Cv) -> (t: Tree)
    ensures
        model_of(t) == cv_tree(x.deep_view()),
{
    let mut items: Vec<Tree> = Vec::new();
    items.push(make_value_tree(&x.id));
    items.push(make_value_tree(&x.full_name));
    items.push(make_value_tree(&x.version));
    items.push(make_value_tree(&x.uri));
    proof {
        lemma_list_model(items);
        assert(models(items@)[0] == model_of(items@[0]));
        assert(models(items@)[1] == model_of(items@[1]));
        assert(models(items@)[2] == model_of(items@[2]));
        assert(models(items@)[3] == model_of(items@[3]));
        assert(models(items@) =~= children_of(cv_tree(x.deep_view())));
    }
    Tree::List(items)
}

/// Reads the cv that a tree holds.
pub fn read_cv_tree(t: &Tree) -> (r: Option<Cv>)
    ensures
        match r {
            Some(x) => tree_cv(model_of(*t)) == Some(x.deep_view()),
            None => tree_cv(model_of(*t)) is None,
        },
{
    match t {
        Tree::Leaf(_) => None,
        Tree::List(xs) => {
            proof {
                lemma_list_model(*xs);
            }
            if xs.len() != 4 {
                return None;
            }
            assert(models(xs@)[0] == model_of(xs@[0]));
            assert(models(xs@)[1] == model_of(xs@[1]));
            assert(models(xs@)[2] == model_of(xs@[2]));
            assert(models(xs@)[3] == model_of(xs@[3]));
            let got0 = match read_value_tree(&xs[0]) {
                Some(v) => v,
                None => {
                    return None;
                },
            };
            let got1 = match read_value_tree(&xs[1]) {
                Some(v) => v,
                None => {
                    return None;
                },
            };
            let got2 = match read_value_tree(&xs[2]) {
                Some(v) => v,
                None => {
                    return None;
                },
            };
            let got3 = match read_value_tree(&xs[3]) {
                Some(v) => v,
                None => {
                    return None;
                },
            };
            let x = Cv {
                id: got0,
                full_name: got1,
                version: got2,
                uri: got3,
            };
            assert(x.deep_view() =~~= tree_cv(model_of(*t)).unwrap());
            Some(x)
        },
    }
}

/// One cv holds no arrays, so nothing is taken out of it.
pub proof fn lemma_bare_cv(m: CvModel)
    ensures
        bare_cv(m) == m,
{
    assert(bare_cv(m) =~~= m);
}

/// A list of elements that are each one cv holds no arrays, so nothing
/// is taken out of it.
pub proof fn lemma_bare_each_cv(ms: Seq<CvModel>)
    ensures
        bare_each_cv(ms) == ms,
{
    assert forall|k: int| 0 <= k < ms.len() implies #[trigger] bare_cv(ms[k]) == ms[k] by {
        lemma_bare_cv(ms[k]);
    }
    assert(bare_each_cv(ms) =~= ms);
}

/// The tree of a list: the tree of each cv, in their order.
pub open spec fn each_cv_tree(ms: Seq<CvModel>) -> TreeModel {
    TreeModel::List(Seq::new(ms.len(), |k: int| cv_tree(ms[k])))
}

/// Each cv of a list without the elements of its arrays.
pub open spec fn bare_each_cv(ms: Seq<CvModel>) -> Seq<CvModel> {
    Seq::new(ms.len(), |k: int| bare_cv(ms[k]))
}

/// The list that a tree holds: each of its trees as one cv.
pub open spec fn tree_each_cv(t: TreeModel) -> Option<Seq<CvModel>> {
    match t {
        TreeModel::List(xs) => if forall|k: int|
            0 <= k < xs.len() ==> (#[trigger] tree_cv(xs[k])) is Some {
            Some(Seq::new(xs.len(), |k: int| tree_cv(xs[k]).unwrap()))
        } else {
            None
        },
        TreeModel::Leaf(_) => None,
    }
}

/// Each cv of a list comes back from the tree of the list as it
/// went in, but for the elements of its arrays.
pub proof fn lemma_each_cv_comes_back(ms: Seq<CvModel>)
    ensures
        tree_each_cv(each_cv_tree(ms)) == Some(bare_each_cv(ms)),
{
    let xs = children_of(each_cv_tree(ms));
    assert forall|k: int| 0 <= k < xs.len() implies #[trigger] tree_cv(xs[k]) == Some(
        bare_cv(ms[k]),
    ) by {
        lemma_cv_comes_back(ms[k]);
    }
    assert(tree_each_cv(each_cv_tree(ms)).unwrap() =~= bare_each_cv(ms));
}

/// Makes the tree of a list, of each cv.
pub fn make_each_cv_tree(v: &Vec<Cv>) -> (t: Tree)
    ensures
        model_of(t) == each_cv_tree(v.deep_view()),
{
    let ghost ms = v.deep_view();
    let mut items: Vec<Tree> = Vec::new();
    let mut i: usize = 0;
    while i < v.len()
        invariant
            i <= v@.len(),
            ms == v.deep_view(),
            items@.len() == i,
            forall|k: int| 0 <= k < i ==> model_of(#[trigger] items@[k]) == cv_tree(ms[k]),
        decreases v@.len() - i,
    {
        assert(ms[i as int] == v@[i as int].deep_view());
        items.push(make_cv_tree(&v[i]));
        i = i + 1;
    }
    proof {
        lemma_list_model(items);
        assert(models(items@) =~= children_of(each_cv_tree(ms)));
    }
    Tree::List(items)
}

/// Reads the list that a tree holds, each of its trees as one cv.
pub fn read_each_cv_tree(t: &Tree) -> (r: Option<Vec<Cv>>)
    ensures
        match r {
            Some(v) => tree_each_cv(model_of(*t)) == Some(v.deep_view()),
            None => tree_each_cv(model_of(*t)) is None,
        },
{
    match t {
        Tree::Leaf(_) => None,
        Tree::List(xs) => {
            proof {
                lemma_list_model(*xs);
            }
            let ghost tm = models(xs@);
            let mut out: Vec<Cv> = Vec::new();
            let mut i: usize = 0;
            while i < xs.len()
                invariant
                    i <= xs@.len(),
                    tm == models(xs@),
                    model_of(*t) == TreeModel::List(tm),
                    out@.len() == i,
                    forall|k: int|
                        0 <= k < i ==> #[trigger] tree_cv(tm[k]) == Some(out@[k].deep_view()),
                decreases xs@.len() - i,
            {
                assert(tm[i as int] == model_of(xs@[i as int]));
                match read_cv_tree(&xs[i]) {
                    Some(x) => {
                        out.push(x);
                    },
                    None => {
                        assert(tree_cv(tm[i as int]) is None);
                        return None;
                    },
                }
                i = i + 1;
            }
            assert(out.deep_view() =~= tree_each_cv(model_of(*t)).unwrap());
            Some(out)
        },
    }
}

/// The tree of one cv list: the trees of its fields, in their order.
pub open spec fn cv_list_tree(m: CvListModel) -> TreeModel {
    TreeModel::List(seq![
        opt_usize_tree(m.count),
        each_cv_tree(m.cv),
    ])
}

/// One cv list without the elements of its arrays.
pub open spec fn bare_cv_list(m: CvListModel) -> CvListModel {
    CvListModel {
        count: m.count,
        cv: bare_each_cv(m.cv),
    }
}

/// The cv list that a tree holds.
pub open spec fn tree_cv_list(t: TreeModel) -> Option<CvListModel> {
    match t {
        TreeModel::List(xs) => if xs.len() == 2
            && tree_opt_usize(xs[0]) is Some
            && tree_each_cv(xs[1]) is Some {
            Some(CvListModel {
                count: tree_opt_usize(xs[0]).unwrap(),
                cv: tree_each_cv(xs[1]).unwrap(),
            })
        } else {
            None
        },
        TreeModel::Leaf(_) => None,
    }
}

/// One cv list comes back from its tree as it went in, but for the
/// elements of its arrays.
pub proof fn lemma_cv_list_comes_back(m: CvListModel)
    ensures
        tree_cv_list(cv_list_tree(m)) == Some(bare_cv_list(m)),
{
    lemma_fields_come_back();
    lemma_each_cv_comes_back(m.cv);
    let xs = children_of(cv_list_tree(m));
    assert(xs[0] == opt_usize_tree(m.count));
    assert(xs[1] == each_cv_tree(m.cv));
    assert(tree_cv_list(cv_list_tree(m)).unwrap() =~~= bare_cv_list(m));
}

/// Makes the tree of one cv list.
pub fn make_cv_list_tree(x: &CvList) -> (t: Tree)
    ensures
        model_of(t) == cv_list_tree(x.deep_view()),
{
    let mut items: Vec<Tree> = Vec::new();
    items.push(make_opt_usize_tree(&x.count));
    items.push(make_each_cv_tree(&x.cv));
    proof {
        lemma_list_model(items);
        assert(models(items@)[0] == model_of(items@[0]));
        assert(models(items@)[1] == model_of(items@[1]));
        assert(models(items@) =~= children_of(cv_list_tree(x.deep_view())));
    }
    Tree::List(items)
}

/// Reads the cv list that a tree holds.
pub fn read_cv_list_tree(t: &Tree) -> (r: Option<CvList>)
    ensures
        match r {
            Some(x) => tree_cv_list(model_of(*t)) == Some(x.deep_view()),
            None => tree_cv_list(model_of(*t)) is None,
        },
{
    match t {
        Tree::Leaf(_) => None,
        Tree::List(xs) => {
            proof {
                lemma_list_model(*xs);
            }
            if xs.len() != 2 {
                return None;
            }
            assert(models(xs@)[0] == model_of(xs@[0]));
            assert(models(xs@)[1] == model_of(xs@[1]));
            let got0 = match read_opt_usize_tree(&xs[0]) {
                Some(v) => v,
                None => {
                    return None;
                },
            };
            let got1 = match read_each_cv_tree(&xs[1]) {
                Some(v) => v,
                None => {
                    return None;
                },
            };
            let x = CvList {
                count: got0,
                cv: got1,
            };
            assert(x.deep_view() =~~= tree_cv_list(model_of(*t)).unwrap());
            Some(x)
        },
    }
}

/// One cv list holds no arrays, so nothing is taken out of it.
pub proof fn lemma_bare_cv_list(m: CvListModel)
    ensures
        bare_cv_list(m) == m,
{
    lemma_bare_each_cv(m.cv);
    assert(bare_cv_list(m) =~~= m);
}

/// An optional cv list holds no arrays, so nothing is taken out of it.
pub proof fn lemma_bare_opt_cv_list(o: Option<CvListModel>)
    ensures
        bare_opt_cv_list(o) == o,
{
    match o {
        Some(m) => {
            lemma_bare_cv_list(m);
        },
        None => {},
    }
}

/// The tree of an optional cv list: a list of none or of one.
pub open spec fn opt_cv_list_tree(o: Option<CvListModel>) -> TreeModel {
    match o {
        Some(m) => TreeModel::List(seq![cv_list_tree(m)]),
        None => TreeModel::List(Seq::empty()),
    }
}

/// An optional cv list without the elements of its arrays.
pub open spec fn bare_opt_cv_list(o: Option<CvListModel>) -> Option<CvListModel> {
    match o {
        Some(m) => Some(bare_cv_list(m)),
        None => None,
    }
}

/// The optional cv list that a tree holds.
pub open spec fn tree_opt_cv_list(t: TreeModel) -> Option<Option<CvListModel>> {
    match t {
        TreeModel::List(xs) => if xs.len() == 0 {
            Some(None)
        } else if xs.len() == 1 && tree_cv_list(xs[0]) is Some {
            Some(Some(tree_cv_list(xs[0]).unwrap()))
        } else {
            None
        },
        TreeModel::Leaf(_) => None,
    }
}

/// An optional cv list comes back from its tree as it went in, but for the
/// elements of its arrays.
pub proof fn lemma_opt_cv_list_comes_back(o: Option<CvListModel>)
    ensures
        tree_opt_cv_list(opt_cv_list_tree(o)) == Some(bare_opt_cv_list(o)),
{
    match o {
        Some(m) => {
            lemma_cv_list_comes_back(m);
            assert(children_of(opt_cv_list_tree(o))[0] == cv_list_tree(m));
        },
        None => {},
    }
}

/// Makes the tree of an optional cv list.
pub fn make_opt_cv_list_tree(o: &Option<CvList>) -> (t: Tree)
    ensures
        model_of(t) == opt_cv_list_tree(o.deep_view()),
{
    let mut items: Vec<Tree> = Vec::new();
    match o {
        Some(x) => {
            items.push(make_cv_list_tree(x));
        },
        None => {},
    }
    proof {
        lemma_list_model(items);
        assert(models(items@) =~= children_of(opt_cv_list_tree(o.deep_view())));
    }
    Tree::List(items)
}

/// Reads the optional cv list that a tree holds.
pub fn read_opt_cv_list_tree(t: &Tree) -> (r: Option<Option<CvList>>)
    ensures
        match r {
            Some(o) => tree_opt_cv_list(model_of(*t)) == Some(o.deep_view()),
            None => tree_opt_cv_list(model_of(*t)) is None,
        },
{
    match t {
        Tree::Leaf(_) => None,
        Tree::List(xs) => {
            proof {
                lemma_list_model(*xs);
            }
            if xs.len() == 0 {
                return Some(None);
            }
            if xs.len() != 1 {
                return None;
            }
            assert(models(xs@)[0] == model_of(xs@[0]));
            match read_cv_list_tree(&xs[0]) {
                Some(x) => Some(Some(x)),
                None => None,
            }
        },
    }
}

/// The tree of one file content: the trees of its fields, in their order.
pub open spec fn file_content_tree(m: FileContentModel) -> TreeModel {
    TreeModel::List(seq![
        each_cv_param_tree(m.cv_params),
        each_user_param_tree(m.user_params),
    ])
}

/// One file content without the elements of its arrays.
pub open spec fn bare_file_content(m: FileContentModel) -> FileContentModel {
    FileContentModel {
        cv_params: bare_each_cv_param(m.cv_params),
        user_params: bare_each_user_param(m.user_params),
    }
}

/// The file content that a tree holds.
pub open spec fn tree_file_content(t: TreeModel) -> Option<FileContentModel> {
    match t {
        TreeModel::List(xs) => if xs.len() == 2
            && tree_each_cv_param(xs[0]) is Some
            && tree_each_user_param(xs[1]) is Some {
            Some(FileContentModel {
                cv_params: tree_each_cv_param(xs[0]).unwrap(),
                user_params: tree_each_user_param(xs[1]).unwrap(),
            })
        } else {
            None
        },
        TreeModel::Leaf(_) => None,
    }
}

/// One file content comes back from its tree as it went in, but for the
/// elements of its arrays.
pub proof fn lemma_file_content_comes_back(m: FileContentModel)
    ensures
        tree_file_content(file_content_tree(m)) == Some(bare_file_content(m)),
{
    lemma_fields_come_back();
    lemma_each_cv_param_comes_back(m.cv_params);
    lemma_each_user_param_comes_back(m.user_params);
    let xs = children_of(file_content_tree(m));
    assert(xs[0] == each_cv_param_tree(m.cv_params));
    assert(xs[1] == each_user_param_tree(m.user_params));
    assert(tree_file_content(file_content_tree(m)).unwrap() =~~= bare_file_content(m));
}

/// Makes the tree of one file content.
pub fn make_file_content_tree(x: &FileContent) -> (t: Tree)
    ensures
        model_of(t) == file_content_tree(x.deep_view()),
{
    let mut items: Vec<Tree> = Vec::new();
    items.push(make_each_cv_param_tree(&x.cv_params));
    items.push(make_each_user_param_tree(&x.user_params));
    proof {
        lemma_list_model(items);
        assert(models(items@)[0] == model_of(items@[0]));
        assert(models(items@)[1] == model_of(items@[1]));
        assert(models(items@) =~= children_of(file_content_tree(x.deep_view())));
    }
    Tree::List(items)
}

/// Reads the file content that a tree holds.
pub fn read_file_content_tree(t: &Tree) -> (r: Option<FileContent>)
    ensures
        match r {
            Some(x) => tree_file_content(model_of(*t)) == Some(x.deep_view()),
            None => tree_file_content(model_of(*t)) is None,
        },
{
    match t {
        Tree::Leaf(_) => None,
        Tree::List(xs) => {
            proof {
                lemma_list_model(*xs);
            }
            if xs.len() != 2 {
                return None;
            }
            assert(models(xs@)[0] == model_of(xs@[0]));
            assert(models(xs@)[1] == model_of(xs@[1]));
            let got0 = match read_each_cv_param_tree(&xs[0]) {
                Some(v) => v,
                None => {
                    return None;
                },
            };
            let got1 = match read_each_user_param_tree(&xs[1]) {
                Some(v) => v,
                None => {
                    return None;
                },
            };
            let x = FileContent {
                cv_params: got0,
                user_params: got1,
            };
            assert(x.deep_view() =~~= tree_file_content(model_of(*t)).unwrap());
            Some(x)
        },
    }
}

/// One file content holds no arrays, so nothing is taken out of it.
pub proof fn lemma_bare_file_content(m: FileContentModel)
    ensures
        bare_file_content(m) == m,
{
    lemma_bare_each_cv_param(m.cv_params);
    lemma_bare_each_user_param(m.user_params);
    assert(bare_file_content(m) =~~= m);
}

/// The tree of one source file: the trees of its fields, in their order.
pub open spec fn source_file_tree(m: SourceFileModel) -> TreeModel {
    TreeModel::List(seq![
        text_tree(m.id),
        text_tree(m.name),
        text_tree(m.location),
        each_cv_param_tree(m.cv_param),
    ])
}

/// One source file without the elements of its arrays.
pub open spec fn bare_source_file(m: SourceFileModel) -> SourceFileModel {
    SourceFileModel {
        id: m.id,
        name: m.name,
        location: m.location,
        cv_param: bare_each_cv_param(m.cv_param),
    }
}

/// The source file that a tree holds.
pub open spec fn tree_source_file(t: TreeModel) -> Option<SourceFileModel> {
    match t {
        TreeModel::List(xs) => if xs.len() == 4
            && tree_text(xs[0]) is Some
            && tree_text(xs[1]) is Some
            && tree_text(xs[2]) is Some
            && tree_each_cv_param(xs[3]) is Some {
            Some(SourceFileModel {
                id: tree_text(xs[0]).unwrap(),
                name: tree_text(xs[1]).unwrap(),
                location: tree_text(xs[2]).unwrap(),
                cv_param: tree_each_cv_param(xs[3]).unwrap(),
            })
        } else {
            None
        },
        TreeModel::Leaf(_) => None,
    }
}

/// One source file comes back from its tree as it went in, but for the
/// elements of its arrays.
pub proof fn lemma_source_file_comes_back(m: SourceFileModel)
    ensures
        tree_source_file(source_file_tree(m)) == Some(bare_source_file(m)),
{
    lemma_fields_come_back();
    lemma_each_cv_param_comes_back(m.cv_param);
    let xs = children_of(source_file_tree(m));
    assert(xs[0] == text_tree(m.id));
    assert(xs[1] == text_tree(m.name));
    assert(xs[2] == text_tree(m.location));
    assert(xs[3] == each_cv_param_tree(m.cv_param));
    assert(tree_source_file(source_file_tree(m)).unwrap() =~~= bare_source_file(m));
}

/// Makes the tree of one source file.
pub fn make_source_file_tree(x: &SourceFile) -> (t: Tree)
    ensures
        model_of(t) == source_file_tree(x.deep_view()),
{
    let mut items: Vec<Tree> = Vec::new();
    items.push(make_text_tree(&x.id));
    items.push(make_text_tree(&x.name));
    items.push(make_text_tree(&x.location));
    items.push(make_each_cv_param_tree(&x.cv_param));
    proof {
        lemma_list_model(items);
        assert(models(items@)[0] == model_of(items@[0]));
        assert(models(items@)[1] == model_of(items@[1]));
        assert(models(items@)[2] == model_of(items@[2]));
        assert(models(items@)[3] == model_of(items@[3]));
        assert(models(items@) =~= children_of(source_file_tree(x.deep_view())));
    }
    Tree::List(items)
}

/// Reads the source file that a tree holds.
pub fn read_source_file_tree(t: &Tree) -> (r: Option<SourceFile>)
    ensures
        match r {
            Some(x) => tree_source_file(model_of(*t)) == Some(x.deep_view()),
            None => tree_source_file(model_of(*t)) is None,
        },
{
    match t {
        Tree::Leaf(_) => None,
        Tree::List(xs) => {
            proof {
                lemma_list_model(*xs);
            }
            if xs.len() != 4 {
                return None;
            }
            assert(models(xs@)[0] == model_of(xs@[0]));
            assert(models(xs@)[1] == model_of(xs@[1]));
            assert(models(xs@)[2] == model_of(xs@[2]));
            assert(models(xs@)[3] == model_of(xs@[3]));
            let got0 = match read_text_tree(&xs[0]) {
                Some(v) => v,
                None => {
                    return None;
                },
            };
            let got1 = match read_text_tree(&xs[1]) {
                Some(v) => v,
                None => {
                    return None;
                },
            };
            let got2 = match read_text_tree(&xs[2]) {
                Some(v) => v,
                None => {
                    return None;
                },
            };
            let got3 = match read_each_cv_param_tree(&xs[3]) {
                Some(v) => v,
                None => {
                    return None;
                },
            };
            let x = SourceFile {
                id: got0,
                name: got1,
                location: got2,
                cv_param: got3,
            };
            assert(x.deep_view() =~~= tree_source_file(model_of(*t)).unwrap());
            Some(x)
        },
    }
}

/// One source file holds no arrays, so nothing is taken out of it.
pub proof fn lemma_bare_source_file(m: SourceFileModel)
    ensures
        bare_source_file(m) == m,
{
    lemma_bare_each_cv_param(m.cv_param);
    assert(bare_source_file(m) =~~= m);
}

/// A list of elements that are each one source file holds no arrays, so nothing
/// is taken out of it.
pub proof fn lemma_bare_each_source_file(ms: Seq<SourceFileModel>)
    ensures
        bare_each_source_file(ms) == ms,
{
    assert forall|k: int| 0 <= k < ms.len() implies #[trigger] bare_source_file(ms[k]) == ms[k] by {
        lemma_bare_source_file(ms[k]);
    }
    assert(bare_each_source_file(ms) =~= ms);
}

/// The tree of a list: the tree of each source file, in their order.
pub open spec fn each_source_file_tree(ms: Seq<SourceFileModel>) -> TreeModel {
    TreeModel::List(Seq::new(ms.len(), |k: int| source_file_tree(ms[k])))
}

/// Each source file of a list without the elements of its arrays.
pub open spec fn bare_each_source_file(ms: Seq<SourceFileModel>) -> Seq<SourceFileModel> {
    Seq::new(ms.len(), |k: int| bare_source_file(ms[k]))
}

/// The list that a tree holds: each of its trees as one source file.
pub open spec fn tree_each_source_file(t: TreeModel) -> Option<Seq<SourceFileModel>> {
    match t {
        TreeModel::List(xs) => if forall|k: int|
            0 <= k < xs.len() ==> (#[trigger] tree_source_file(xs[k])) is Some {
            Some(Seq::new(xs.len(), |k: int| tree_source_file(xs[k]).unwrap()))
        } else {
            None
        },
        TreeModel::Leaf(_) => None,
    }
}

/// Each source file of a list comes back from the tree of the list as it
/// went in, but for the elements of its arrays.
pub proof fn lemma_each_source_file_comes_back(ms: Seq<SourceFileModel>)
    ensures
        tree_each_source_file(each_source_file_tree(ms)) == Some(bare_each_source_file(ms)),
{
    let xs = children_of(each_source_file_tree(ms));
    assert forall|k: int| 0 <= k < xs.len() implies #[trigger] tree_source_file(xs[k]) == Some(
        bare_source_file(ms[k]),
    ) by {
        lemma_source_file_comes_back(ms[k]);
    }
    assert(tree_each_source_file(each_source_file_tree(ms)).unwrap() =~= bare_each_source_file(ms));
}

/// Makes the tree of a list, of each source file.
pub fn make_each_source_file_tree(v: &Vec<SourceFile>) -> (t: Tree)
    ensures
        model_of(t) == each_source_file_tree(v.deep_view()),
{
    let ghost ms = v.deep_view();
    let mut items: Vec<Tree> = Vec::new();
    let mut i: usize = 0;
    while i < v.len()
        invariant
            i <= v@.len(),
            ms == v.deep_view(),
            items@.len() == i,
            forall|k: int| 0 <= k < i ==> model_of(#[trigger] items@[k]) == source_file_tree(ms[k]),
        decreases v@.len() - i,
    {
        assert(ms[i as int] == v@[i as int].deep_view());
        items.push(make_source_file_tree(&v[i]));
        i = i + 1;
    }
    proof {
        lemma_list_model(items);
        assert(models(items@) =~= children_of(each_source_file_tree(ms)));
    }
    Tree::List(items)
}

/// Reads the list that a tree holds, each of its trees as one source file.
pub fn read_each_source_file_tree(t: &Tree) -> (r: Option<Vec<SourceFile>>)
    ensures
        match r {
            Some(v) => tree_each_source_file(model_of(*t)) == Some(v.deep_view()),
            None => tree_each_source_file(model_of(*t)) is None,
        },
{
    match t {
        Tree::Leaf(_) => None,
        Tree::List(xs) => {
            proof {
                lemma_list_model(*xs);
            }
            let ghost tm = models(xs@);
            let mut out: Vec<SourceFile> = Vec::new();
            let mut i: usize = 0;
            while i < xs.len()
                invariant
                    i <= xs@.len(),
                    tm == models(xs@),
                    model_of(*t) == TreeModel::List(tm),
                    out@.len() == i,
                    forall|k: int|
                        0 <= k < i ==> #[trigger] tree_source_file(tm[k]) == Some(out@[k].deep_view()),
                decreases xs@.len() - i,
            {
                assert(tm[i as int] == model_of(xs@[i as int]));
                match read_source_file_tree(&xs[i]) {
                    Some(x) => {
                        out.push(x);
                    },
                    None => {
                        assert(tree_source_file(tm[i as int]) is None);
                        return None;
                    },
                }
                i = i + 1;
            }
            assert(out.deep_view() =~= tree_each_source_file(model_of(*t)).unwrap());
            Some(out)
        },
    }
}

/// The tree of one source file list: the trees of its fields, in their order.
pub open spec fn source_file_list_tree(m: SourceFileListModel) -> TreeModel {
    TreeModel::List(seq![
        opt_usize_tree(m.count),
        each_source_file_tree(m.source_file),
    ])
}

/// One source file list without the elements of its arrays.
pub open spec fn bare_source_file_list(m: SourceFileListModel) -> SourceFileListModel {
    SourceFileListModel {
        count: m.count,
        source_file: bare_each_source_file(m.source_file),
    }
}

/// The source file list that a tree holds.
pub open spec fn tree_source_file_list(t: TreeModel) -> Option<SourceFileListModel> {
    match t {
        TreeModel::List(xs) => if xs.len() == 2
            && tree_opt_usize(xs[0]) is Some
            && tree_each_source_file(xs[1]) is Some {
            Some(SourceFileListModel {
                count: tree_opt_usize(xs[0]).unwrap(),
                source_file: tree_each_source_file(xs[1]).unwrap(),
            })
        } else {
            None
        },
        TreeModel::Leaf(_) => None,
    }
}

/// One source file list comes back from its tree as it went in, but for the
/// elements of its arrays.
pub proof fn lemma_source_file_list_comes_back(m: SourceFileListModel)
    ensures
        tree_source_file_list(source_file_list_tree(m)) == Some(bare_source_file_list(m)),
{
    lemma_fields_come_back();
    lemma_each_source_file_comes_back(m.source_file);
    let xs = children_of(source_file_list_tree(m));
    assert(xs[0] == opt_usize_tree(m.count));
    assert(xs[1] == each_source_file_tree(m.source_file));
    assert(tree_source_file_list(source_file_list_tree(m)).unwrap() =~~= bare_source_file_list(m));
}

/// Makes the tree of one source file list.
pub fn make_source_file_list_tree(x: &SourceFileList) -> (t: Tree)
    ensures
        model_of(t) == source_file_list_tree(x.deep_view()),
{
    let mut items: Vec<Tree> = Vec::new();
    items.push(make_opt_usize_tree(&x.count));
    items.push(make_each_source_file_tree(&x.source_file));
    proof {
        lemma_list_model(items);
        assert(models(items@)[0] == model_of(items@[0]));
        assert(models(items@)[1] == model_of(items@[1]));
        assert(models(items@) =~= children_of(source_file_list_tree(x.deep_view())));
    }
    Tree::List(items)
}

/// Reads the source file list that a tree holds.
pub fn read_source_file_list_tree(t: &Tree) -> (r: Option<SourceFileList>)
    ensures
        match r {
            Some(x) => tree_source_file_list(model_of(*t)) == Some(x.deep_view()),
            None => tree_source_file_list(model_of(*t)) is None,
        },
{
    match t {
        Tree::Leaf(_) => None,
        Tree::List(xs) => {
            proof {
                lemma_list_model(*xs);
            }
            if xs.len() != 2 {
                return None;
            }
            assert(models(xs@)[0] == model_of(xs@[0]));
            assert(models(xs@)[1] == model_of(xs@[1]));
            let got0 = match read_opt_usize_tree(&xs[0]) {
                Some(v) => v,
                None => {
                    return None;
                },
            };
            let got1 = match read_each_source_file_tree(&xs[1]) {
                Some(v) => v,
                None => {
                    return None;
                },
            };
            let x = SourceFileList {
                count: got0,
                source_file: got1,
            };
            assert(x.deep_view() =~~= tree_source_file_list(model_of(*t)).unwrap());
            Some(x)
        },
    }
}

/// One source file list holds no arrays, so nothing is taken out of it.
pub proof fn lemma_bare_source_file_list(m: SourceFileListModel)
    ensures
        bare_source_file_list(m) == m,
{
    lemma_bare_each_source_file(m.source_file);
    assert(bare_source_file_list(m) =~~= m);
}

/// The tree of one file description: the trees of its fields, in their order.
pub open spec fn file_description_tree(m: FileDescriptionModel) -> TreeModel {
    TreeModel::List(seq![
        file_content_tree(m.file_content),
        source_file_list_tree(m.source_file_list),
    ])
}

/// One file description without the elements of its arrays.
pub open spec fn bare_file_description(m: FileDescriptionModel) -> FileDescriptionModel {
    FileDescriptionModel {
        file_content: bare_file_content(m.file_content),
        source_file_list: bare_source_file_list(m.source_file_list),
    }
}

/// The file description that a tree holds.
pub open spec fn tree_file_description(t: TreeModel) -> Option<FileDescriptionModel> {
    match t {
        TreeModel::List(xs) => if xs.len() == 2
            && tree_file_content(xs[0]) is Some
            && tree_source_file_list(xs[1]) is Some {
            Some(FileDescriptionModel {
                file_content: tree_file_content(xs[0]).unwrap(),
                source_file_list: tree_source_file_list(xs[1]).unwrap(),
            })
        } else {
            None
        },
        TreeModel::Leaf(_) => None,
    }
}

/// One file description comes back from its tree as it went in, but for the
/// elements of its arrays.
pub proof fn lemma_file_description_comes_back(m: FileDescriptionModel)
    ensures
        tree_file_description(file_description_tree(m)) == Some(bare_file_description(m)),
{
    lemma_fields_come_back();
    lemma_file_content_comes_back(m.file_content);
    lemma_source_file_list_comes_back(m.source_file_list);
    let xs = children_of(file_description_tree(m));
    assert(xs[0] == file_content_tree(m.file_content));
    assert(xs[1] == source_file_list_tree(m.source_file_list));
    assert(tree_file_description(file_description_tree(m)).unwrap() =~~= bare_file_description(m));
}

/// Makes the tree of one file description.
pub fn make_file_description_tree(x: &FileDescription) -> (t: Tree)
    ensures
        model_of(t) == file_description_tree(x.deep_view()),
{
    let mut items: Vec<Tree> = Vec::new();
    items.push(make_file_content_tree(&x.file_content));
    items.push(make_source_file_list_tree(&x.source_file_list));
    proof {
        lemma_list_model(items);
        assert(models(items@)[0] == model_of(items@[0]));
        assert(models(items@)[1] == model_of(items@[1]));
        assert(models(items@) =~= children_of(file_description_tree(x.deep_view())));
    }
    Tree::List(items)
}

/// Reads the file description that a tree holds.
pub fn read_file_description_tree(t: &Tree) -> (r: Option<FileDescription>)
    ensures
        match r {
            Some(x) => tree_file_description(model_of(*t)) == Some(x.deep_view()),
            None => tree_file_description(model_of(*t)) is None,
        },
{
    match t {
        Tree::Leaf(_) => None,
        Tree::List(xs) => {
            proof {
                lemma_list_model(*xs);
            }
            if xs.len() != 2 {
                return None;
            }
            assert(models(xs@)[0] == model_of(xs@[0]));
            assert(models(xs@)[1] == model_of(xs@[1]));
            let got0 = match read_file_content_tree(&xs[0]) {
                Some(v) => v,
                None => {
                    return None;
                },
            };
            let got1 = match read_source_file_list_tree(&xs[1]) {
                Some(v) => v,
                None => {
                    return None;
                },
            };
            let x = FileDescription {
                file_content: got0,
                source_file_list: got1,
            };
            assert(x.deep_view() =~~= tree_file_description(model_of(*t)).unwrap());
            Some(x)
        },
    }
}

/// One file description holds no arrays, so nothing is taken out of it.
pub proof fn lemma_bare_file_description(m: FileDescriptionModel)
    ensures
        bare_file_description(m) == m,
{
    lemma_bare_file_content(m.file_content);
    lemma_bare_source_file_list(m.source_file_list);
    assert(bare_file_description(m) =~~= m);
}

/// The tree of one referenceable param group: the trees of its fields, in their order.
pub open spec fn referenceable_param_group_tree(m: ReferenceableParamGroupModel) -> TreeModel {
    TreeModel::List(seq![
        text_tree(m.id),
        each_cv_param_tree(m.cv_params),
        each_user_param_tree(m.user_params),
    ])
}

/// One referenceable param group without the elements of its arrays.
pub open spec fn bare_referenceable_param_group(m: ReferenceableParamGroupModel) -> ReferenceableParamGroupModel {
    ReferenceableParamGroupModel {
        id: m.id,
        cv_params: bare_each_cv_param(m.cv_params),
        user_params: bare_each_user_param(m.user_params),
    }
}

/// The referenceable param group that a tree holds.
pub open spec fn tree_referenceable_param_group(t: TreeModel) -> Option<ReferenceableParamGroupModel> {
    match t {
        TreeModel::List(xs) => if xs.len() == 3
            && tree_text(xs[0]) is Some
            && tree_each_cv_param(xs[1]) is Some
            && tree_each_user_param(xs[2]) is Some {
            Some(ReferenceableParamGroupModel {
                id: tree_text(xs[0]).unwrap(),
                cv_params: tree_each_cv_param(xs[1]).unwrap(),
                user_params: tree_each_user_param(xs[2]).unwrap(),
            })
        } else {
            None
        },
        TreeModel::Leaf(_) => None,
    }
}

/// One referenceable param group comes back from its tree as it went in, but for the
/// elements of its arrays.
pub proof fn lemma_referenceable_param_group_comes_back(m: ReferenceableParamGroupModel)
    ensures
        tree_referenceable_param_group(referenceable_param_group_tree(m)) == Some(bare_referenceable_param_group(m)),
{
    lemma_fields_come_back();
    lemma_each_cv_param_comes_back(m.cv_params);
    lemma_each_user_param_comes_back(m.user_params);
    let xs = children_of(referenceable_param_group_tree(m));
    assert(xs[0] == text_tree(m.id));
    assert(xs[1] == each_cv_param_tree(m.cv_params));
    assert(xs[2] == each_user_param_tree(m.user_params));
    assert(tree_referenceable_param_group(referenceable_param_group_tree(m)).unwrap() =~~= bare_referenceable_param_group(m));
}

/// Makes the tree of one referenceable param group.
pub fn make_referenceable_param_group_tree(x: &ReferenceableParamGroup) -> (t: Tree)
    ensures
        model_of(t) == referenceable_param_group_tree(x.deep_view()),
{
    let mut items: Vec<Tree> = Vec::new();
    items.push(make_text_tree(&x.id));
    items.push(make_each_cv_param_tree(&x.cv_params));
    items.push(make_each_user_param_tree(&x.user_params));
    proof {
        lemma_list_model(items);
        assert(models(items@)[0] == model_of(items@[0]));
        assert(models(items@)[1] == model_of(items@[1]));
        assert(models(items@)[2] == model_of(items@[2]));
        assert(models(items@) =~= children_of(referenceable_param_group_tree(x.deep_view())));
    }
    Tree::List(items)
}

/// Reads the referenceable param group that a tree holds.
pub fn read_referenceable_param_group_tree(t: &Tree) -> (r: Option<ReferenceableParamGroup>)
    ensures
        match r {
            Some(x) => tree_referenceable_param_group(model_of(*t)) == Some(x.deep_view()),
            None => tree_referenceable_param_group(model_of(*t)) is None,
        },
{
    match t {
        Tree::Leaf(_) => None,
        Tree::List(xs) => {
            proof {
                lemma_list_model(*xs);
            }
            if xs.len() != 3 {
                return None;
            }
            assert(models(xs@)[0] == model_of(xs@[0]));
            assert(models(xs@)[1] == model_of(xs@[1]));
            assert(models(xs@)[2] == model_of(xs@[2]));
            let got0 = match read_text_tree(&xs[0]) {
                Some(v) => v,
                None => {
                    return None;
                },
            };
            let got1 = match read_each_cv_param_tree(&xs[1]) {
                Some(v) => v,
                None => {
                    return None;
                },
            };
            let got2 = match read_each_user_param_tree(&xs[2]) {
                Some(v) => v,
                None => {
                    return None;
                },
            };
            let x = ReferenceableParamGroup {
                id: got0,
                cv_params: got1,
                user_params: got2,
            };
            assert(x.deep_view() =~~= tree_referenceable_param_group(model_of(*t)).unwrap());
            Some(x)
        },
    }
}

/// One referenceable param group holds no arrays, so nothing is taken out of it.
pub proof fn lemma_bare_referenceable_param_group(m: ReferenceableParamGroupModel)
    ensures
        bare_referenceable_param_group(m) == m,
{
    lemma_bare_each_cv_param(m.cv_params);
    lemma_bare_each_user_param(m.user_params);
    assert(bare_referenceable_param_group(m) =~~= m);
}

/// A list of elements that are each one referenceable param group holds no arrays, so nothing
/// is taken out of it.
pub proof fn lemma_bare_each_referenceable_param_group(ms: Seq<ReferenceableParamGroupModel>)
    ensures
        bare_each_referenceable_param_group(ms) == ms,
{
    assert forall|k: int| 0 <= k < ms.len() implies #[trigger] bare_referenceable_param_group(ms[k]) == ms[k] by {
        lemma_bare_referenceable_param_group(ms[k]);
    }
    assert(bare_each_referenceable_param_group(ms) =~= ms);
}

/// The tree of a list: the tree of each referenceable param group, in their order.
pub open spec fn each_referenceable_param_group_tree(ms: Seq<ReferenceableParamGroupModel>) -> TreeModel {
    TreeModel::List(Seq::new(ms.len(), |k: int| referenceable_param_group_tree(ms[k])))
}

/// Each referenceable param group of a list without the elements of its arrays.
pub open spec fn bare_each_referenceable_param_group(ms: Seq<ReferenceableParamGroupModel>) -> Seq<ReferenceableParamGroupModel> {
    Seq::new(ms.len(), |k: int| bare_referenceable_param_group(ms[k]))
}

/// The list that a tree holds: each of its trees as one referenceable param group.
pub open spec fn tree_each_referenceable_param_group(t: TreeModel) -> Option<Seq<ReferenceableParamGroupModel>> {
    match t {
        TreeModel::List(xs) => if forall|k: int|
            0 <= k < xs.len() ==> (#[trigger] tree_referenceable_param_group(xs[k])) is Some {
            Some(Seq::new(xs.len(), |k: int| tree_referenceable_param_group(xs[k]).unwrap()))
        } else {
            None
        },
        TreeModel::Leaf(_) => None,
    }
}

/// Each referenceable param group of a list comes back from the tree of the list as it
/// went in, but for the elements of its arrays.
pub proof fn lemma_each_referenceable_param_group_comes_back(ms: Seq<ReferenceableParamGroupModel>)
    ensures
        tree_each_referenceable_param_group(each_referenceable_param_group_tree(ms)) == Some(bare_each_referenceable_param_group(ms)),
{
    let xs = children_of(each_referenceable_param_group_tree(ms));
    assert forall|k: int| 0 <= k < xs.len() implies #[trigger] tree_referenceable_param_group(xs[k]) == Some(
        bare_referenceable_param_group(ms[k]),
    ) by {
        lemma_referenceable_param_group_comes_back(ms[k]);
    }
    assert(tree_each_referenceable_param_group(each_referenceable_param_group_tree(ms)).unwrap() =~= bare_each_referenceable_param_group(ms));
}

/// Makes the tree of a list, of each referenceable param group.
pub fn make_each_referenceable_param_group_tree(v: &Vec<ReferenceableParamGroup>) -> (t: Tree)
    ensures
        model_of(t) == each_referenceable_param_group_tree(v.deep_view()),
{
    let ghost ms = v.deep_view();
    let mut items: Vec<Tree> = Vec::new();
    let mut i: usize = 0;
    while i < v.len()
        invariant
            i <= v@.len(),
            ms == v.deep_view(),
            items@.len() == i,
            forall|k: int| 0 <= k < i ==> model_of(#[trigger] items@[k]) == referenceable_param_group_tree(ms[k]),
        decreases v@.len() - i,
    {
        assert(ms[i as int] == v@[i as int].deep_view());
        items.push(make_referenceable_param_group_tree(&v[i]));
        i = i + 1;
    }
    proof {
        lemma_list_model(items);
        assert(models(items@) =~= children_of(each_referenceable_param_group_tree(ms)));
    }
    Tree::List(items)
}

/// Reads the list that a tree holds, each of its trees as one referenceable param group.
pub fn read_each_referenceable_param_group_tree(t: &Tree) -> (r: Option<Vec<ReferenceableParamGroup>>)
    ensures
        match r {
            Some(v) => tree_each_referenceable_param_group(model_of(*t)) == Some(v.deep_view()),
            None => tree_each_referenceable_param_group(model_of(*t)) is None,
        },
{
    match t {
        Tree::Leaf(_) => None,
        Tree::List(xs) => {
            proof {
                lemma_list_model(*xs);
            }
            let ghost tm = models(xs@);
            let mut out: Vec<ReferenceableParamGroup> = Vec::new();
            let mut i: usize = 0;
            while i < xs.len()
                invariant
                    i <= xs@.len(),
                    tm == models(xs@),
                    model_of(*t) == TreeModel::List(tm),
                    out@.len() == i,
                    forall|k: int|
                        0 <= k < i ==> #[trigger] tree_referenceable_param_group(tm[k]) == Some(out@[k].deep_view()),
                decreases xs@.len() - i,
            {
                assert(tm[i as int] == model_of(xs@[i as int]));
                match read_referenceable_param_group_tree(&xs[i]) {
                    Some(x) => {
                        out.push(x);
                    },
                    None => {
                        assert(tree_referenceable_param_group(tm[i as int]) is None);
                        return None;
                    },
                }
                i = i + 1;
            }
            assert(out.deep_view() =~= tree_each_referenceable_param_group(model_of(*t)).unwrap());
            Some(out)
        },
    }
}

/// The tree of one referenceable param group list: the trees of its fields, in their order.
pub open spec fn referenceable_param_group_list_tree(m: ReferenceableParamGroupListModel) -> TreeModel {
    TreeModel::List(seq![
        opt_usize_tree(m.count),
        each_referenceable_param_group_tree(m.referenceable_param_groups),
    ])
}

/// One referenceable param group list without the elements of its arrays.
pub open spec fn bare_referenceable_param_group_list(m: ReferenceableParamGroupListModel) -> ReferenceableParamGroupListModel {
    ReferenceableParamGroupListModel {
        count: m.count,
        referenceable_param_groups: bare_each_referenceable_param_group(m.referenceable_param_groups),
    }
}

/// The referenceable param group list that a tree holds.
pub open spec fn tree_referenceable_param_group_list(t: TreeModel) -> Option<ReferenceableParamGroupListModel> {
    match t {
        TreeModel::List(xs) => if xs.len() == 2
            && tree_opt_usize(xs[0]) is Some
            && tree_each_referenceable_param_group(xs[1]) is Some {
            Some(ReferenceableParamGroupListModel {
                count: tree_opt_usize(xs[0]).unwrap(),
                referenceable_param_groups: tree_each_referenceable_param_group(xs[1]).unwrap(),
            })
        } else {
            None
        },
        TreeModel::Leaf(_) => None,
    }
}

/// One referenceable param group list comes back from its tree as it went in, but for the
/// elements of its arrays.
pub proof fn lemma_referenceable_param_group_list_comes_back(m: ReferenceableParamGroupListModel)
    ensures
        tree_referenceable_param_group_list(referenceable_param_group_list_tree(m)) == Some(bare_referenceable_param_group_list(m)),
{
    lemma_fields_come_back();
    lemma_each_referenceable_param_group_comes_back(m.referenceable_param_groups);
    let xs = children_of(referenceable_param_group_list_tree(m));
    assert(xs[0] == opt_usize_tree(m.count));
    assert(xs[1] == each_referenceable_param_group_tree(m.referenceable_param_groups));
    assert(tree_referenceable_param_group_list(referenceable_param_group_list_tree(m)).unwrap() =~~= bare_referenceable_param_group_list(m));
}

/// Makes the tree of one referenceable param group list.
pub fn make_referenceable_param_group_list_tree(x: &ReferenceableParamGroupList) -> (t: Tree)
    ensures
        model_of(t) == referenceable_param_group_list_tree(x.deep_view()),
{
    let mut items: Vec<Tree> = Vec::new();
    items.push(make_opt_usize_tree(&x.count));
    items.push(make_each_referenceable_param_group_tree(&x.referenceable_param_groups));
    proof {
        lemma_list_model(items);
        assert(models(items@)[0] == model_of(items@[0]));
        assert(models(items@)[1] == model_of(items@[1]));
        assert(models(items@) =~= children_of(referenceable_param_group_list_tree(x.deep_view())));
    }
    Tree::List(items)
}

/// Reads the referenceable param group list that a tree holds.
pub fn read_referenceable_param_group_list_tree(t: &Tree) -> (r: Option<ReferenceableParamGroupList>)
    ensures
        match r {
            Some(x) => tree_referenceable_param_group_list(model_of(*t)) == Some(x.deep_view()),
            None => tree_referenceable_param_group_list(model_of(*t)) is None,
        },
{
    match t {
        Tree::Leaf(_) => None,
        Tree::List(xs) => {
            proof {
                lemma_list_model(*xs);
            }
            if xs.len() != 2 {
                return None;
            }
            assert(models(xs@)[0] == model_of(xs@[0]));
            assert(models(xs@)[1] == model_of(xs@[1]));
            let got0 = match read_opt_usize_tree(&xs[0]) {
                Some(v) => v,
                None => {
                    return None;
                },
            };
            let got1 = match read_each_referenceable_param_group_tree(&xs[1]) {
                Some(v) => v,
                None => {
                    return None;
                },
            };
            let x = ReferenceableParamGroupList {
                count: got0,
                referenceable_param_groups: got1,
            };
            assert(x.deep_view() =~~= tree_referenceable_param_group_list(model_of(*t)).unwrap());
            Some(x)
        },
    }
}

/// One referenceable param group list holds no arrays, so nothing is taken out of it.
pub proof fn lemma_bare_referenceable_param_group_list(m: ReferenceableParamGroupListModel)
    ensures
        bare_referenceable_param_group_list(m) == m,
{
    lemma_bare_each_referenceable_param_group(m.referenceable_param_groups);
    assert(bare_referenceable_param_group_list(m) =~~= m);
}

/// An optional referenceable param group list holds no arrays, so nothing is taken out of it.
pub proof fn lemma_bare_opt_referenceable_param_group_list(o: Option<ReferenceableParamGroupListModel>)
    ensures
        bare_opt_referenceable_param_group_list(o) == o,
{
    match o {
        Some(m) => {
            lemma_bare_referenceable_param_group_list(m);
        },
        None => {},
    }
}

/// The tree of an optional referenceable param group list: a list of none or of one.
pub open spec fn opt_referenceable_param_group_list_tree(o: Option<ReferenceableParamGroupListModel>) -> TreeModel {
    match o {
        Some(m) => TreeModel::List(seq![referenceable_param_group_list_tree(m)]),
        None => TreeModel::List(Seq::empty()),
    }
}

/// An optional referenceable param group list without the elements of its arrays.
pub open spec fn bare_opt_referenceable_param_group_list(o: Option<ReferenceableParamGroupListModel>) -> Option<ReferenceableParamGroupListModel> {
    match o {
        Some(m) => Some(bare_referenceable_param_group_list(m)),
        None => None,
    }
}

/// The optional referenceable param group list that a tree holds.
pub open spec fn tree_opt_referenceable_param_group_list(t: TreeModel) -> Option<Option<ReferenceableParamGroupListModel>> {
    match t {
        TreeModel::List(xs) => if xs.len() == 0 {
            Some(None)
        } else if xs.len() == 1 && tree_referenceable_param_group_list(xs[0]) is Some {
            Some(Some(tree_referenceable_param_group_list(xs[0]).unwrap()))
        } else {
            None
        },
        TreeModel::Leaf(_) => None,
    }
}

/// An optional referenceable param group list comes back from its tree as it went in, but for the
/// elements of its arrays.
pub proof fn lemma_opt_referenceable_param_group_list_comes_back(o: Option<ReferenceableParamGroupListModel>)
    ensures
        tree_opt_referenceable_param_group_list(opt_referenceable_param_group_list_tree(o)) == Some(bare_opt_referenceable_param_group_list(o)),
{
    match o {
        Some(m) => {
            lemma_referenceable_param_group_list_comes_back(m);
            assert(children_of(opt_referenceable_param_group_list_tree(o))[0] == referenceable_param_group_list_tree(m));
        },
        None => {},
    }
}

/// Makes the tree of an optional referenceable param group list.
pub fn make_opt_referenceable_param_group_list_tree(o: &Option<ReferenceableParamGroupList>) -> (t: Tree)
    ensures
        model_of(t) == opt_referenceable_param_group_list_tree(o.deep_view()),
{
    let mut items: Vec<Tree> = Vec::new();
    match o {
        Some(x) => {
            items.push(make_referenceable_param_group_list_tree(x));
        },
        None => {},
    }
    proof {
        lemma_list_model(items);
        assert(models(items@) =~= children_of(opt_referenceable_param_group_list_tree(o.deep_view())));
    }
    Tree::List(items)
}

/// Reads the optional referenceable param group list that a tree holds.
pub fn read_opt_referenceable_param_group_list_tree(t: &Tree) -> (r: Option<Option<ReferenceableParamGroupList>>)
    ensures
        match r {
            Some(o) => tree_opt_referenceable_param_group_list(model_of(*t)) == Some(o.deep_view()),
            None => tree_opt_referenceable_param_group_list(model_of(*t)) is None,
        },
{
    match t {
        Tree::Leaf(_) => None,
        Tree::List(xs) => {
            proof {
                lemma_list_model(*xs);
            }
            if xs.len() == 0 {
                return Some(None);
            }
            if xs.len() != 1 {
                return None;
            }
            assert(models(xs@)[0] == model_of(xs@[0]));
            match read_referenceable_param_group_list_tree(&xs[0]) {
                Some(x) => Some(Some(x)),
                None => None,
            }
        },
    }
}

/// The tree of one sample: the trees of its fields, in their order.
pub open spec fn sample_tree(m: SampleModel) -> TreeModel {
    TreeModel::List(seq![
        text_tree(m.id),
        text_tree(m.name),
        each_cv_param_tree(m.cv_params),
        each_user_param_tree(m.user_params),
    ])
}

/// One sample without the elements of its arrays.
pub open spec fn bare_sample(m: SampleModel) -> SampleModel {
    SampleModel {
        id: m.id,
        name: m.name,
        cv_params: bare_each_cv_param(m.cv_params),
        user_params: bare_each_user_param(m.user_params),
    }
}

/// The sample that a tree holds.
pub open spec fn tree_sample(t: TreeModel) -> Option<SampleModel> {
    match t {
        TreeModel::List(xs) => if xs.len() == 4
            && tree_text(xs[0]) is Some
            && tree_text(xs[1]) is Some
            && tree_each_cv_param(xs[2]) is Some
            && tree_each_user_param(xs[3]) is Some {
            Some(SampleModel {
                id: tree_text(xs[0]).unwrap(),
                name: tree_text(xs[1]).unwrap(),
                cv_params: tree_each_cv_param(xs[2]).unwrap(),
                user_params: tree_each_user_param(xs[3]).unwrap(),
            })
        } else {
            None
        },
        TreeModel::Leaf(_) => None,
    }
}

/// One sample comes back from its tree as it went in, but for the
/// elements of its arrays.
pub proof fn lemma_sample_comes_back(m: SampleModel)
    ensures
        tree_sample(sample_tree(m)) == Some(bare_sample(m)),
{
    lemma_fields_come_back();
    lemma_each_cv_param_comes_back(m.cv_params);
    lemma_each_user_param_comes_back(m.user_params);
    let xs = children_of(sample_tree(m));
    assert(xs[0] == text_tree(m.id));
    assert(xs[1] == text_tree(m.name));
    assert(xs[2] == each_cv_param_tree(m.cv_params));
    assert(xs[3] == each_user_param_tree(m.user_params));
    assert(tree_sample(sample_tree(m)).unwrap() =~~= bare_sample(m));
}

/// Makes the tree of one sample.
pub fn make_sample_tree(x: &Sample) -> (t: Tree)
    ensures
        model_of(t) == sample_tree(x.deep_view()),
{
    let mut items: Vec<Tree> = Vec::new();
    items.push(make_text_tree(&x.id));
    items.push(make_text_tree(&x.name));
    items.push(make_each_cv_param_tree(&x.cv_params));
    items.push(make_each_user_param_tree(&x.user_params));
    proof {
        lemma_list_model(items);
        assert(models(items@)[0] == model_of(items@[0]));
        assert(models(items@)[1] == model_of(items@[1]));
        assert(models(items@)[2] == model_of(items@[2]));
        assert(models(items@)[3] == model_of(items@[3]));
        assert(models(items@) =~= children_of(sample_tree(x.deep_view())));
    }
    Tree::List(items)
}

/// Reads the sample that a tree holds.
pub fn read_sample_tree(t: &Tree) -> (r: Option<Sample>)
    ensures
        match r {
            Some(x) => tree_sample(model_of(*t)) == Some(x.deep_view()),
            None => tree_sample(model_of(*t)) is None,
        },
{
    match t {
        Tree::Leaf(_) => None,
        Tree::List(xs) => {
            proof {
                lemma_list_model(*xs);
            }
            if xs.len() != 4 {
                return None;
            }
            assert(models(xs@)[0] == model_of(xs@[0]));
            assert(models(xs@)[1] == model_of(xs@[1]));
            assert(models(xs@)[2] == model_of(xs@[2]));
            assert(models(xs@)[3] == model_of(xs@[3]));
            let got0 = match read_text_tree(&xs[0]) {
                Some(v) => v,
                None => {
                    return None;
                },
            };
            let got1 = match read_text_tree(&xs[1]) {
                Some(v) => v,
                None => {
                    return None;
                },
            };
            let got2 = match read_each_cv_param_tree(&xs[2]) {
                Some(v) => v,
                None => {
                    return None;
                },
            };
            let got3 = match read_each_user_param_tree(&xs[3]) {
                Some(v) => v,
                None => {
                    return None;
                },
            };
            let x = Sample {
                id: got0,
                name: got1,
                cv_params: got2,
                user_params: got3,
            };
            assert(x.deep_view() =~~= tree_sample(model_of(*t)).unwrap());
            Some(x)
        },
    }
}

/// One sample holds no arrays, so nothing is taken out of it.
pub proof fn lemma_bare_sample(m: SampleModel)
    ensures
        bare_sample(m) == m,
{
    lemma_bare_each_cv_param(m.cv_params);
    lemma_bare_each_user_param(m.user_params);
    assert(bare_sample(m) =~~= m);
}

/// A list of elements that are each one sample holds no arrays, so nothing
/// is taken out of it.
pub proof fn lemma_bare_each_sample(ms: Seq<SampleModel>)
    ensures
        bare_each_sample(ms) == ms,
{
    assert forall|k: int| 0 <= k < ms.len() implies #[trigger] bare_sample(ms[k]) == ms[k] by {
        lemma_bare_sample(ms[k]);
    }
    assert(bare_each_sample(ms) =~= ms);
}

/// The tree of a list: the tree of each sample, in their order.
pub open spec fn each_sample_tree(ms: Seq<SampleModel>) -> TreeModel {
    TreeModel::List(Seq::new(ms.len(), |k: int| sample_tree(ms[k])))
}

/// Each sample of a list without the elements of its arrays.
pub open spec fn bare_each_sample(ms: Seq<SampleModel>) -> Seq<SampleModel> {
    Seq::new(ms.len(), |k: int| bare_sample(ms[k]))
}

/// The list that a tree holds: each of its trees as one sample.
pub open spec fn tree_each_sample(t: TreeModel) -> Option<Seq<SampleModel>> {
    match t {
        TreeModel::List(xs) => if forall|k: int|
            0 <= k < xs.len() ==> (#[trigger] tree_sample(xs[k])) is Some {
            Some(Seq::new(xs.len(), |k: int| tree_sample(xs[k]).unwrap()))
        } else {
            None
        },
        TreeModel::Leaf(_) => None,
    }
}

/// Each sample of a list comes back from the tree of the list as it
/// went in, but for the elements of its arrays.
pub proof fn lemma_each_sample_comes_back(ms: Seq<SampleModel>)
    ensures
        tree_each_sample(each_sample_tree(ms)) == Some(bare_each_sample(ms)),
{
    let xs = children_of(each_sample_tree(ms));
    assert forall|k: int| 0 <= k < xs.len() implies #[trigger] tree_sample(xs[k]) == Some(
        bare_sample(ms[k]),
    ) by {
        lemma_sample_comes_back(ms[k]);
    }
    assert(tree_each_sample(each_sample_tree(ms)).unwrap() =~= bare_each_sample(ms));
}

/// Makes the tree of a list, of each sample.
pub fn make_each_sample_tree(v: &Vec<Sample>) -> (t: Tree)
    ensures
        model_of(t) == each_sample_tree(v.deep_view()),
{
    let ghost ms = v.deep_view();
    let mut items: Vec<Tree> = Vec::new();
    let mut i: usize = 0;
    while i < v.len()
        invariant
            i <= v@.len(),
            ms == v.deep_view(),
            items@.len() == i,
            forall|k: int| 0 <= k < i ==> model_of(#[trigger] items@[k]) == sample_tree(ms[k]),
        decreases v@.len() - i,
    {
        assert(ms[i as int] == v@[i as int].deep_view());
        items.push(make_sample_tree(&v[i]));
        i = i + 1;
    }
    proof {
        lemma_list_model(items);
        assert(models(items@) =~= children_of(each_sample_tree(ms)));
    }
    Tree::List(items)
}

/// Reads the list that a tree holds, each of its trees as one sample.
pub fn read_each_sample_tree(t: &Tree) -> (r: Option<Vec<Sample>>)
    ensures
        match r {
            Some(v) => tree_each_sample(model_of(*t)) == Some(v.deep_view()),
            None => tree_each_sample(model_of(*t)) is None,
        },
{
    match t {
        Tree::Leaf(_) => None,
        Tree::List(xs) => {
            proof {
                lemma_list_model(*xs);
            }
            let ghost tm = models(xs@);
            let mut out: Vec<Sample> = Vec::new();
            let mut i: usize = 0;
            while i < xs.len()
                invariant
                    i <= xs@.len(),
                    tm == models(xs@),
                    model_of(*t) == TreeModel::List(tm),
                    out@.len() == i,
                    forall|k: int|
                        0 <= k < i ==> #[trigger] tree_sample(tm[k]) == Some(out@[k].deep_view()),
                decreases xs@.len() - i,
            {
                assert(tm[i as int] == model_of(xs@[i as int]));
                match read_sample_tree(&xs[i]) {
                    Some(x) => {
                        out.push(x);
                    },
                    None => {
                        assert(tree_sample(tm[i as int]) is None);
                        return None;
                    },
                }
                i = i + 1;
            }
            assert(out.deep_view() =~= tree_each_sample(model_of(*t)).unwrap());
            Some(out)
        },
    }
}

/// The tree of one sample list: the trees of its fields, in their order.
pub open spec fn sample_list_tree(m: SampleListModel) -> TreeModel {
    TreeModel::List(seq![
        opt_u32_tree(m.count),
        each_sample_tree(m.samples),
    ])
}

/// One sample list without the elements of its arrays.
pub open spec fn bare_sample_list(m: SampleListModel) -> SampleListModel {
    SampleListModel {
        count: m.count,
        samples: bare_each_sample(m.samples),
    }
}

/// The sample list that a tree holds.
pub open spec fn tree_sample_list(t: TreeModel) -> Option<SampleListModel> {
    match t {
        TreeModel::List(xs) => if xs.len() == 2
            && tree_opt_u32(xs[0]) is Some
            && tree_each_sample(xs[1]) is Some {
            Some(SampleListModel {
                count: tree_opt_u32(xs[0]).unwrap(),
                samples: tree_each_sample(xs[1]).unwrap(),
            })
        } else {
            None
        },
        TreeModel::Leaf(_) => None,
    }
}

/// One sample list comes back from its tree as it went in, but for the
/// elements of its arrays.
pub proof fn lemma_sample_list_comes_back(m: SampleListModel)
    ensures
        tree_sample_list(sample_list_tree(m)) == Some(bare_sample_list(m)),
{
    lemma_fields_come_back();
    lemma_each_sample_comes_back(m.samples);
    let xs = children_of(sample_list_tree(m));
    assert(xs[0] == opt_u32_tree(m.count));
    assert(xs[1] == each_sample_tree(m.samples));
    assert(tree_sample_list(sample_list_tree(m)).unwrap() =~~= bare_sample_list(m));
}

/// Makes the tree of one sample list.
pub fn make_sample_list_tree(x: &SampleList) -> (t: Tree)
    ensures
        model_of(t) == sample_list_tree(x.deep_view()),
{
    let mut items: Vec<Tree> = Vec::new();
    items.push(make_opt_u32_tree(&x.count));
    items.push(make_each_sample_tree(&x.samples));
    proof {
        lemma_list_model(items);
        assert(models(items@)[0] == model_of(items@[0]));
        assert(models(items@)[1] == model_of(items@[1]));
        assert(models(items@) =~= children_of(sample_list_tree(x.deep_view())));
    }
    Tree::List(items)
}

/// Reads the sample list that a tree holds.
pub fn read_sample_list_tree(t: &Tree) -> (r: Option<SampleList>)
    ensures
        match r {
            Some(x) => tree_sample_list(model_of(*t)) == Some(x.deep_view()),
            None => tree_sample_list(model_of(*t)) is None,
        },
{
    match t {
        Tree::Leaf(_) => None,
        Tree::List(xs) => {
            proof {
                lemma_list_model(*xs);
            }
            if xs.len() != 2 {
                return None;
            }
            assert(models(xs@)[0] == model_of(xs@[0]));
            assert(models(xs@)[1] == model_of(xs@[1]));
            let got0 = match read_opt_u32_tree(&xs[0]) {
                Some(v) => v,
                None => {
                    return None;
                },
            };
            let got1 = match read_each_sample_tree(&xs[1]) {
                Some(v) => v,
                None => {
                    return None;
                },
            };
            let x = SampleList {
                count: got0,
                samples: got1,
            };
            assert(x.deep_view() =~~= tree_sample_list(model_of(*t)).unwrap());
            Some(x)
        },
    }
}

/// One sample list holds no arrays, so nothing is taken out of it.
pub proof fn lemma_bare_sample_list(m: SampleListModel)
    ensures
        bare_sample_list(m) == m,
{
    lemma_bare_each_sample(m.samples);
    assert(bare_sample_list(m) =~~= m);
}

/// An optional sample list holds no arrays, so nothing is taken out of it.
pub proof fn lemma_bare_opt_sample_list(o: Option<SampleListModel>)
    ensures
        bare_opt_sample_list(o) == o,
{
    match o {
        Some(m) => {
            lemma_bare_sample_list(m);
        },
        None => {},
    }
}

/// The tree of an optional sample list: a list of none or of one.
pub open spec fn opt_sample_list_tree(o: Option<SampleListModel>) -> TreeModel {
    match o {
        Some(m) => TreeModel::List(seq![sample_list_tree(m)]),
        None => TreeModel::List(Seq::empty()),
    }
}

/// An optional sample list without the elements of its arrays.
pub open spec fn bare_opt_sample_list(o: Option<SampleListModel>) -> Option<SampleListModel> {
    match o {
        Some(m) => Some(bare_sample_list(m)),
        None => None,
    }
}

/// The optional sample list that a tree holds.
pub open spec fn tree_opt_sample_list(t: TreeModel) -> Option<Option<SampleListModel>> {
    match t {
        TreeModel::List(xs) => if xs.len() == 0 {
            Some(None)
        } else if xs.len() == 1 && tree_sample_list(xs[0]) is Some {
            Some(Some(tree_sample_list(xs[0]).unwrap()))
        } else {
            None
        },
        TreeModel::Leaf(_) => None,
    }
}

/// An optional sample list comes back from its tree as it went in, but for the
/// elements of its arrays.
pub proof fn lemma_opt_sample_list_comes_back(o: Option<SampleListModel>)
    ensures
        tree_opt_sample_list(opt_sample_list_tree(o)) == Some(bare_opt_sample_list(o)),
{
    match o {
        Some(m) => {
            lemma_sample_list_comes_back(m);
            assert(children_of(opt_sample_list_tree(o))[0] == sample_list_tree(m));
        },
        None => {},
    }
}

/// Makes the tree of an optional sample list.
pub fn make_opt_sample_list_tree(o: &Option<SampleList>) -> (t: Tree)
    ensures
        model_of(t) == opt_sample_list_tree(o.deep_view()),
{
    let mut items: Vec<Tree> = Vec::new();
    match o {
        Some(x) => {
            items.push(make_sample_list_tree(x));
        },
        None => {},
    }
    proof {
        lemma_list_model(items);
        assert(models(items@) =~= children_of(opt_sample_list_tree(o.deep_view())));
    }
    Tree::List(items)
}

/// Reads the optional sample list that a tree holds.
pub fn read_opt_sample_list_tree(t: &Tree) -> (r: Option<Option<SampleList>>)
    ensures
        match r {
            Some(o) => tree_opt_sample_list(model_of(*t)) == Some(o.deep_view()),
            None => tree_opt_sample_list(model_of(*t)) is None,
        },
{
    match t {
        Tree::Leaf(_) => None,
        Tree::List(xs) => {
            proof {
                lemma_list_model(*xs);
            }
            if xs.len() == 0 {
                return Some(None);
            }
            if xs.len() != 1 {
                return None;
            }
            assert(models(xs@)[0] == model_of(xs@[0]));
            match read_sample_list_tree(&xs[0]) {
                Some(x) => Some(Some(x)),
                None => None,
            }
        },
    }
}

/// The tree of one instrument: the trees of its fields, in their order.
pub open spec fn instrument_tree(m: InstrumentModel) -> TreeModel {
    TreeModel::List(seq![
        text_tree(m.id),
        each_cv_param_tree(m.cv_param),
        each_user_param_tree(m.user_param),
    ])
}

/// One instrument without the elements of its arrays.
pub open spec fn bare_instrument(m: InstrumentModel) -> InstrumentModel {
    InstrumentModel {
        id: m.id,
        cv_param: bare_each_cv_param(m.cv_param),
        user_param: bare_each_user_param(m.user_param),
    }
}

/// The instrument that a tree holds.
pub open spec fn tree_instrument(t: TreeModel) -> Option<InstrumentModel> {
    match t {
        TreeModel::List(xs) => if xs.len() == 3
            && tree_text(xs[0]) is Some
            && tree_each_cv_param(xs[1]) is Some
            && tree_each_user_param(xs[2]) is Some {
            Some(InstrumentModel {
                id: tree_text(xs[0]).unwrap(),
                cv_param: tree_each_cv_param(xs[1]).unwrap(),
                user_param: tree_each_user_param(xs[2]).unwrap(),
            })
        } else {
            None
        },
        TreeModel::Leaf(_) => None,
    }
}

/// One instrument comes back from its tree as it went in, but for the
/// elements of its arrays.
pub proof fn lemma_instrument_comes_back(m: InstrumentModel)
    ensures
        tree_instrument(instrument_tree(m)) == Some(bare_instrument(m)),
{
    lemma_fields_come_back();
    lemma_each_cv_param_comes_back(m.cv_param);
    lemma_each_user_param_comes_back(m.user_param);
    let xs = children_of(instrument_tree(m));
    assert(xs[0] == text_tree(m.id));
    assert(xs[1] == each_cv_param_tree(m.cv_param));
    assert(xs[2] == each_user_param_tree(m.user_param));
    assert(tree_instrument(instrument_tree(m)).unwrap() =~~= bare_instrument(m));
}

/// Makes the tree of one instrument.
pub fn make_instrument_tree(x: &Instrument) -> (t: Tree)
    ensures
        model_of(t) == instrument_tree(x.deep_view()),
{
    let mut items: Vec<Tree> = Vec::new();
    items.push(make_text_tree(&x.id));
    items.push(make_each_cv_param_tree(&x.cv_param));
    items.push(make_each_user_param_tree(&x.user_param));
    proof {
        lemma_list_model(items);
        assert(models(items@)[0] == model_of(items@[0]));
        assert(models(items@)[1] == model_of(items@[1]));
        assert(models(items@)[2] == model_of(items@[2]));
        assert(models(items@) =~= children_of(instrument_tree(x.deep_view())));
    }
    Tree::List(items)
}

/// Reads the instrument that a tree holds.
pub fn read_instrument_tree(t: &Tree) -> (r: Option<Instrument>)
    ensures
        match r {
            Some(x) => tree_instrument(model_of(*t)) == Some(x.deep_view()),
            None => tree_instrument(model_of(*t)) is None,
        },
{
    match t {
        Tree::Leaf(_) => None,
        Tree::List(xs) => {
            proof {
                lemma_list_model(*xs);
            }
            if xs.len() != 3 {
                return None;
            }
            assert(models(xs@)[0] == model_of(xs@[0]));
            assert(models(xs@)[1] == model_of(xs@[1]));
            assert(models(xs@)[2] == model_of(xs@[2]));
            let got0 = match read_text_tree(&xs[0]) {
                Some(v) => v,
                None => {
                    return None;
                },
            };
            let got1 = match read_each_cv_param_tree(&xs[1]) {
                Some(v) => v,
                None => {
                    return None;
                },
            };
            let got2 = match read_each_user_param_tree(&xs[2]) {
                Some(v) => v,
                None => {
                    return None;
                },
            };
            let x = Instrument {
                id: got0,
                cv_param: got1,
                user_param: got2,
            };
            assert(x.deep_view() =~~= tree_instrument(model_of(*t)).unwrap());
            Some(x)
        },
    }
}

/// One instrument holds no arrays, so nothing is taken out of it.
pub proof fn lemma_bare_instrument(m: InstrumentModel)
    ensures
        bare_instrument(m) == m,
{
    lemma_bare_each_cv_param(m.cv_param);
    lemma_bare_each_user_param(m.user_param);
    assert(bare_instrument(m) =~~= m);
}

/// A list of elements that are each one instrument holds no arrays, so nothing
/// is taken out of it.
pub proof fn lemma_bare_each_instrument(ms: Seq<InstrumentModel>)
    ensures
        bare_each_instrument(ms) == ms,
{
    assert forall|k: int| 0 <= k < ms.len() implies #[trigger] bare_instrument(ms[k]) == ms[k] by {
        lemma_bare_instrument(ms[k]);
    }
    assert(bare_each_instrument(ms) =~= ms);
}

/// The tree of a list: the tree of each instrument, in their order.
pub open spec fn each_instrument_tree(ms: Seq<InstrumentModel>) -> TreeModel {
    TreeModel::List(Seq::new(ms.len(), |k: int| instrument_tree(ms[k])))
}

/// Each instrument of a list without the elements of its arrays.
pub open spec fn bare_each_instrument(ms: Seq<InstrumentModel>) -> Seq<InstrumentModel> {
    Seq::new(ms.len(), |k: int| bare_instrument(ms[k]))
}

/// The list that a tree holds: each of its trees as one instrument.
pub open spec fn tree_each_instrument(t: TreeModel) -> Option<Seq<InstrumentModel>> {
    match t {
        TreeModel::List(xs) => if forall|k: int|
            0 <= k < xs.len() ==> (#[trigger] tree_instrument(xs[k])) is Some {
            Some(Seq::new(xs.len(), |k: int| tree_instrument(xs[k]).unwrap()))
        } else {
            None
        },
        TreeModel::Leaf(_) => None,
    }
}

/// Each instrument of a list comes back from the tree of the list as it
/// went in, but for the elements of its arrays.
pub proof fn lemma_each_instrument_comes_back(ms: Seq<InstrumentModel>)
    ensures
        tree_each_instrument(each_instrument_tree(ms)) == Some(bare_each_instrument(ms)),
{
    let xs = children_of(each_instrument_tree(ms));
    assert forall|k: int| 0 <= k < xs.len() implies #[trigger] tree_instrument(xs[k]) == Some(
        bare_instrument(ms[k]),
    ) by {
        lemma_instrument_comes_back(ms[k]);
    }
    assert(tree_each_instrument(each_instrument_tree(ms)).unwrap() =~= bare_each_instrument(ms));
}

/// Makes the tree of a list, of each instrument.
pub fn make_each_instrument_tree(v: &Vec<Instrument>) -> (t: Tree)
    ensures
        model_of(t) == each_instrument_tree(v.deep_view()),
{
    let ghost ms = v.deep_view();
    let mut items: Vec<Tree> = Vec::new();
    let mut i: usize = 0;
    while i < v.len()
        invariant
            i <= v@.len(),
            ms == v.deep_view(),
            items@.len() == i,
            forall|k: int| 0 <= k < i ==> model_of(#[trigger] items@[k]) == instrument_tree(ms[k]),
        decreases v@.len() - i,
    {
        assert(ms[i as int] == v@[i as int].deep_view());
        items.push(make_instrument_tree(&v[i]));
        i = i + 1;
    }
    proof {
        lemma_list_model(items);
        assert(models(items@) =~= children_of(each_instrument_tree(ms)));
    }
    Tree::List(items)
}

/// Reads the list that a tree holds, each of its trees as one instrument.
pub fn read_each_instrument_tree(t: &Tree) -> (r: Option<Vec<Instrument>>)
    ensures
        match r {
            Some(v) => tree_each_instrument(model_of(*t)) == Some(v.deep_view()),
            None => tree_each_instrument(model_of(*t)) is None,
        },
{
    match t {
        Tree::Leaf(_) => None,
        Tree::List(xs) => {
            proof {
                lemma_list_model(*xs);
            }
            let ghost tm = models(xs@);
            let mut out: Vec<Instrument> = Vec::new();
            let mut i: usize = 0;
            while i < xs.len()
                invariant
                    i <= xs@.len(),
                    tm == models(xs@),
                    model_of(*t) == TreeModel::List(tm),
                    out@.len() == i,
                    forall|k: int|
                        0 <= k < i ==> #[trigger] tree_instrument(tm[k]) == Some(out@[k].deep_view()),
                decreases xs@.len() - i,
            {
                assert(tm[i as int] == model_of(xs@[i as int]));
                match read_instrument_tree(&xs[i]) {
                    Some(x) => {
                        out.push(x);
                    },
                    None => {
                        assert(tree_instrument(tm[i as int]) is None);
                        return None;
                    },
                }
                i = i + 1;
            }
            assert(out.deep_view() =~= tree_each_instrument(model_of(*t)).unwrap());
            Some(out)
        },
    }
}

/// The tree of one instrument list: the trees of its fields, in their order.
pub open spec fn instrument_list_tree(m: InstrumentListModel) -> TreeModel {
    TreeModel::List(seq![
        opt_usize_tree(m.count),
        each_instrument_tree(m.instrument),
    ])
}

/// One instrument list without the elements of its arrays.
pub open spec fn bare_instrument_list(m: InstrumentListModel) -> InstrumentListModel {
    InstrumentListModel {
        count: m.count,
        instrument: bare_each_instrument(m.instrument),
    }
}

/// The instrument list that a tree holds.
pub open spec fn tree_instrument_list(t: TreeModel) -> Option<InstrumentListModel> {
    match t {
        TreeModel::List(xs) => if xs.len() == 2
            && tree_opt_usize(xs[0]) is Some
            && tree_each_instrument(xs[1]) is Some {
            Some(InstrumentListModel {
                count: tree_opt_usize(xs[0]).unwrap(),
                instrument: tree_each_instrument(xs[1]).unwrap(),
            })
        } else {
            None
        },
        TreeModel::Leaf(_) => None,
    }
}

/// One instrument list comes back from its tree as it went in, but for the
/// elements of its arrays.
pub proof fn lemma_instrument_list_comes_back(m: InstrumentListModel)
    ensures
        tree_instrument_list(instrument_list_tree(m)) == Some(bare_instrument_list(m)),
{
    lemma_fields_come_back();
    lemma_each_instrument_comes_back(m.instrument);
    let xs = children_of(instrument_list_tree(m));
    assert(xs[0] == opt_usize_tree(m.count));
    assert(xs[1] == each_instrument_tree(m.instrument));
    assert(tree_instrument_list(instrument_list_tree(m)).unwrap() =~~= bare_instrument_list(m));
}

/// Makes the tree of one instrument list.
pub fn make_instrument_list_tree(x: &InstrumentList) -> (t: Tree)
    ensures
        model_of(t) == instrument_list_tree(x.deep_view()),
{
    let mut items: Vec<Tree> = Vec::new();
    items.push(make_opt_usize_tree(&x.count));
    items.push(make_each_instrument_tree(&x.instrument));
    proof {
        lemma_list_model(items);
        assert(models(items@)[0] == model_of(items@[0]));
        assert(models(items@)[1] == model_of(items@[1]));
        assert(models(items@) =~= children_of(instrument_list_tree(x.deep_view())));
    }
    Tree::List(items)
}

/// Reads the instrument list that a tree holds.
pub fn read_instrument_list_tree(t: &Tree) -> (r: Option<InstrumentList>)
    ensures
        match r {
            Some(x) => tree_instrument_list(model_of(*t)) == Some(x.deep_view()),
            None => tree_instrument_list(model_of(*t)) is None,
        },
{
    match t {
        Tree::Leaf(_) => None,
        Tree::List(xs) => {
            proof {
                lemma_list_model(*xs);
            }
            if xs.len() != 2 {
                return None;
            }
            assert(models(xs@)[0] == model_of(xs@[0]));
            assert(models(xs@)[1] == model_of(xs@[1]));
            let got0 = match read_opt_usize_tree(&xs[0]) {
                Some(v) => v,
                None => {
                    return None;
                },
            };
            let got1 = match read_each_instrument_tree(&xs[1]) {
                Some(v) => v,
                None => {
                    return None;
                },
            };
            let x = InstrumentList {
                count: got0,
                instrument: got1,
            };
            assert(x.deep_view() =~~= tree_instrument_list(model_of(*t)).unwrap());
            Some(x)
        },
    }
}

/// One instrument list holds no arrays, so nothing is taken out of it.
pub proof fn lemma_bare_instrument_list(m: InstrumentListModel)
    ensures
        bare_instrument_list(m) == m,
{
    lemma_bare_each_instrument(m.instrument);
    assert(bare_instrument_list(m) =~~= m);
}

/// An optional instrument list holds no arrays, so nothing is taken out of it.
pub proof fn lemma_bare_opt_instrument_list(o: Option<InstrumentListModel>)
    ensures
        bare_opt_instrument_list(o) == o,
{
    match o {
        Some(m) => {
            lemma_bare_instrument_list(m);
        },
        None => {},
    }
}

/// The tree of an optional instrument list: a list of none or of one.
pub open spec fn opt_instrument_list_tree(o: Option<InstrumentListModel>) -> TreeModel {
    match o {
        Some(m) => TreeModel::List(seq![instrument_list_tree(m)]),
        None => TreeModel::List(Seq::empty()),
    }
}

/// An optional instrument list without the elements of its arrays.
pub open spec fn bare_opt_instrument_list(o: Option<InstrumentListModel>) -> Option<InstrumentListModel> {
    match o {
        Some(m) => Some(bare_instrument_list(m)),
        None => None,
    }
}

/// The optional instrument list that a tree holds.
pub open spec fn tree_opt_instrument_list(t: TreeModel) -> Option<Option<InstrumentListModel>> {
    match t {
        TreeModel::List(xs) => if xs.len() == 0 {
            Some(None)
        } else if xs.len() == 1 && tree_instrument_list(xs[0]) is Some {
            Some(Some(tree_instrument_list(xs[0]).unwrap()))
        } else {
            None
        },
        TreeModel::Leaf(_) => None,
    }
}

/// An optional instrument list comes back from its tree as it went in, but for the
/// elements of its arrays.
pub proof fn lemma_opt_instrument_list_comes_back(o: Option<InstrumentListModel>)
    ensures
        tree_opt_instrument_list(opt_instrument_list_tree(o)) == Some(bare_opt_instrument_list(o)),
{
    match o {
        Some(m) => {
            lemma_instrument_list_comes_back(m);
            assert(children_of(opt_instrument_list_tree(o))[0] == instrument_list_tree(m));
        },
        None => {},
    }
}

/// Makes the tree of an optional instrument list.
pub fn make_opt_instrument_list_tree(o: &Option<InstrumentList>) -> (t: Tree)
    ensures
        model_of(t) == opt_instrument_list_tree(o.deep_view()),
{
    let mut items: Vec<Tree> = Vec::new();
    match o {
        Some(x) => {
            items.push(make_instrument_list_tree(x));
        },
        None => {},
    }
    proof {
        lemma_list_model(items);
        assert(models(items@) =~= children_of(opt_instrument_list_tree(o.deep_view())));
    }
    Tree::List(items)
}

/// Reads the optional instrument list that a tree holds.
pub fn read_opt_instrument_list_tree(t: &Tree) -> (r: Option<Option<InstrumentList>>)
    ensures
        match r {
            Some(o) => tree_opt_instrument_list(model_of(*t)) == Some(o.deep_view()),
            None => tree_opt_instrument_list(model_of(*t)) is None,
        },
{
    match t {
        Tree::Leaf(_) => None,
        Tree::List(xs) => {
            proof {
                lemma_list_model(*xs);
            }
            if xs.len() == 0 {
                return Some(None);
            }
            if xs.len() != 1 {
                return None;
            }
            assert(models(xs@)[0] == model_of(xs@[0]));
            match read_instrument_list_tree(&xs[0]) {
                Some(x) => Some(Some(x)),
                None => None,
            }
        },
    }
}

/// The tree of one software param: the trees of its fields, in their order.
pub open spec fn software_param_tree(m: SoftwareParamModel) -> TreeModel {
    TreeModel::List(seq![
        opt_text_tree(m.cv_ref),
        text_tree(m.accession),
        text_tree(m.name),
        opt_text_tree(m.version),
    ])
}

/// One software param without the elements of its arrays.
pub open spec fn bare_software_param(m: SoftwareParamModel) -> SoftwareParamModel {
    SoftwareParamModel {
        cv_ref: m.cv_ref,
        accession: m.accession,
        name: m.name,
        version: m.version,
    }
}

/// The software param that a tree holds.
pub open spec fn tree_software_param(t: TreeModel) -> Option<SoftwareParamModel> {
    match t {
        TreeModel::List(xs) => if xs.len() == 4
            && tree_opt_text(xs[0]) is Some
            && tree_text(xs[1]) is Some
            && tree_text(xs[2]) is Some
            && tree_opt_text(xs[3]) is Some {
            Some(SoftwareParamModel {
                cv_ref: tree_opt_text(xs[0]).unwrap(),
                accession: tree_text(xs[1]).unwrap(),
                name: tree_text(xs[2]).unwrap(),
                version: tree_opt_text(xs[3]).unwrap(),
            })
        } else {
            None
        },
        TreeModel::Leaf(_) => None,
    }
}

/// One software param comes back from its tree as it went in, but for the
/// elements of its arrays.
pub proof fn lemma_software_param_comes_back(m: SoftwareParamModel)
    ensures
        tree_software_param(software_param_tree(m)) == Some(bare_software_param(m)),
{
    lemma_fields_come_back();
    let xs = children_of(software_param_tree(m));
    assert(xs[0] == opt_text_tree(m.cv_ref));
    assert(xs[1] == text_tree(m.accession));
    assert(xs[2] == text_tree(m.name));
    assert(xs[3] == opt_text_tree(m.version));
    assert(tree_software_param(software_param_tree(m)).unwrap() =~~= bare_software_param(m));
}

/// Makes the tree of one software param.
pub fn make_software_param_tree(x: &SoftwareParam) -> (t: Tree)
    ensures
        model_of(t) == software_param_tree(x.deep_view()),
{
    let mut items: Vec<Tree> = Vec::new();
    items.push(make_opt_text_tree(&x.cv_ref));
    items.push(make_text_tree(&x.accession));
    items.push(make_text_tree(&x.name));
    items.push(make_opt_text_tree(&x.version));
    proof {
        lemma_list_model(items);
        assert(models(items@)[0] == model_of(items@[0]));
        assert(models(items@)[1] == model_of(items@[1]));
        assert(models(items@)[2] == model_of(items@[2]));
        assert(models(items@)[3] == model_of(items@[3]));
        assert(models(items@) =~= children_of(software_param_tree(x.deep_view())));
    }
    Tree::List(items)
}

/// Reads the software param that a tree holds.
pub fn read_software_param_tree(t: &Tree) -> (r: Option<SoftwareParam>)
    ensures
        match r {
            Some(x) => tree_software_param(model_of(*t)) == Some(x.deep_view()),
            None => tree_software_param(model_of(*t)) is None,
        },
{
    match t {
        Tree::Leaf(_) => None,
        Tree::List(xs) => {
            proof {
                lemma_list_model(*xs);
            }
            if xs.len() != 4 {
                return None;
            }
            assert(models(xs@)[0] == model_of(xs@[0]));
            assert(models(xs@)[1] == model_of(xs@[1]));
            assert(models(xs@)[2] == model_of(xs@[2]));
            assert(models(xs@)[3] == model_of(xs@[3]));
            let got0 = match read_opt_text_tree(&xs[0]) {
                Some(v) => v,
                None => {
                    return None;
                },
            };
            let got1 = match read_text_tree(&xs[1]) {
                Some(v) => v,
                None => {
                    return None;
                },
            };
            let got2 = match read_text_tree(&xs[2]) {
                Some(v) => v,
                None => {
                    return None;
                },
            };
            let got3 = match read_opt_text_tree(&xs[3]) {
                Some(v) => v,
                None => {
                    return None;
                },
            };
            let x = SoftwareParam {
                cv_ref: got0,
                accession: got1,
                name: got2,
                version: got3,
            };
            assert(x.deep_view() =~~= tree_software_param(model_of(*t)).unwrap());
            Some(x)
        },
    }
}

/// One software param holds no arrays, so nothing is taken out of it.
pub proof fn lemma_bare_software_param(m: SoftwareParamModel)
    ensures
        bare_software_param(m) == m,
{
    assert(bare_software_param(m) =~~= m);
}

/// A list of elements that are each one software param holds no arrays, so nothing
/// is taken out of it.
pub proof fn lemma_bare_each_software_param(ms: Seq<SoftwareParamModel>)
    ensures
        bare_each_software_param(ms) == ms,
{
    assert forall|k: int| 0 <= k < ms.len() implies #[trigger] bare_software_param(ms[k]) == ms[k] by {
        lemma_bare_software_param(ms[k]);
    }
    assert(bare_each_software_param(ms) =~= ms);
}

/// The tree of a list: the tree of each software param, in their order.
pub open spec fn each_software_param_tree(ms: Seq<SoftwareParamModel>) -> TreeModel {
    TreeModel::List(Seq::new(ms.len(), |k: int| software_param_tree(ms[k])))
}

/// Each software param of a list without the elements of its arrays.
pub open spec fn bare_each_software_param(ms: Seq<SoftwareParamModel>) -> Seq<SoftwareParamModel> {
    Seq::new(ms.len(), |k: int| bare_software_param(ms[k]))
}

/// The list that a tree holds: each of its trees as one software param.
pub open spec fn tree_each_software_param(t: TreeModel) -> Option<Seq<SoftwareParamModel>> {
    match t {
        TreeModel::List(xs) => if forall|k: int|
            0 <= k < xs.len() ==> (#[trigger] tree_software_param(xs[k])) is Some {
            Some(Seq::new(xs.len(), |k: int| tree_software_param(xs[k]).unwrap()))
        } else {
            None
        },
        TreeModel::Leaf(_) => None,
    }
}

/// Each software param of a list comes back from the tree of the list as it
/// went in, but for the elements of its arrays.
pub proof fn lemma_each_software_param_comes_back(ms: Seq<SoftwareParamModel>)
    ensures
        tree_each_software_param(each_software_param_tree(ms)) == Some(bare_each_software_param(ms)),
{
    let xs = children_of(each_software_param_tree(ms));
    assert forall|k: int| 0 <= k < xs.len() implies #[trigger] tree_software_param(xs[k]) == Some(
        bare_software_param(ms[k]),
    ) by {
        lemma_software_param_comes_back(ms[k]);
    }
    assert(tree_each_software_param(each_software_param_tree(ms)).unwrap() =~= bare_each_software_param(ms));
}

/// Makes the tree of a list, of each software param.
pub fn make_each_software_param_tree(v: &Vec<SoftwareParam>) -> (t: Tree)
    ensures
        model_of(t) == each_software_param_tree(v.deep_view()),
{
    let ghost ms = v.deep_view();
    let mut items: Vec<Tree> = Vec::new();
    let mut i: usize = 0;
    while i < v.len()
        invariant
            i <= v@.len(),
            ms == v.deep_view(),
            items@.len() == i,
            forall|k: int| 0 <= k < i ==> model_of(#[trigger] items@[k]) == software_param_tree(ms[k]),
        decreases v@.len() - i,
    {
        assert(ms[i as int] == v@[i as int].deep_view());
        items.push(make_software_param_tree(&v[i]));
        i = i + 1;
    }
    proof {
        lemma_list_model(items);
        assert(models(items@) =~= children_of(each_software_param_tree(ms)));
    }
    Tree::List(items)
}

/// Reads the list that a tree holds, each of its trees as one software param.
pub fn read_each_software_param_tree(t: &Tree) -> (r: Option<Vec<SoftwareParam>>)
    ensures
        match r {
            Some(v) => tree_each_software_param(model_of(*t)) == Some(v.deep_view()),
            None => tree_each_software_param(model_of(*t)) is None,
        },
{
    match t {
        Tree::Leaf(_) => None,
        Tree::List(xs) => {
            proof {
                lemma_list_model(*xs);
            }
            let ghost tm = models(xs@);
            let mut out: Vec<SoftwareParam> = Vec::new();
            let mut i: usize = 0;
            while i < xs.len()
                invariant
                    i <= xs@.len(),
                    tm == models(xs@),
                    model_of(*t) == TreeModel::List(tm),
                    out@.len() == i,
                    forall|k: int|
                        0 <= k < i ==> #[trigger] tree_software_param(tm[k]) == Some(out@[k].deep_view()),
                decreases xs@.len() - i,
            {
                assert(tm[i as int] == model_of(xs@[i as int]));
                match read_software_param_tree(&xs[i]) {
                    Some(x) => {
                        out.push(x);
                    },
                    None => {
                        assert(tree_software_param(tm[i as int]) is None);
                        return None;
                    },
                }
                i = i + 1;
            }
            assert(out.deep_view() =~= tree_each_software_param(model_of(*t)).unwrap());
            Some(out)
        },
    }
}

/// The tree of one software: the trees of its fields, in their order.
pub open spec fn software_tree(m: SoftwareModel) -> TreeModel {
    TreeModel::List(seq![
        text_tree(m.id),
        opt_text_tree(m.version),
        each_software_param_tree(m.software_param),
        each_cv_param_tree(m.cv_param),
    ])
}

/// One software without the elements of its arrays.
pub open spec fn bare_software(m: SoftwareModel) -> SoftwareModel {
    SoftwareModel {
        id: m.id,
        version: m.version,
        software_param: bare_each_software_param(m.software_param),
        cv_param: bare_each_cv_param(m.cv_param),
    }
}

/// The software that a tree holds.
pub open spec fn tree_software(t: TreeModel) -> Option<SoftwareModel> {
    match t {
        TreeModel::List(xs) => if xs.len() == 4
            && tree_text(xs[0]) is Some
            && tree_opt_text(xs[1]) is Some
            && tree_each_software_param(xs[2]) is Some
            && tree_each_cv_param(xs[3]) is Some {
            Some(SoftwareModel {
                id: tree_text(xs[0]).unwrap(),
                version: tree_opt_text(xs[1]).unwrap(),
                software_param: tree_each_software_param(xs[2]).unwrap(),
                cv_param: tree_each_cv_param(xs[3]).unwrap(),
            })
        } else {
            None
        },
        TreeModel::Leaf(_) => None,
    }
}

/// One software comes back from its tree as it went in, but for the
/// elements of its arrays.
pub proof fn lemma_software_comes_back(m: SoftwareModel)
    ensures
        tree_software(software_tree(m)) == Some(bare_software(m)),
{
    lemma_fields_come_back();
    lemma_each_software_param_comes_back(m.software_param);
    lemma_each_cv_param_comes_back(m.cv_param);
    let xs = children_of(software_tree(m));
    assert(xs[0] == text_tree(m.id));
    assert(xs[1] == opt_text_tree(m.version));
    assert(xs[2] == each_software_param_tree(m.software_param));
    assert(xs[3] == each_cv_param_tree(m.cv_param));
    assert(tree_software(software_tree(m)).unwrap() =~~= bare_software(m));
}

/// Makes the tree of one software.
pub fn make_software_tree(x: &Software) -> (t: Tree)
    ensures
        model_of(t) == software_tree(x.deep_view()),
{
    let mut items: Vec<Tree> = Vec::new();
    items.push(make_text_tree(&x.id));
    items.push(make_opt_text_tree(&x.version));
    items.push(make_each_software_param_tree(&x.software_param));
    items.push(make_each_cv_param_tree(&x.cv_param));
    proof {
        lemma_list_model(items);
        assert(models(items@)[0] == model_of(items@[0]));
        assert(models(items@)[1] == model_of(items@[1]));
        assert(models(items@)[2] == model_of(items@[2]));
        assert(models(items@)[3] == model_of(items@[3]));
        assert(models(items@) =~= children_of(software_tree(x.deep_view())));
    }
    Tree::List(items)
}

/// Reads the software that a tree holds.
pub fn read_software_tree(t: &Tree) -> (r: Option<Software>)
    ensures
        match r {
            Some(x) => tree_software(model_of(*t)) == Some(x.deep_view()),
            None => tree_software(model_of(*t)) is None,
        },
{
    match t {
        Tree::Leaf(_) => None,
        Tree::List(xs) => {
            proof {
                lemma_list_model(*xs);
            }
            if xs.len() != 4 {
                return None;
            }
            assert(models(xs@)[0] == model_of(xs@[0]));
            assert(models(xs@)[1] == model_of(xs@[1]));
            assert(models(xs@)[2] == model_of(xs@[2]));
            assert(models(xs@)[3] == model_of(xs@[3]));
            let got0 = match read_text_tree(&xs[0]) {
                Some(v) => v,
                None => {
                    return None;
                },
            };
            let got1 = match read_opt_text_tree(&xs[1]) {
                Some(v) => v,
                None => {
                    return None;
                },
            };
            let got2 = match read_each_software_param_tree(&xs[2]) {
                Some(v) => v,
                None => {
                    return None;
                },
            };
            let got3 = match read_each_cv_param_tree(&xs[3]) {
                Some(v) => v,
                None => {
                    return None;
                },
            };
            let x = Software {
                id: got0,
                version: got1,
                software_param: got2,
                cv_param: got3,
            };
            assert(x.deep_view() =~~= tree_software(model_of(*t)).unwrap());
            Some(x)
        },
    }
}

/// One software holds no arrays, so nothing is taken out of it.
pub proof fn lemma_bare_software(m: SoftwareModel)
    ensures
        bare_software(m) == m,
{
    lemma_bare_each_software_param(m.software_param);
    lemma_bare_each_cv_param(m.cv_param);
    assert(bare_software(m) =~~= m);
}

/// A list of elements that are each one software holds no arrays, so nothing
/// is taken out of it.
pub proof fn lemma_bare_each_software(ms: Seq<SoftwareModel>)
    ensures
        bare_each_software(ms) == ms,
{
    assert forall|k: int| 0 <= k < ms.len() implies #[trigger] bare_software(ms[k]) == ms[k] by {
        lemma_bare_software(ms[k]);
    }
    assert(bare_each_software(ms) =~= ms);
}

/// The tree of a list: the tree of each software, in their order.
pub open spec fn each_software_tree(ms: Seq<SoftwareModel>) -> TreeModel {
    TreeModel::List(Seq::new(ms.len(), |k: int| software_tree(ms[k])))
}

/// Each software of a list without the elements of its arrays.
pub open spec fn bare_each_software(ms: Seq<SoftwareModel>) -> Seq<SoftwareModel> {
    Seq::new(ms.len(), |k: int| bare_software(ms[k]))
}

/// The list that a tree holds: each of its trees as one software.
pub open spec fn tree_each_software(t: TreeModel) -> Option<Seq<SoftwareModel>> {
    match t {
        TreeModel::List(xs) => if forall|k: int|
            0 <= k < xs.len() ==> (#[trigger] tree_software(xs[k])) is Some {
            Some(Seq::new(xs.len(), |k: int| tree_software(xs[k]).unwrap()))
        } else {
            None
        },
        TreeModel::Leaf(_) => None,
    }
}

/// Each software of a list comes back from the tree of the list as it
/// went in, but for the elements of its arrays.
pub proof fn lemma_each_software_comes_back(ms: Seq<SoftwareModel>)
    ensures
        tree_each_software(each_software_tree(ms)) == Some(bare_each_software(ms)),
{
    let xs = children_of(each_software_tree(ms));
    assert forall|k: int| 0 <= k < xs.len() implies #[trigger] tree_software(xs[k]) == Some(
        bare_software(ms[k]),
    ) by {
        lemma_software_comes_back(ms[k]);
    }
    assert(tree_each_software(each_software_tree(ms)).unwrap() =~= bare_each_software(ms));
}

/// Makes the tree of a list, of each software.
pub fn make_each_software_tree(v: &Vec<Software>) -> (t: Tree)
    ensures
        model_of(t) == each_software_tree(v.deep_view()),
{
    let ghost ms = v.deep_view();
    let mut items: Vec<Tree> = Vec::new();
    let mut i: usize = 0;
    while i < v.len()
        invariant
            i <= v@.len(),
            ms == v.deep_view(),
            items@.len() == i,
            forall|k: int| 0 <= k < i ==> model_of(#[trigger] items@[k]) == software_tree(ms[k]),
        decreases v@.len() - i,
    {
        assert(ms[i as int] == v@[i as int].deep_view());
        items.push(make_software_tree(&v[i]));
        i = i + 1;
    }
    proof {
        lemma_list_model(items);
        assert(models(items@) =~= children_of(each_software_tree(ms)));
    }
    Tree::List(items)
}

/// Reads the list that a tree holds, each of its trees as one software.
pub fn read_each_software_tree(t: &Tree) -> (r: Option<Vec<Software>>)
    ensures
        match r {
            Some(v) => tree_each_software(model_of(*t)) == Some(v.deep_view()),
            None => tree_each_software(model_of(*t)) is None,
        },
{
    match t {
        Tree::Leaf(_) => None,
        Tree::List(xs) => {
            proof {
                lemma_list_model(*xs);
            }
            let ghost tm = models(xs@);
            let mut out: Vec<Software> = Vec::new();
            let mut i: usize = 0;
            while i < xs.len()
                invariant
                    i <= xs@.len(),
                    tm == models(xs@),
                    model_of(*t) == TreeModel::List(tm),
                    out@.len() == i,
                    forall|k: int|
                        0 <= k < i ==> #[trigger] tree_software(tm[k]) == Some(out@[k].deep_view()),
                decreases xs@.len() - i,
            {
                assert(tm[i as int] == model_of(xs@[i as int]));
                match read_software_tree(&xs[i]) {
                    Some(x) => {
                        out.push(x);
                    },
                    None => {
                        assert(tree_software(tm[i as int]) is None);
                        return None;
                    },
                }
                i = i + 1;
            }
            assert(out.deep_view() =~= tree_each_software(model_of(*t)).unwrap());
            Some(out)
        },
    }
}

/// The tree of one software list: the trees of its fields, in their order.
pub open spec fn software_list_tree(m: SoftwareListModel) -> TreeModel {
    TreeModel::List(seq![
        opt_usize_tree(m.count),
        each_software_tree(m.software),
    ])
}

/// One software list without the elements of its arrays.
pub open spec fn bare_software_list(m: SoftwareListModel) -> SoftwareListModel {
    SoftwareListModel {
        count: m.count,
        software: bare_each_software(m.software),
    }
}

/// The software list that a tree holds.
pub open spec fn tree_software_list(t: TreeModel) -> Option<SoftwareListModel> {
    match t {
        TreeModel::List(xs) => if xs.len() == 2
            && tree_opt_usize(xs[0]) is Some
            && tree_each_software(xs[1]) is Some {
            Some(SoftwareListModel {
                count: tree_opt_usize(xs[0]).unwrap(),
                software: tree_each_software(xs[1]).unwrap(),
            })
        } else {
            None
        },
        TreeModel::Leaf(_) => None,
    }
}

/// One software list comes back from its tree as it went in, but for the
/// elements of its arrays.
pub proof fn lemma_software_list_comes_back(m: SoftwareListModel)
    ensures
        tree_software_list(software_list_tree(m)) == Some(bare_software_list(m)),
{
    lemma_fields_come_back();
    lemma_each_software_comes_back(m.software);
    let xs = children_of(software_list_tree(m));
    assert(xs[0] == opt_usize_tree(m.count));
    assert(xs[1] == each_software_tree(m.software));
    assert(tree_software_list(software_list_tree(m)).unwrap() =~~= bare_software_list(m));
}

/// Makes the tree of one software list.
pub fn make_software_list_tree(x: &SoftwareList) -> (t: Tree)
    ensures
        model_of(t) == software_list_tree(x.deep_view()),
{
    let mut items: Vec<Tree> = Vec::new();
    items.push(make_opt_usize_tree(&x.count));
    items.push(make_each_software_tree(&x.software));
    proof {
        lemma_list_model(items);
        assert(models(items@)[0] == model_of(items@[0]));
        assert(models(items@)[1] == model_of(items@[1]));
        assert(models(items@) =~= children_of(software_list_tree(x.deep_view())));
    }
    Tree::List(items)
}

/// Reads the software list that a tree holds.
pub fn read_software_list_tree(t: &Tree) -> (r: Option<SoftwareList>)
    ensures
        match r {
            Some(x) => tree_software_list(model_of(*t)) == Some(x.deep_view()),
            None => tree_software_list(model_of(*t)) is None,
        },
{
    match t {
        Tree::Leaf(_) => None,
        Tree::List(xs) => {
            proof {
                lemma_list_model(*xs);
            }
            if xs.len() != 2 {
                return None;
            }
            assert(models(xs@)[0] == model_of(xs@[0]));
            assert(models(xs@)[1] == model_of(xs@[1]));
            let got0 = match read_opt_usize_tree(&xs[0]) {
                Some(v) => v,
                None => {
                    return None;
                },
            };
            let got1 = match read_each_software_tree(&xs[1]) {
                Some(v) => v,
                None => {
                    return None;
                },
            };
            let x = SoftwareList {
                count: got0,
                software: got1,
            };
            assert(x.deep_view() =~~= tree_software_list(model_of(*t)).unwrap());
            Some(x)
        },
    }
}

/// One software list holds no arrays, so nothing is taken out of it.
pub proof fn lemma_bare_software_list(m: SoftwareListModel)
    ensures
        bare_software_list(m) == m,
{
    lemma_bare_each_software(m.software);
    assert(bare_software_list(m) =~~= m);
}

/// An optional software list holds no arrays, so nothing is taken out of it.
pub proof fn lemma_bare_opt_software_list(o: Option<SoftwareListModel>)
    ensures
        bare_opt_software_list(o) == o,
{
    match o {
        Some(m) => {
            lemma_bare_software_list(m);
        },
        None => {},
    }
}

/// The tree of an optional software list: a list of none or of one.
pub open spec fn opt_software_list_tree(o: Option<SoftwareListModel>) -> TreeModel {
    match o {
        Some(m) => TreeModel::List(seq![software_list_tree(m)]),
        None => TreeModel::List(Seq::empty()),
    }
}

/// An optional software list without the elements of its arrays.
pub open spec fn bare_opt_software_list(o: Option<SoftwareListModel>) -> Option<SoftwareListModel> {
    match o {
        Some(m) => Some(bare_software_list(m)),
        None => None,
    }
}

/// The optional software list that a tree holds.
pub open spec fn tree_opt_software_list(t: TreeModel) -> Option<Option<SoftwareListModel>> {
    match t {
        TreeModel::List(xs) => if xs.len() == 0 {
            Some(None)
        } else if xs.len() == 1 && tree_software_list(xs[0]) is Some {
            Some(Some(tree_software_list(xs[0]).unwrap()))
        } else {
            None
        },
        TreeModel::Leaf(_) => None,
    }
}

/// An optional software list comes back from its tree as it went in, but for the
/// elements of its arrays.
pub proof fn lemma_opt_software_list_comes_back(o: Option<SoftwareListModel>)
    ensures
        tree_opt_software_list(opt_software_list_tree(o)) == Some(bare_opt_software_list(o)),
{
    match o {
        Some(m) => {
            lemma_software_list_comes_back(m);
            assert(children_of(opt_software_list_tree(o))[0] == software_list_tree(m));
        },
        None => {},
    }
}

/// Makes the tree of an optional software list.
pub fn make_opt_software_list_tree(o: &Option<SoftwareList>) -> (t: Tree)
    ensures
        model_of(t) == opt_software_list_tree(o.deep_view()),
{
    let mut items: Vec<Tree> = Vec::new();
    match o {
        Some(x) => {
            items.push(make_software_list_tree(x));
        },
        None => {},
    }
    proof {
        lemma_list_model(items);
        assert(models(items@) =~= children_of(opt_software_list_tree(o.deep_view())));
    }
    Tree::List(items)
}

/// Reads the optional software list that a tree holds.
pub fn read_opt_software_list_tree(t: &Tree) -> (r: Option<Option<SoftwareList>>)
    ensures
        match r {
            Some(o) => tree_opt_software_list(model_of(*t)) == Some(o.deep_view()),
            None => tree_opt_software_list(model_of(*t)) is None,
        },
{
    match t {
        Tree::Leaf(_) => None,
        Tree::List(xs) => {
            proof {
                lemma_list_model(*xs);
            }
            if xs.len() == 0 {
                return Some(None);
            }
            if xs.len() != 1 {
                return None;
            }
            assert(models(xs@)[0] == model_of(xs@[0]));
            match read_software_list_tree(&xs[0]) {
                Some(x) => Some(Some(x)),
                None => None,
            }
        },
    }
}

/// The tree of one processing method: the trees of its fields, in their order.
pub open spec fn processing_method_tree(m: ProcessingMethodModel) -> TreeModel {
    TreeModel::List(seq![
        opt_text_tree(m.software_ref),
        each_cv_param_tree(m.cv_param),
        each_user_param_tree(m.user_param),
    ])
}

/// One processing method without the elements of its arrays.
pub open spec fn bare_processing_method(m: ProcessingMethodModel) -> ProcessingMethodModel {
    ProcessingMethodModel {
        software_ref: m.software_ref,
        cv_param: bare_each_cv_param(m.cv_param),
        user_param: bare_each_user_param(m.user_param),
    }
}

/// The processing method that a tree holds.
pub open spec fn tree_processing_method(t: TreeModel) -> Option<ProcessingMethodModel> {
    match t {
        TreeModel::List(xs) => if xs.len() == 3
            && tree_opt_text(xs[0]) is Some
            && tree_each_cv_param(xs[1]) is Some
            && tree_each_user_param(xs[2]) is Some {
            Some(ProcessingMethodModel {
                software_ref: tree_opt_text(xs[0]).unwrap(),
                cv_param: tree_each_cv_param(xs[1]).unwrap(),
                user_param: tree_each_user_param(xs[2]).unwrap(),
            })
        } else {
            None
        },
        TreeModel::Leaf(_) => None,
    }
}

/// One processing method comes back from its tree as it went in, but for the
/// elements of its arrays.
pub proof fn lemma_processing_method_comes_back(m: ProcessingMethodModel)
    ensures
        tree_processing_method(processing_method_tree(m)) == Some(bare_processing_method(m)),
{
    lemma_fields_come_back();
    lemma_each_cv_param_comes_back(m.cv_param);
    lemma_each_user_param_comes_back(m.user_param);
    let xs = children_of(processing_method_tree(m));
    assert(xs[0] == opt_text_tree(m.software_ref));
    assert(xs[1] == each_cv_param_tree(m.cv_param));
    assert(xs[2] == each_user_param_tree(m.user_param));
    assert(tree_processing_method(processing_method_tree(m)).unwrap() =~~= bare_processing_method(m));
}

/// Makes the tree of one processing method.
pub fn make_processing_method_tree(x: &ProcessingMethod) -> (t: Tree)
    ensures
        model_of(t) == processing_method_tree(x.deep_view()),
{
    let mut items: Vec<Tree> = Vec::new();
    items.push(make_opt_text_tree(&x.software_ref));
    items.push(make_each_cv_param_tree(&x.cv_param));
    items.push(make_each_user_param_tree(&x.user_param));
    proof {
        lemma_list_model(items);
        assert(models(items@)[0] == model_of(items@[0]));
        assert(models(items@)[1] == model_of(items@[1]));
        assert(models(items@)[2] == model_of(items@[2]));
        assert(models(items@) =~= children_of(processing_method_tree(x.deep_view())));
    }
    Tree::List(items)
}

/// Reads the processing method that a tree holds.
pub fn read_processing_method_tree(t: &Tree) -> (r: Option<ProcessingMethod>)
    ensures
        match r {
            Some(x) => tree_processing_method(model_of(*t)) == Some(x.deep_view()),
            None => tree_processing_method(model_of(*t)) is None,
        },
{
    match t {
        Tree::Leaf(_) => None,
        Tree::List(xs) => {
            proof {
                lemma_list_model(*xs);
            }
            if xs.len() != 3 {
                return None;
            }
            assert(models(xs@)[0] == model_of(xs@[0]));
            assert(models(xs@)[1] == model_of(xs@[1]));
            assert(models(xs@)[2] == model_of(xs@[2]));
            let got0 = match read_opt_text_tree(&xs[0]) {
                Some(v) => v,
                None => {
                    return None;
                },
            };
            let got1 = match read_each_cv_param_tree(&xs[1]) {
                Some(v) => v,
                None => {
                    return None;
                },
            };
            let got2 = match read_each_user_param_tree(&xs[2]) {
                Some(v) => v,
                None => {
                    return None;
                },
            };
            let x = ProcessingMethod {
                software_ref: got0,
                cv_param: got1,
                user_param: got2,
            };
            assert(x.deep_view() =~~= tree_processing_method(model_of(*t)).unwrap());
            Some(x)
        },
    }
}

/// One processing method holds no arrays, so nothing is taken out of it.
pub proof fn lemma_bare_processing_method(m: ProcessingMethodModel)
    ensures
        bare_processing_method(m) == m,
{
    lemma_bare_each_cv_param(m.cv_param);
    lemma_bare_each_user_param(m.user_param);
    assert(bare_processing_method(m) =~~= m);
}

/// A list of elements that are each one processing method holds no arrays, so nothing
/// is taken out of it.
pub proof fn lemma_bare_each_processing_method(ms: Seq<ProcessingMethodModel>)
    ensures
        bare_each_processing_method(ms) == ms,
{
    assert forall|k: int| 0 <= k < ms.len() implies #[trigger] bare_processing_method(ms[k]) == ms[k] by {
        lemma_bare_processing_method(ms[k]);
    }
    assert(bare_each_processing_method(ms) =~= ms);
}

/// The tree of a list: the tree of each processing method, in their order.
pub open spec fn each_processing_method_tree(ms: Seq<ProcessingMethodModel>) -> TreeModel {
    TreeModel::List(Seq::new(ms.len(), |k: int| processing_method_tree(ms[k])))
}

/// Each processing method of a list without the elements of its arrays.
pub open spec fn bare_each_processing_method(ms: Seq<ProcessingMethodModel>) -> Seq<ProcessingMethodModel> {
    Seq::new(ms.len(), |k: int| bare_processing_method(ms[k]))
}

/// The list that a tree holds: each of its trees as one processing method.
pub open spec fn tree_each_processing_method(t: TreeModel) -> Option<Seq<ProcessingMethodModel>> {
    match t {
        TreeModel::List(xs) => if forall|k: int|
            0 <= k < xs.len() ==> (#[trigger] tree_processing_method(xs[k])) is Some {
            Some(Seq::new(xs.len(), |k: int| tree_processing_method(xs[k]).unwrap()))
        } else {
            None
        },
        TreeModel::Leaf(_) => None,
    }
}

/// Each processing method of a list comes back from the tree of the list as it
/// went in, but for the elements of its arrays.
pub proof fn lemma_each_processing_method_comes_back(ms: Seq<ProcessingMethodModel>)
    ensures
        tree_each_processing_method(each_processing_method_tree(ms)) == Some(bare_each_processing_method(ms)),
{
    let xs = children_of(each_processing_method_tree(ms));
    assert forall|k: int| 0 <= k < xs.len() implies #[trigger] tree_processing_method(xs[k]) == Some(
        bare_processing_method(ms[k]),
    ) by {
        lemma_processing_method_comes_back(ms[k]);
    }
    assert(tree_each_processing_method(each_processing_method_tree(ms)).unwrap() =~= bare_each_processing_method(ms));
}

/// Makes the tree of a list, of each processing method.
pub fn make_each_processing_method_tree(v: &Vec<ProcessingMethod>) -> (t: Tree)
    ensures
        model_of(t) == each_processing_method_tree(v.deep_view()),
{
    let ghost ms = v.deep_view();
    let mut items: Vec<Tree> = Vec::new();
    let mut i: usize = 0;
    while i < v.len()
        invariant
            i <= v@.len(),
            ms == v.deep_view(),
            items@.len() == i,
            forall|k: int| 0 <= k < i ==> model_of(#[trigger] items@[k]) == processing_method_tree(ms[k]),
        decreases v@.len() - i,
    {
        assert(ms[i as int] == v@[i as int].deep_view());
        items.push(make_processing_method_tree(&v[i]));
        i = i + 1;
    }
    proof {
        lemma_list_model(items);
        assert(models(items@) =~= children_of(each_processing_method_tree(ms)));
    }
    Tree::List(items)
}

/// Reads the list that a tree holds, each of its trees as one processing method.
pub fn read_each_processing_method_tree(t: &Tree) -> (r: Option<Vec<ProcessingMethod>>)
    ensures
        match r {
            Some(v) => tree_each_processing_method(model_of(*t)) == Some(v.deep_view()),
            None => tree_each_processing_method(model_of(*t)) is None,
        },
{
    match t {
        Tree::Leaf(_) => None,
        Tree::List(xs) => {
            proof {
                lemma_list_model(*xs);
            }
            let ghost tm = models(xs@);
            let mut out: Vec<ProcessingMethod> = Vec::new();
            let mut i: usize = 0;
            while i < xs.len()
                invariant
                    i <= xs@.len(),
                    tm == models(xs@),
                    model_of(*t) == TreeModel::List(tm),
                    out@.len() == i,
                    forall|k: int|
                        0 <= k < i ==> #[trigger] tree_processing_method(tm[k]) == Some(out@[k].deep_view()),
                decreases xs@.len() - i,
            {
                assert(tm[i as int] == model_of(xs@[i as int]));
                match read_processing_method_tree(&xs[i]) {
                    Some(x) => {
                        out.push(x);
                    },
                    None => {
                        assert(tree_processing_method(tm[i as int]) is None);
                        return None;
                    },
                }
                i = i + 1;
            }
            assert(out.deep_view() =~= tree_each_processing_method(model_of(*t)).unwrap());
            Some(out)
        },
    }
}

/// The tree of one data processing: the trees of its fields, in their order.
pub open spec fn data_processing_tree(m: DataProcessingModel) -> TreeModel {
    TreeModel::List(seq![
        text_tree(m.id),
        each_processing_method_tree(m.processing_method),
    ])
}

/// One data processing without the elements of its arrays.
pub open spec fn bare_data_processing(m: DataProcessingModel) -> DataProcessingModel {
    DataProcessingModel {
        id: m.id,
        processing_method: bare_each_processing_method(m.processing_method),
    }
}

/// The data processing that a tree holds.
pub open spec fn tree_data_processing(t: TreeModel) -> Option<DataProcessingModel> {
    match t {
        TreeModel::List(xs) => if xs.len() == 2
            && tree_text(xs[0]) is Some
            && tree_each_processing_method(xs[1]) is Some {
            Some(DataProcessingModel {
                id: tree_text(xs[0]).unwrap(),
                processing_method: tree_each_processing_method(xs[1]).unwrap(),
            })
        } else {
            None
        },
        TreeModel::Leaf(_) => None,
    }
}

/// One data processing comes back from its tree as it went in, but for the
/// elements of its arrays.
pub proof fn lemma_data_processing_comes_back(m: DataProcessingModel)
    ensures
        tree_data_processing(data_processing_tree(m)) == Some(bare_data_processing(m)),
{
    lemma_fields_come_back();
    lemma_each_processing_method_comes_back(m.processing_method);
    let xs = children_of(data_processing_tree(m));
    assert(xs[0] == text_tree(m.id));
    assert(xs[1] == each_processing_method_tree(m.processing_method));
    assert(tree_data_processing(data_processing_tree(m)).unwrap() =~~= bare_data_processing(m));
}

/// Makes the tree of one data processing.
pub fn make_data_processing_tree(x: &DataProcessing) -> (t: Tree)
    ensures
        model_of(t) == data_processing_tree(x.deep_view()),
{
    let mut items: Vec<Tree> = Vec::new();
    items.push(make_text_tree(&x.id));
    items.push(make_each_processing_method_tree(&x.processing_method));
    proof {
        lemma_list_model(items);
        assert(models(items@)[0] == model_of(items@[0]));
        assert(models(items@)[1] == model_of(items@[1]));
        assert(models(items@) =~= children_of(data_processing_tree(x.deep_view())));
    }
    Tree::List(items)
}

/// Reads the data processing that a tree holds.
pub fn read_data_processing_tree(t: &Tree) -> (r: Option<DataProcessing>)
    ensures
        match r {
            Some(x) => tree_data_processing(model_of(*t)) == Some(x.deep_view()),
            None => tree_data_processing(model_of(*t)) is None,
        },
{
    match t {
        Tree::Leaf(_) => None,
        Tree::List(xs) => {
            proof {
                lemma_list_model(*xs);
            }
            if xs.len() != 2 {
                return None;
            }
            assert(models(xs@)[0] == model_of(xs@[0]));
            assert(models(xs@)[1] == model_of(xs@[1]));
            let got0 = match read_text_tree(&xs[0]) {
                Some(v) => v,
                None => {
                    return None;
                },
            };
            let got1 = match read_each_processing_method_tree(&xs[1]) {
                Some(v) => v,
                None => {
                    return None;
                },
            };
            let x = DataProcessing {
                id: got0,
                processing_method: got1,
            };
            assert(x.deep_view() =~~= tree_data_processing(model_of(*t)).unwrap());
            Some(x)
        },
    }
}

/// One data processing holds no arrays, so nothing is taken out of it.
pub proof fn lemma_bare_data_processing(m: DataProcessingModel)
    ensures
        bare_data_processing(m) == m,
{
    lemma_bare_each_processing_method(m.processing_method);
    assert(bare_data_processing(m) =~~= m);
}

/// A list of elements that are each one data processing holds no arrays, so nothing
/// is taken out of it.
pub proof fn lemma_bare_each_data_processing(ms: Seq<DataProcessingModel>)
    ensures
        bare_each_data_processing(ms) == ms,
{
    assert forall|k: int| 0 <= k < ms.len() implies #[trigger] bare_data_processing(ms[k]) == ms[k] by {
        lemma_bare_data_processing(ms[k]);
    }
    assert(bare_each_data_processing(ms) =~= ms);
}

/// The tree of a list: the tree of each data processing, in their order.
pub open spec fn each_data_processing_tree(ms: Seq<DataProcessingModel>) -> TreeModel {
    TreeModel::List(Seq::new(ms.len(), |k: int| data_processing_tree(ms[k])))
}

/// Each data processing of a list without the elements of its arrays.
pub open spec fn bare_each_data_processing(ms: Seq<DataProcessingModel>) -> Seq<DataProcessingModel> {
    Seq::new(ms.len(), |k: int| bare_data_processing(ms[k]))
}

/// The list that a tree holds: each of its trees as one data processing.
pub open spec fn tree_each_data_processing(t: TreeModel) -> Option<Seq<DataProcessingModel>> {
    match t {
        TreeModel::List(xs) => if forall|k: int|
            0 <= k < xs.len() ==> (#[trigger] tree_data_processing(xs[k])) is Some {
            Some(Seq::new(xs.len(), |k: int| tree_data_processing(xs[k]).unwrap()))
        } else {
            None
        },
        TreeModel::Leaf(_) => None,
    }
}

/// Each data processing of a list comes back from the tree of the list as it
/// went in, but for the elements of its arrays.
pub proof fn lemma_each_data_processing_comes_back(ms: Seq<DataProcessingModel>)
    ensures
        tree_each_data_processing(each_data_processing_tree(ms)) == Some(bare_each_data_processing(ms)),
{
    let xs = children_of(each_data_processing_tree(ms));
    assert forall|k: int| 0 <= k < xs.len() implies #[trigger] tree_data_processing(xs[k]) == Some(
        bare_data_processing(ms[k]),
    ) by {
        lemma_data_processing_comes_back(ms[k]);
    }
    assert(tree_each_data_processing(each_data_processing_tree(ms)).unwrap() =~= bare_each_data_processing(ms));
}

/// Makes the tree of a list, of each data processing.
pub fn make_each_data_processing_tree(v: &Vec<DataProcessing>) -> (t: Tree)
    ensures
        model_of(t) == each_data_processing_tree(v.deep_view()),
{
    let ghost ms = v.deep_view();
    let mut items: Vec<Tree> = Vec::new();
    let mut i: usize = 0;
    while i < v.len()
        invariant
            i <= v@.len(),
            ms == v.deep_view(),
            items@.len() == i,
            forall|k: int| 0 <= k < i ==> model_of(#[trigger] items@[k]) == data_processing_tree(ms[k]),
        decreases v@.len() - i,
    {
        assert(ms[i as int] == v@[i as int].deep_view());
        items.push(make_data_processing_tree(&v[i]));
        i = i + 1;
    }
    proof {
        lemma_list_model(items);
        assert(models(items@) =~= children_of(each_data_processing_tree(ms)));
    }
    Tree::List(items)
}

/// Reads the list that a tree holds, each of its trees as one data processing.
pub fn read_each_data_processing_tree(t: &Tree) -> (r: Option<Vec<DataProcessing>>)
    ensures
        match r {
            Some(v) => tree_each_data_processing(model_of(*t)) == Some(v.deep_view()),
            None => tree_each_data_processing(model_of(*t)) is None,
        },
{
    match t {
        Tree::Leaf(_) => None,
        Tree::List(xs) => {
            proof {
                lemma_list_model(*xs);
            }
            let ghost tm = models(xs@);
            let mut out: Vec<DataProcessing> = Vec::new();
            let mut i: usize = 0;
            while i < xs.len()
                invariant
                    i <= xs@.len(),
                    tm == models(xs@),
                    model_of(*t) == TreeModel::List(tm),
                    out@.len() == i,
                    forall|k: int|
                        0 <= k < i ==> #[trigger] tree_data_processing(tm[k]) == Some(out@[k].deep_view()),
                decreases xs@.len() - i,
            {
                assert(tm[i as int] == model_of(xs@[i as int]));
                match read_data_processing_tree(&xs[i]) {
                    Some(x) => {
                        out.push(x);
                    },
                    None => {
                        assert(tree_data_processing(tm[i as int]) is None);
                        return None;
                    },
                }
                i = i + 1;
            }
            assert(out.deep_view() =~= tree_each_data_processing(model_of(*t)).unwrap());
            Some(out)
        },
    }
}

/// The tree of one data processing list: the trees of its fields, in their order.
pub open spec fn data_processing_list_tree(m: DataProcessingListModel) -> TreeModel {
    TreeModel::List(seq![
        opt_usize_tree(m.count),
        each_data_processing_tree(m.data_processing),
    ])
}

/// One data processing list without the elements of its arrays.
pub open spec fn bare_data_processing_list(m: DataProcessingListModel) -> DataProcessingListModel {
    DataProcessingListModel {
        count: m.count,
        data_processing: bare_each_data_processing(m.data_processing),
    }
}

/// The data processing list that a tree holds.
pub open spec fn tree_data_processing_list(t: TreeModel) -> Option<DataProcessingListModel> {
    match t {
        TreeModel::List(xs) => if xs.len() == 2
            && tree_opt_usize(xs[0]) is Some
            && tree_each_data_processing(xs[1]) is Some {
            Some(DataProcessingListModel {
                count: tree_opt_usize(xs[0]).unwrap(),
                data_processing: tree_each_data_processing(xs[1]).unwrap(),
            })
        } else {
            None
        },
        TreeModel::Leaf(_) => None,
    }
}

/// One data processing list comes back from its tree as it went in, but for the
/// elements of its arrays.
pub proof fn lemma_data_processing_list_comes_back(m: DataProcessingListModel)
    ensures
        tree_data_processing_list(data_processing_list_tree(m)) == Some(bare_data_processing_list(m)),
{
    lemma_fields_come_back();
    lemma_each_data_processing_comes_back(m.data_processing);
    let xs = children_of(data_processing_list_tree(m));
    assert(xs[0] == opt_usize_tree(m.count));
    assert(xs[1] == each_data_processing_tree(m.data_processing));
    assert(tree_data_processing_list(data_processing_list_tree(m)).unwrap() =~~= bare_data_processing_list(m));
}

/// Makes the tree of one data processing list.
pub fn make_data_processing_list_tree(x: &DataProcessingList) -> (t: Tree)
    ensures
        model_of(t) == data_processing_list_tree(x.deep_view()),
{
    let mut items: Vec<Tree> = Vec::new();
    items.push(make_opt_usize_tree(&x.count));
    items.push(make_each_data_processing_tree(&x.data_processing));
    proof {
        lemma_list_model(items);
        assert(models(items@)[0] == model_of(items@[0]));
        assert(models(items@)[1] == model_of(items@[1]));
        assert(models(items@) =~= children_of(data_processing_list_tree(x.deep_view())));
    }
    Tree::List(items)
}

/// Reads the data processing list that a tree holds.
pub fn read_data_processing_list_tree(t: &Tree) -> (r: Option<DataProcessingList>)
    ensures
        match r {
            Some(x) => tree_data_processing_list(model_of(*t)) == Some(x.deep_view()),
            None => tree_data_processing_list(model_of(*t)) is None,
        },
{
    match t {
        Tree::Leaf(_) => None,
        Tree::List(xs) => {
            proof {
                lemma_list_model(*xs);
            }
            if xs.len() != 2 {
                return None;
            }
            assert(models(xs@)[0] == model_of(xs@[0]));
            assert(models(xs@)[1] == model_of(xs@[1]));
            let got0 = match read_opt_usize_tree(&xs[0]) {
                Some(v) => v,
                None => {
                    return None;
                },
            };
            let got1 = match read_each_data_processing_tree(&xs[1]) {
                Some(v) => v,
                None => {
                    return None;
                },
            };
            let x = DataProcessingList {
                count: got0,
                data_processing: got1,
            };
            assert(x.deep_view() =~~= tree_data_processing_list(model_of(*t)).unwrap());
            Some(x)
        },
    }
}

/// One data processing list holds no arrays, so nothing is taken out of it.
pub proof fn lemma_bare_data_processing_list(m: DataProcessingListModel)
    ensures
        bare_data_processing_list(m) == m,
{
    lemma_bare_each_data_processing(m.data_processing);
    assert(bare_data_processing_list(m) =~~= m);
}

/// An optional data processing list holds no arrays, so nothing is taken out of it.
pub proof fn lemma_bare_opt_data_processing_list(o: Option<DataProcessingListModel>)
    ensures
        bare_opt_data_processing_list(o) == o,
{
    match o {
        Some(m) => {
            lemma_bare_data_processing_list(m);
        },
        None => {},
    }
}

/// The tree of an optional data processing list: a list of none or of one.
pub open spec fn opt_data_processing_list_tree(o: Option<DataProcessingListModel>) -> TreeModel {
    match o {
        Some(m) => TreeModel::List(seq![data_processing_list_tree(m)]),
        None => TreeModel::List(Seq::empty()),
    }
}

/// An optional data processing list without the elements of its arrays.
pub open spec fn bare_opt_data_processing_list(o: Option<DataProcessingListModel>) -> Option<DataProcessingListModel> {
    match o {
        Some(m) => Some(bare_data_processing_list(m)),
        None => None,
    }
}

/// The optional data processing list that a tree holds.
pub open spec fn tree_opt_data_processing_list(t: TreeModel) -> Option<Option<DataProcessingListModel>> {
    match t {
        TreeModel::List(xs) => if xs.len() == 0 {
            Some(None)
        } else if xs.len() == 1 && tree_data_processing_list(xs[0]) is Some {
            Some(Some(tree_data_processing_list(xs[0]).unwrap()))
        } else {
            None
        },
        TreeModel::Leaf(_) => None,
    }
}

/// An optional data processing list comes back from its tree as it went in, but for the
/// elements of its arrays.
pub proof fn lemma_opt_data_processing_list_comes_back(o: Option<DataProcessingListModel>)
    ensures
        tree_opt_data_processing_list(opt_data_processing_list_tree(o)) == Some(bare_opt_data_processing_list(o)),
{
    match o {
        Some(m) => {
            lemma_data_processing_list_comes_back(m);
            assert(children_of(opt_data_processing_list_tree(o))[0] == data_processing_list_tree(m));
        },
        None => {},
    }
}

/// Makes the tree of an optional data processing list.
pub fn make_opt_data_processing_list_tree(o: &Option<DataProcessingList>) -> (t: Tree)
    ensures
        model_of(t) == opt_data_processing_list_tree(o.deep_view()),
{
    let mut items: Vec<Tree> = Vec::new();
    match o {
        Some(x) => {
            items.push(make_data_processing_list_tree(x));
        },
        None => {},
    }
    proof {
        lemma_list_model(items);
        assert(models(items@) =~= children_of(opt_data_processing_list_tree(o.deep_view())));
    }
    Tree::List(items)
}

/// Reads the optional data processing list that a tree holds.
pub fn read_opt_data_processing_list_tree(t: &Tree) -> (r: Option<Option<DataProcessingList>>)
    ensures
        match r {
            Some(o) => tree_opt_data_processing_list(model_of(*t)) == Some(o.deep_view()),
            None => tree_opt_data_processing_list(model_of(*t)) is None,
        },
{
    match t {
        Tree::Leaf(_) => None,
        Tree::List(xs) => {
            proof {
                lemma_list_model(*xs);
            }
            if xs.len() == 0 {
                return Some(None);
            }
            if xs.len() != 1 {
                return None;
            }
            assert(models(xs@)[0] == model_of(xs@[0]));
            match read_data_processing_list_tree(&xs[0]) {
                Some(x) => Some(Some(x)),
                None => None,
            }
        },
    }
}

/// The tree of one scan settings: the trees of its fields, in their order.
pub open spec fn scan_settings_tree(m: ScanSettingsModel) -> TreeModel {
    TreeModel::List(seq![
        text_tree(m.id),
        each_cv_param_tree(m.cv_params),
        each_user_param_tree(m.user_params),
    ])
}

/// One scan settings without the elements of its arrays.
pub open spec fn bare_scan_settings(m: ScanSettingsModel) -> ScanSettingsModel {
    ScanSettingsModel {
        id: m.id,
        cv_params: bare_each_cv_param(m.cv_params),
        user_params: bare_each_user_param(m.user_params),
    }
}

/// The scan settings that a tree holds.
pub open spec fn tree_scan_settings(t: TreeModel) -> Option<ScanSettingsModel> {
    match t {
        TreeModel::List(xs) => if xs.len() == 3
            && tree_text(xs[0]) is Some
            && tree_each_cv_param(xs[1]) is Some
            && tree_each_user_param(xs[2]) is Some {
            Some(ScanSettingsModel {
                id: tree_text(xs[0]).unwrap(),
                cv_params: tree_each_cv_param(xs[1]).unwrap(),
                user_params: tree_each_user_param(xs[2]).unwrap(),
            })
        } else {
            None
        },
        TreeModel::Leaf(_) => None,
    }
}

/// One scan settings comes back from its tree as it went in, but for the
/// elements of its arrays.
pub proof fn lemma_scan_settings_comes_back(m: ScanSettingsModel)
    ensures
        tree_scan_settings(scan_settings_tree(m)) == Some(bare_scan_settings(m)),
{
    lemma_fields_come_back();
    lemma_each_cv_param_comes_back(m.cv_params);
    lemma_each_user_param_comes_back(m.user_params);
    let xs = children_of(scan_settings_tree(m));
    assert(xs[0] == text_tree(m.id));
    assert(xs[1] == each_cv_param_tree(m.cv_params));
    assert(xs[2] == each_user_param_tree(m.user_params));
    assert(tree_scan_settings(scan_settings_tree(m)).unwrap() =~~= bare_scan_settings(m));
}

/// Makes the tree of one scan settings.
pub fn make_scan_settings_tree(x: &ScanSettings) -> (t: Tree)
    ensures
        model_of(t) == scan_settings_tree(x.deep_view()),
{
    let mut items: Vec<Tree> = Vec::new();
    items.push(make_text_tree(&x.id));
    items.push(make_each_cv_param_tree(&x.cv_params));
    items.push(make_each_user_param_tree(&x.user_params));
    proof {
        lemma_list_model(items);
        assert(models(items@)[0] == model_of(items@[0]));
        assert(models(items@)[1] == model_of(items@[1]));
        assert(models(items@)[2] == model_of(items@[2]));
        assert(models(items@) =~= children_of(scan_settings_tree(x.deep_view())));
    }
    Tree::List(items)
}

/// Reads the scan settings that a tree holds.
pub fn read_scan_settings_tree(t: &Tree) -> (r: Option<ScanSettings>)
    ensures
        match r {
            Some(x) => tree_scan_settings(model_of(*t)) == Some(x.deep_view()),
            None => tree_scan_settings(model_of(*t)) is None,
        },
{
    match t {
        Tree::Leaf(_) => None,
        Tree::List(xs) => {
            proof {
                lemma_list_model(*xs);
            }
            if xs.len() != 3 {
                return None;
            }
            assert(models(xs@)[0] == model_of(xs@[0]));
            assert(models(xs@)[1] == model_of(xs@[1]));
            assert(models(xs@)[2] == model_of(xs@[2]));
            let got0 = match read_text_tree(&xs[0]) {
                Some(v) => v,
                None => {
                    return None;
                },
            };
            let got1 = match read_each_cv_param_tree(&xs[1]) {
                Some(v) => v,
                None => {
                    return None;
                },
            };
            let got2 = match read_each_user_param_tree(&xs[2]) {
                Some(v) => v,
                None => {
                    return None;
                },
            };
            let x = ScanSettings {
                id: got0,
                cv_params: got1,
                user_params: got2,
            };
            assert(x.deep_view() =~~= tree_scan_settings(model_of(*t)).unwrap());
            Some(x)
        },
    }
}

/// One scan settings holds no arrays, so nothing is taken out of it.
pub proof fn lemma_bare_scan_settings(m: ScanSettingsModel)
    ensures
        bare_scan_settings(m) == m,
{
    lemma_bare_each_cv_param(m.cv_params);
    lemma_bare_each_user_param(m.user_params);
    assert(bare_scan_settings(m) =~~= m);
}

/// A list of elements that are each one scan settings holds no arrays, so nothing
/// is taken out of it.
pub proof fn lemma_bare_each_scan_settings(ms: Seq<ScanSettingsModel>)
    ensures
        bare_each_scan_settings(ms) == ms,
{
    assert forall|k: int| 0 <= k < ms.len() implies #[trigger] bare_scan_settings(ms[k]) == ms[k] by {
        lemma_bare_scan_settings(ms[k]);
    }
    assert(bare_each_scan_settings(ms) =~= ms);
}

/// The tree of a list: the tree of each scan settings, in their order.
pub open spec fn each_scan_settings_tree(ms: Seq<ScanSettingsModel>) -> TreeModel {
    TreeModel::List(Seq::new(ms.len(), |k: int| scan_settings_tree(ms[k])))
}

/// Each scan settings of a list without the elements of its arrays.
pub open spec fn bare_each_scan_settings(ms: Seq<ScanSettingsModel>) -> Seq<ScanSettingsModel> {
    Seq::new(ms.len(), |k: int| bare_scan_settings(ms[k]))
}

/// The list that a tree holds: each of its trees as one scan settings.
pub open spec fn tree_each_scan_settings(t: TreeModel) -> Option<Seq<ScanSettingsModel>> {
    match t {
        TreeModel::List(xs) => if forall|k: int|
            0 <= k < xs.len() ==> (#[trigger] tree_scan_settings(xs[k])) is Some {
            Some(Seq::new(xs.len(), |k: int| tree_scan_settings(xs[k]).unwrap()))
        } else {
            None
        },
        TreeModel::Leaf(_) => None,
    }
}

/// Each scan settings of a list comes back from the tree of the list as it
/// went in, but for the elements of its arrays.
pub proof fn lemma_each_scan_settings_comes_back(ms: Seq<ScanSettingsModel>)
    ensures
        tree_each_scan_settings(each_scan_settings_tree(ms)) == Some(bare_each_scan_settings(ms)),
{
    let xs = children_of(each_scan_settings_tree(ms));
    assert forall|k: int| 0 <= k < xs.len() implies #[trigger] tree_scan_settings(xs[k]) == Some(
        bare_scan_settings(ms[k]),
    ) by {
        lemma_scan_settings_comes_back(ms[k]);
    }
    assert(tree_each_scan_settings(each_scan_settings_tree(ms)).unwrap() =~= bare_each_scan_settings(ms));
}

/// Makes the tree of a list, of each scan settings.
pub fn make_each_scan_settings_tree(v: &Vec<ScanSettings>) -> (t: Tree)
    ensures
        model_of(t) == each_scan_settings_tree(v.deep_view()),
{
    let ghost ms = v.deep_view();
    let mut items: Vec<Tree> = Vec::new();
    let mut i: usize = 0;
    while i < v.len()
        invariant
            i <= v@.len(),
            ms == v.deep_view(),
            items@.len() == i,
            forall|k: int| 0 <= k < i ==> model_of(#[trigger] items@[k]) == scan_settings_tree(ms[k]),
        decreases v@.len() - i,
    {
        assert(ms[i as int] == v@[i as int].deep_view());
        items.push(make_scan_settings_tree(&v[i]));
        i = i + 1;
    }
    proof {
        lemma_list_model(items);
        assert(models(items@) =~= children_of(each_scan_settings_tree(ms)));
    }
    Tree::List(items)
}

/// Reads the list that a tree holds, each of its trees as one scan settings.
pub fn read_each_scan_settings_tree(t: &Tree) -> (r: Option<Vec<ScanSettings>>)
    ensures
        match r {
            Some(v) => tree_each_scan_settings(model_of(*t)) == Some(v.deep_view()),
            None => tree_each_scan_settings(model_of(*t)) is None,
        },
{
    match t {
        Tree::Leaf(_) => None,
        Tree::List(xs) => {
            proof {
                lemma_list_model(*xs);
            }
            let ghost tm = models(xs@);
            let mut out: Vec<ScanSettings> = Vec::new();
            let mut i: usize = 0;
            while i < xs.len()
                invariant
                    i <= xs@.len(),
                    tm == models(xs@),
                    model_of(*t) == TreeModel::List(tm),
                    out@.len() == i,
                    forall|k: int|
                        0 <= k < i ==> #[trigger] tree_scan_settings(tm[k]) == Some(out@[k].deep_view()),
                decreases xs@.len() - i,
            {
                assert(tm[i as int] == model_of(xs@[i as int]));
                match read_scan_settings_tree(&xs[i]) {
                    Some(x) => {
                        out.push(x);
                    },
                    None => {
                        assert(tree_scan_settings(tm[i as int]) is None);
                        return None;
                    },
                }
                i = i + 1;
            }
            assert(out.deep_view() =~= tree_each_scan_settings(model_of(*t)).unwrap());
            Some(out)
        },
    }
}

/// The tree of one scan settings list: the trees of its fields, in their order.
pub open spec fn scan_settings_list_tree(m: ScanSettingsListModel) -> TreeModel {
    TreeModel::List(seq![
        opt_usize_tree(m.count),
        each_scan_settings_tree(m.scan_settings),
    ])
}

/// One scan settings list without the elements of its arrays.
pub open spec fn bare_scan_settings_list(m: ScanSettingsListModel) -> ScanSettingsListModel {
    ScanSettingsListModel {
        count: m.count,
        scan_settings: bare_each_scan_settings(m.scan_settings),
    }
}

/// The scan settings list that a tree holds.
pub open spec fn tree_scan_settings_list(t: TreeModel) -> Option<ScanSettingsListModel> {
    match t {
        TreeModel::List(xs) => if xs.len() == 2
            && tree_opt_usize(xs[0]) is Some
            && tree_each_scan_settings(xs[1]) is Some {
            Some(ScanSettingsListModel {
                count: tree_opt_usize(xs[0]).unwrap(),
                scan_settings: tree_each_scan_settings(xs[1]).unwrap(),
            })
        } else {
            None
        },
        TreeModel::Leaf(_) => None,
    }
}

/// One scan settings list comes back from its tree as it went in, but for the
/// elements of its arrays.
pub proof fn lemma_scan_settings_list_comes_back(m: ScanSettingsListModel)
    ensures
        tree_scan_settings_list(scan_settings_list_tree(m)) == Some(bare_scan_settings_list(m)),
{
    lemma_fields_come_back();
    lemma_each_scan_settings_comes_back(m.scan_settings);
    let xs = children_of(scan_settings_list_tree(m));
    assert(xs[0] == opt_usize_tree(m.count));
    assert(xs[1] == each_scan_settings_tree(m.scan_settings));
    assert(tree_scan_settings_list(scan_settings_list_tree(m)).unwrap() =~~= bare_scan_settings_list(m));
}

/// Makes the tree of one scan settings list.
pub fn make_scan_settings_list_tree(x: &ScanSettingsList) -> (t: Tree)
    ensures
        model_of(t) == scan_settings_list_tree(x.deep_view()),
{
    let mut items: Vec<Tree> = Vec::new();
    items.push(make_opt_usize_tree(&x.count));
    items.push(make_each_scan_settings_tree(&x.scan_settings));
    proof {
        lemma_list_model(items);
        assert(models(items@)[0] == model_of(items@[0]));
        assert(models(items@)[1] == model_of(items@[1]));
        assert(models(items@) =~= children_of(scan_settings_list_tree(x.deep_view())));
    }
    Tree::List(items)
}

/// Reads the scan settings list that a tree holds.
pub fn read_scan_settings_list_tree(t: &Tree) -> (r: Option<ScanSettingsList>)
    ensures
        match r {
            Some(x) => tree_scan_settings_list(model_of(*t)) == Some(x.deep_view()),
            None => tree_scan_settings_list(model_of(*t)) is None,
        },
{
    match t {
        Tree::Leaf(_) => None,
        Tree::List(xs) => {
            proof {
                lemma_list_model(*xs);
            }
            if xs.len() != 2 {
                return None;
            }
            assert(models(xs@)[0] == model_of(xs@[0]));
            assert(models(xs@)[1] == model_of(xs@[1]));
            let got0 = match read_opt_usize_tree(&xs[0]) {
                Some(v) => v,
                None => {
                    return None;
                },
            };
            let got1 = match read_each_scan_settings_tree(&xs[1]) {
                Some(v) => v,
                None => {
                    return None;
                },
            };
            let x = ScanSettingsList {
                count: got0,
                scan_settings: got1,
            };
            assert(x.deep_view() =~~= tree_scan_settings_list(model_of(*t)).unwrap());
            Some(x)
        },
    }
}

/// One scan settings list holds no arrays, so nothing is taken out of it.
pub proof fn lemma_bare_scan_settings_list(m: ScanSettingsListModel)
    ensures
        bare_scan_settings_list(m) == m,
{
    lemma_bare_each_scan_settings(m.scan_settings);
    assert(bare_scan_settings_list(m) =~~= m);
}

/// An optional scan settings list holds no arrays, so nothing is taken out of it.
pub proof fn lemma_bare_opt_scan_settings_list(o: Option<ScanSettingsListModel>)
    ensures
        bare_opt_scan_settings_list(o) == o,
{
    match o {
        Some(m) => {
            lemma_bare_scan_settings_list(m);
        },
        None => {},
    }
}

/// The tree of an optional scan settings list: a list of none or of one.
pub open spec fn opt_scan_settings_list_tree(o: Option<ScanSettingsListModel>) -> TreeModel {
    match o {
        Some(m) => TreeModel::List(seq![scan_settings_list_tree(m)]),
        None => TreeModel::List(Seq::empty()),
    }
}

/// An optional scan settings list without the elements of its arrays.
pub open spec fn bare_opt_scan_settings_list(o: Option<ScanSettingsListModel>) -> Option<ScanSettingsListModel> {
    match o {
        Some(m) => Some(bare_scan_settings_list(m)),
        None => None,
    }
}

/// The optional scan settings list that a tree holds.
pub open spec fn tree_opt_scan_settings_list(t: TreeModel) -> Option<Option<ScanSettingsListModel>> {
    match t {
        TreeModel::List(xs) => if xs.len() == 0 {
            Some(None)
        } else if xs.len() == 1 && tree_scan_settings_list(xs[0]) is Some {
            Some(Some(tree_scan_settings_list(xs[0]).unwrap()))
        } else {
            None
        },
        TreeModel::Leaf(_) => None,
    }
}

/// An optional scan settings list comes back from its tree as it went in, but for the
/// elements of its arrays.
pub proof fn lemma_opt_scan_settings_list_comes_back(o: Option<ScanSettingsListModel>)
    ensures
        tree_opt_scan_settings_list(opt_scan_settings_list_tree(o)) == Some(bare_opt_scan_settings_list(o)),
{
    match o {
        Some(m) => {
            lemma_scan_settings_list_comes_back(m);
            assert(children_of(opt_scan_settings_list_tree(o))[0] == scan_settings_list_tree(m));
        },
        None => {},
    }
}

/// Makes the tree of an optional scan settings list.
pub fn make_opt_scan_settings_list_tree(o: &Option<ScanSettingsList>) -> (t: Tree)
    ensures
        model_of(t) == opt_scan_settings_list_tree(o.deep_view()),
{
    let mut items: Vec<Tree> = Vec::new();
    match o {
        Some(x) => {
            items.push(make_scan_settings_list_tree(x));
        },
        None => {},
    }
    proof {
        lemma_list_model(items);
        assert(models(items@) =~= children_of(opt_scan_settings_list_tree(o.deep_view())));
    }
    Tree::List(items)
}

/// Reads the optional scan settings list that a tree holds.
pub fn read_opt_scan_settings_list_tree(t: &Tree) -> (r: Option<Option<ScanSettingsList>>)
    ensures
        match r {
            Some(o) => tree_opt_scan_settings_list(model_of(*t)) == Some(o.deep_view()),
            None => tree_opt_scan_settings_list(model_of(*t)) is None,
        },
{
    match t {
        Tree::Leaf(_) => None,
        Tree::List(xs) => {
            proof {
                lemma_list_model(*xs);
            }
            if xs.len() == 0 {
                return Some(None);
            }
            if xs.len() != 1 {
                return None;
            }
            assert(models(xs@)[0] == model_of(xs@[0]));
            match read_scan_settings_list_tree(&xs[0]) {
                Some(x) => Some(Some(x)),
                None => None,
            }
        },
    }
}

/// The tree of one document: the trees of its fields, in their order.
pub open spec fn mzml_tree(m: MzMLModel) -> TreeModel {
    TreeModel::List(seq![
        opt_cv_list_tree(m.cv_list),
        file_description_tree(m.file_description),
        opt_referenceable_param_group_list_tree(m.referenceable_param_group_list),
        opt_sample_list_tree(m.sample_list),
        opt_instrument_list_tree(m.instrument_list),
        opt_software_list_tree(m.software_list),
        opt_data_processing_list_tree(m.data_processing_list),
        opt_scan_settings_list_tree(m.scan_settings_list),
        run_tree(m.run),
    ])
}

/// One document without the elements of its arrays.
pub open spec fn bare_mzml(m: MzMLModel) -> MzMLModel {
    MzMLModel {
        cv_list: bare_opt_cv_list(m.cv_list),
        file_description: bare_file_description(m.file_description),
        referenceable_param_group_list: bare_opt_referenceable_param_group_list(m.referenceable_param_group_list),
        sample_list: bare_opt_sample_list(m.sample_list),
        instrument_list: bare_opt_instrument_list(m.instrument_list),
        software_list: bare_opt_software_list(m.software_list),
        data_processing_list: bare_opt_data_processing_list(m.data_processing_list),
        scan_settings_list: bare_opt_scan_settings_list(m.scan_settings_list),
        run: bare_run(m.run),
    }
}

/// The document that a tree holds.
pub open spec fn tree_mzml(t: TreeModel) -> Option<MzMLModel> {
    match t {
        TreeModel::List(xs) => if xs.len() == 9
            && tree_opt_cv_list(xs[0]) is Some
            && tree_file_description(xs[1]) is Some
            && tree_opt_referenceable_param_group_list(xs[2]) is Some
            && tree_opt_sample_list(xs[3]) is Some
            && tree_opt_instrument_list(xs[4]) is Some
            && tree_opt_software_list(xs[5]) is Some
            && tree_opt_data_processing_list(xs[6]) is Some
            && tree_opt_scan_settings_list(xs[7]) is Some
            && tree_run(xs[8]) is Some {
            Some(MzMLModel {
                cv_list: tree_opt_cv_list(xs[0]).unwrap(),
                file_description: tree_file_description(xs[1]).unwrap(),
                referenceable_param_group_list: tree_opt_referenceable_param_group_list(xs[2]).unwrap(),
                sample_list: tree_opt_sample_list(xs[3]).unwrap(),
                instrument_list: tree_opt_instrument_list(xs[4]).unwrap(),
                software_list: tree_opt_software_list(xs[5]).unwrap(),
                data_processing_list: tree_opt_data_processing_list(xs[6]).unwrap(),
                scan_settings_list: tree_opt_scan_settings_list(xs[7]).unwrap(),
                run: tree_run(xs[8]).unwrap(),
            })
        } else {
            None
        },
        TreeModel::Leaf(_) => None,
    }
}

/// One document comes back from its tree as it went in, but for the
/// elements of its arrays.
pub proof fn lemma_mzml_comes_back(m: MzMLModel)
    ensures
        tree_mzml(mzml_tree(m)) == Some(bare_mzml(m)),
{
    lemma_fields_come_back();
    lemma_opt_cv_list_comes_back(m.cv_list);
    lemma_file_description_comes_back(m.file_description);
    lemma_opt_referenceable_param_group_list_comes_back(m.referenceable_param_group_list);
    lemma_opt_sample_list_comes_back(m.sample_list);
    lemma_opt_instrument_list_comes_back(m.instrument_list);
    lemma_opt_software_list_comes_back(m.software_list);
    lemma_opt_data_processing_list_comes_back(m.data_processing_list);
    lemma_opt_scan_settings_list_comes_back(m.scan_settings_list);
    lemma_run_comes_back(m.run);
    let xs = children_of(mzml_tree(m));
    assert(xs[0] == opt_cv_list_tree(m.cv_list));
    assert(xs[1] == file_description_tree(m.file_description));
    assert(xs[2] == opt_referenceable_param_group_list_tree(m.referenceable_param_group_list));
    assert(xs[3] == opt_sample_list_tree(m.sample_list));
    assert(xs[4] == opt_instrument_list_tree(m.instrument_list));
    assert(xs[5] == opt_software_list_tree(m.software_list));
    assert(xs[6] == opt_data_processing_list_tree(m.data_processing_list));
    assert(xs[7] == opt_scan_settings_list_tree(m.scan_settings_list));
    assert(xs[8] == run_tree(m.run));
    assert(tree_mzml(mzml_tree(m)).unwrap() =~~= bare_mzml(m));
}

/// Makes the tree of one document.
pub fn make_mzml_tree(x: &MzML) -> (t: Tree)
    ensures
        model_of(t) == mzml_tree(x.deep_view()),
{
    let mut items: Vec<Tree> = Vec::new();
    items.push(make_opt_cv_list_tree(&x.cv_list));
    items.push(make_file_description_tree(&x.file_description));
    items.push(make_opt_referenceable_param_group_list_tree(&x.referenceable_param_group_list));
    items.push(make_opt_sample_list_tree(&x.sample_list));
    items.push(make_opt_instrument_list_tree(&x.instrument_list));
    items.push(make_opt_software_list_tree(&x.software_list));
    items.push(make_opt_data_processing_list_tree(&x.data_processing_list));
    items.push(make_opt_scan_settings_list_tree(&x.scan_settings_list));
    items.push(make_run_tree(&x.run));
    proof {
        lemma_list_model(items);
        assert(models(items@)[0] == model_of(items@[0]));
        assert(models(items@)[1] == model_of(items@[1]));
        assert(models(items@)[2] == model_of(items@[2]));
        assert(models(items@)[3] == model_of(items@[3]));
        assert(models(items@)[4] == model_of(items@[4]));
        assert(models(items@)[5] == model_of(items@[5]));
        assert(models(items@)[6] == model_of(items@[6]));
        assert(models(items@)[7] == model_of(items@[7]));
        assert(models(items@)[8] == model_of(items@[8]));
        assert(models(items@) =~= children_of(mzml_tree(x.deep_view())));
    }
    Tree::List(items)
}

/// Reads the document that a tree holds.
pub fn read_mzml_tree(t: &Tree) -> (r: Option<MzML>)
    ensures
        match r {
            Some(x) => tree_mzml(model_of(*t)) == Some(x.deep_view()),
            None => tree_mzml(model_of(*t)) is None,
        },
{
    match t {
        Tree::Leaf(_) => None,
        Tree::List(xs) => {
            proof {
                lemma_list_model(*xs);
            }
            if xs.len() != 9 {
                return None;
            }
            assert(models(xs@)[0] == model_of(xs@[0]));
            assert(models(xs@)[1] == model_of(xs@[1]));
            assert(models(xs@)[2] == model_of(xs@[2]));
            assert(models(xs@)[3] == model_of(xs@[3]));
            assert(models(xs@)[4] == model_of(xs@[4]));
            assert(models(xs@)[5] == model_of(xs@[5]));
            assert(models(xs@)[6] == model_of(xs@[6]));
            assert(models(xs@)[7] == model_of(xs@[7]));
            assert(models(xs@)[8] == model_of(xs@[8]));
            let got0 = match read_opt_cv_list_tree(&xs[0]) {
                Some(v) => v,
                None => {
                    return None;
                },
            };
            let got1 = match read_file_description_tree(&xs[1]) {
                Some(v) => v,
                None => {
                    return None;
                },
            };
            let got2 = match read_opt_referenceable_param_group_list_tree(&xs[2]) {
                Some(v) => v,
                None => {
                    return None;
                },
            };
            let got3 = match read_opt_sample_list_tree(&xs[3]) {
                Some(v) => v,
                None => {
                    return None;
                },
            };
            let got4 = match read_opt_instrument_list_tree(&xs[4]) {
                Some(v) => v,
                None => {
                    return None;
                },
            };
            let got5 = match read_opt_software_list_tree(&xs[5]) {
                Some(v) => v,
                None => {
                    return None;
                },
            };
            let got6 = match read_opt_data_processing_list_tree(&xs[6]) {
                Some(v) => v,
                None => {
                    return None;
                },
            };
            let got7 = match read_opt_scan_settings_list_tree(&xs[7]) {
                Some(v) => v,
                None => {
                    return None;
                },
            };
            let got8 = match read_run_tree(&xs[8]) {
                Some(v) => v,
                None => {
                    return None;
                },
            };
            let x = MzML {
                cv_list: got0,
                file_description: got1,
                referenceable_param_group_list: got2,
                sample_list: got3,
                instrument_list: got4,
                software_list: got5,
                data_processing_list: got6,
                scan_settings_list: got7,
                run: got8,
            };
            assert(x.deep_view() =~~= tree_mzml(model_of(*t)).unwrap());
            Some(x)
        },
    }
}

} // verus!
