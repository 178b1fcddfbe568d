//! Parameters of a document: controlled-vocabulary terms and free-form
//! entries, and the values they carry.

use vstd::prelude::*;

verus! {

/// The value of a parameter or attribute.
///
/// A number is kept as the bit pattern of an IEEE-754 binary64 value; it is
/// turned into text only where a document is shown.
#[derive(Debug, Clone, PartialEq, Eq)]
pub enum ParamValue {
    /// No value.
    Empty,
    /// A text value.
    Text(String),
    /// A numeric value, as binary64 bits.
    Number(u64),
}

/// The content of a [`ParamValue`] as mathematical values.
#[verifier::ext_equal]
pub enum ParamValueModel {
    Empty,
    Text(Seq<char>),
    Number(u64),
}

impl DeepView for ParamValue {
    type V = ParamValueModel;

    open spec fn deep_view(&self) -> ParamValueModel {
        match self {
            ParamValue::Empty => ParamValueModel::Empty,
            ParamValue::Text(s) => ParamValueModel::Text(s@),
            ParamValue::Number(bits) => ParamValueModel::Number(*bits),
        }
    }
}

/// A term of a controlled vocabulary attached to an element.
#[derive(Debug, Clone, PartialEq, Eq)]
pub struct CvParam {
    /// The vocabulary the term is taken from.
    pub cv_ref: Option<String>,
    /// The accession of the term, such as `MS:1000511`.
    pub accession: Option<String>,
    /// The display name of the term.
    pub name: String,
    /// The value given to the term.
    pub value: ParamValue,
    /// The vocabulary of the unit.
    pub unit_cv_ref: Option<String>,
    /// The display name of the unit.
    pub unit_name: Option<String>,
    /// The accession of the unit.
    pub unit_accession: Option<String>,
}

/// The content of a [`CvParam`] as mathematical values.
#[verifier::ext_equal]
pub struct CvParamModel {
    pub cv_ref: Option<Seq<char>>,
    pub accession: Option<Seq<char>>,
    pub name: Seq<char>,
    pub value: ParamValueModel,
    pub unit_cv_ref: Option<Seq<char>>,
    pub unit_name: Option<Seq<char>>,
    pub unit_accession: Option<Seq<char>>,
}

impl DeepView for CvParam {
    type V = CvParamModel;

    open spec fn deep_view(&self) -> CvParamModel {
        CvParamModel {
            cv_ref: self.cv_ref.deep_view(),
            accession: self.accession.deep_view(),
            name: self.name.deep_view(),
            value: self.value.deep_view(),
            unit_cv_ref: self.unit_cv_ref.deep_view(),
            unit_name: self.unit_name.deep_view(),
            unit_accession: self.unit_accession.deep_view(),
        }
    }
}

impl CvParamModel {
    /// The content with nothing filled in.
    pub open spec fn empty() -> CvParamModel {
        CvParamModel {
            cv_ref: None,
            accession: None,
            name: Seq::empty(),
            value: ParamValueModel::Empty,
            unit_cv_ref: None,
            unit_name: None,
            unit_accession: None,
        }
    }
}

impl CvParam {
    /// Makes a value with nothing filled in.
    pub fn empty() -> (r: CvParam)
        ensures
            r.deep_view() == CvParamModel::empty(),
    {
        let r = CvParam {
            cv_ref: None,
            accession: None,
            name: String::new(),
            value: ParamValue::Empty,
            unit_cv_ref: None,
            unit_name: None,
            unit_accession: None,
        };
        assert(r.deep_view() =~~= CvParamModel::empty());
        r
    }
}

/// A free-form entry attached to an element.
#[derive(Debug, Clone, PartialEq, Eq)]
pub struct UserParam {
    /// The name of the entry.
    pub name: String,
    /// The declared data type of the value.
    pub kind: Option<String>,
    /// The accession of the unit.
    pub unit_accession: Option<String>,
    /// The vocabulary of the unit.
    pub unit_cv_ref: Option<String>,
    /// The display name of the unit.
    pub unit_name: Option<String>,
    /// The value of the entry.
    pub value: ParamValue,
}

/// The content of a [`UserParam`] as mathematical values.
#[verifier::ext_equal]
pub struct UserParamModel {
    pub name: Seq<char>,
    pub kind: Option<Seq<char>>,
    pub unit_accession: Option<Seq<char>>,
    pub unit_cv_ref: Option<Seq<char>>,
    pub unit_name: Option<Seq<char>>,
    pub value: ParamValueModel,
}

impl DeepView for UserParam {
    type V = UserParamModel;

    open spec fn deep_view(&self) -> UserParamModel {
        UserParamModel {
            name: self.name.deep_view(),
            kind: self.kind.deep_view(),
            unit_accession: self.unit_accession.deep_view(),
            unit_cv_ref: self.unit_cv_ref.deep_view(),
            unit_name: self.unit_name.deep_view(),
            value: self.value.deep_view(),
        }
    }
}

impl UserParamModel {
    /// The content with nothing filled in.
    pub open spec fn empty() -> UserParamModel {
        UserParamModel {
            name: Seq::empty(),
            kind: None,
            unit_accession: None,
            unit_cv_ref: None,
            unit_name: None,
            value: ParamValueModel::Empty,
        }
    }
}

impl UserParam {
    /// Makes a value with nothing filled in.
    pub fn empty() -> (r: UserParam)
        ensures
            r.deep_view() == UserParamModel::empty(),
    {
        let r = UserParam {
            name: String::new(),
            kind: None,
            unit_accession: None,
            unit_cv_ref: None,
            unit_name: None,
            value: ParamValue::Empty,
        };
        assert(r.deep_view() =~~= UserParamModel::empty());
        r
    }
}

/// A reference to a shared group of parameters.
#[derive(Debug, Clone, PartialEq, Eq)]
pub struct ReferenceableParamGroupRef {
    /// The id of the group referred to.
    pub reference: String,
}

/// The content of a [`ReferenceableParamGroupRef`] as mathematical values.
#[verifier::ext_equal]
pub struct ReferenceableParamGroupRefModel {
    pub reference: Seq<char>,
}

impl DeepView for ReferenceableParamGroupRef {
    type V = ReferenceableParamGroupRefModel;

    open spec fn deep_view(&self) -> ReferenceableParamGroupRefModel {
        ReferenceableParamGroupRefModel {
            reference: self.reference.deep_view(),
        }
    }
}

impl ReferenceableParamGroupRefModel {
    /// The content with nothing filled in.
    pub open spec fn empty() -> ReferenceableParamGroupRefModel {
        ReferenceableParamGroupRefModel {
            reference: Seq::empty(),
        }
    }
}

impl ReferenceableParamGroupRef {
    /// Makes a value with nothing filled in.
    pub fn empty() -> (r: ReferenceableParamGroupRef)
        ensures
            r.deep_view() == ReferenceableParamGroupRefModel::empty(),
    {
        let r = ReferenceableParamGroupRef {
            reference: String::new(),
        };
        assert(r.deep_view() =~~= ReferenceableParamGroupRefModel::empty());
        r
    }
}

/// Pushing onto a vector pushes the content of the new item onto the
/// content of the vector.
pub proof fn lemma_deep_view_push<T: DeepView>(before: Vec<T>, after: Vec<T>, item: T)
    requires
        after@ == before@.push(item),
    ensures
        after.deep_view() == before.deep_view().push(item.deep_view()),
{
    assert(after.deep_view() =~= before.deep_view().push(item.deep_view()));
}

} // verus!
