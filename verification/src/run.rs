//! The run of a document: spectra, chromatograms and their numeric arrays.

use vstd::prelude::*;
use crate::params::{
    CvParam, CvParamModel, ReferenceableParamGroupRef, ReferenceableParamGroupRefModel, UserParam,
    UserParamModel,
};

verus! {

/// The element type of a numeric array.
#[derive(Clone, Copy, Debug, PartialEq, Eq, Structural)]
pub enum NumericType {
    Int32,
    Float32,
    Int64,
    Float64,
}

impl DeepView for NumericType {
    type V = NumericType;

    open spec fn deep_view(&self) -> NumericType {
        *self
    }
}

/// One numeric array of a spectrum or chromatogram.  Elements are kept as IEEE-754 bit patterns; of the two vectors at most one is filled.
#[derive(Debug, Clone, PartialEq, Eq)]
pub struct BinaryDataArray {
    /// The number of elements.
    pub array_length: Option<usize>,
    /// The number of raw bytes before compression.
    pub encoded_length: Option<usize>,
    /// The id of the data processing applied.
    pub data_processing_ref: Option<String>,
    /// The shared parameter groups referred to.
    pub referenceable_param_group_refs: Vec<ReferenceableParamGroupRef>,
    /// The controlled-vocabulary terms of the element.
    pub cv_params: Vec<CvParam>,
    /// The free-form entries of the element.
    pub user_params: Vec<UserParam>,
    /// The element type that the parameters name, where they agree on one.
    pub numeric_type: Option<NumericType>,
    /// Whether the elements are 32-bit floats.
    pub is_f32: Option<bool>,
    /// Whether the elements are 64-bit floats.
    pub is_f64: Option<bool>,
    /// The elements as binary32 bits.
    pub decoded_binary_f32: Vec<u32>,
    /// The elements as binary64 bits.
    pub decoded_binary_f64: Vec<u64>,
}

/// The content of a [`BinaryDataArray`] as mathematical values.
#[verifier::ext_equal]
pub struct BinaryDataArrayModel {
    pub array_length: Option<usize>,
    pub encoded_length: Option<usize>,
    pub data_processing_ref: Option<Seq<char>>,
    pub referenceable_param_group_refs: Seq<ReferenceableParamGroupRefModel>,
    pub cv_params: Seq<CvParamModel>,
    pub user_params: Seq<UserParamModel>,
    pub numeric_type: Option<NumericType>,
    pub is_f32: Option<bool>,
    pub is_f64: Option<bool>,
    pub decoded_binary_f32: Seq<u32>,
    pub decoded_binary_f64: Seq<u64>,
}

impl DeepView for BinaryDataArray {
    type V = BinaryDataArrayModel;

    open spec fn deep_view(&self) -> BinaryDataArrayModel {
        BinaryDataArrayModel {
            array_length: self.array_length.deep_view(),
            encoded_length: self.encoded_length.deep_view(),
            data_processing_ref: self.data_processing_ref.deep_view(),
            referenceable_param_group_refs: self.referenceable_param_group_refs.deep_view(),
            cv_params: self.cv_params.deep_view(),
            user_params: self.user_params.deep_view(),
            numeric_type: self.numeric_type.deep_view(),
            is_f32: self.is_f32.deep_view(),
            is_f64: self.is_f64.deep_view(),
            decoded_binary_f32: self.decoded_binary_f32.deep_view(),
            decoded_binary_f64: self.decoded_binary_f64.deep_view(),
        }
    }
}

impl BinaryDataArrayModel {
    /// The content with nothing filled in.
    pub open spec fn empty() -> BinaryDataArrayModel {
        BinaryDataArrayModel {
            array_length: None,
            encoded_length: None,
            data_processing_ref: None,
            referenceable_param_group_refs: Seq::empty(),
            cv_params: Seq::empty(),
            user_params: Seq::empty(),
            numeric_type: None,
            is_f32: None,
            is_f64: None,
            decoded_binary_f32: Seq::empty(),
            decoded_binary_f64: Seq::empty(),
        }
    }
}

impl BinaryDataArray {
    /// Makes a value with nothing filled in.
    pub fn empty() -> (r: BinaryDataArray)
        ensures
            r.deep_view() == BinaryDataArrayModel::empty(),
    {
        let r = BinaryDataArray {
            array_length: None,
            encoded_length: None,
            data_processing_ref: None,
            referenceable_param_group_refs: Vec::new(),
            cv_params: Vec::new(),
            user_params: Vec::new(),
            numeric_type: None,
            is_f32: None,
            is_f64: None,
            decoded_binary_f32: Vec::new(),
            decoded_binary_f64: Vec::new(),
        };
        assert(r.deep_view() =~~= BinaryDataArrayModel::empty());
        r
    }
}

/// The numeric arrays of one spectrum or chromatogram.
#[derive(Debug, Clone, PartialEq, Eq)]
pub struct BinaryDataArrayList {
    /// The declared number of arrays.
    pub count: Option<usize>,
    /// The arrays.
    pub binary_data_arrays: Vec<BinaryDataArray>,
}

/// The content of a [`BinaryDataArrayList`] as mathematical values.
#[verifier::ext_equal]
pub struct BinaryDataArrayListModel {
    pub count: Option<usize>,
    pub binary_data_arrays: Seq<BinaryDataArrayModel>,
}

impl DeepView for BinaryDataArrayList {
    type V = BinaryDataArrayListModel;

    open spec fn deep_view(&self) -> BinaryDataArrayListModel {
        BinaryDataArrayListModel {
            count: self.count.deep_view(),
            binary_data_arrays: self.binary_data_arrays.deep_view(),
        }
    }
}

impl BinaryDataArrayListModel {
    /// The content with nothing filled in.
    pub open spec fn empty() -> BinaryDataArrayListModel {
        BinaryDataArrayListModel {
            count: None,
            binary_data_arrays: Seq::empty(),
        }
    }
}

impl BinaryDataArrayList {
    /// Makes a value with nothing filled in.
    pub fn empty() -> (r: BinaryDataArrayList)
        ensures
            r.deep_view() == BinaryDataArrayListModel::empty(),
    {
        let r = BinaryDataArrayList {
            count: None,
            binary_data_arrays: Vec::new(),
        };
        assert(r.deep_view() =~~= BinaryDataArrayListModel::empty());
        r
    }
}

/// The window of m/z values that was isolated.
#[derive(Debug, Clone, PartialEq, Eq)]
pub struct IsolationWindow {
    /// The controlled-vocabulary terms of the element.
    pub cv_params: Vec<CvParam>,
    /// The free-form entries of the element.
    pub user_params: Vec<UserParam>,
}

/// The content of a [`IsolationWindow`] as mathematical values.
#[verifier::ext_equal]
pub struct IsolationWindowModel {
    pub cv_params: Seq<CvParamModel>,
    pub user_params: Seq<UserParamModel>,
}

impl DeepView for IsolationWindow {
    type V = IsolationWindowModel;

    open spec fn deep_view(&self) -> IsolationWindowModel {
        IsolationWindowModel {
            cv_params: self.cv_params.deep_view(),
            user_params: self.user_params.deep_view(),
        }
    }
}

impl IsolationWindowModel {
    /// The content with nothing filled in.
    pub open spec fn empty() -> IsolationWindowModel {
        IsolationWindowModel {
            cv_params: Seq::empty(),
            user_params: Seq::empty(),
        }
    }
}

impl IsolationWindow {
    /// Makes a value with nothing filled in.
    pub fn empty() -> (r: IsolationWindow)
        ensures
            r.deep_view() == IsolationWindowModel::empty(),
    {
        let r = IsolationWindow {
            cv_params: Vec::new(),
            user_params: Vec::new(),
        };
        assert(r.deep_view() =~~= IsolationWindowModel::empty());
        r
    }
}

/// One ion selected for fragmentation.
#[derive(Debug, Clone, PartialEq, Eq)]
pub struct SelectedIon {
    /// The controlled-vocabulary terms of the element.
    pub cv_params: Vec<CvParam>,
    /// The free-form entries of the element.
    pub user_params: Vec<UserParam>,
}

/// The content of a [`SelectedIon`] as mathematical values.
#[verifier::ext_equal]
pub struct SelectedIonModel {
    pub cv_params: Seq<CvParamModel>,
    pub user_params: Seq<UserParamModel>,
}

impl DeepView for SelectedIon {
    type V = SelectedIonModel;

    open spec fn deep_view(&self) -> SelectedIonModel {
        SelectedIonModel {
            cv_params: self.cv_params.deep_view(),
            user_params: self.user_params.deep_view(),
        }
    }
}

impl SelectedIonModel {
    /// The content with nothing filled in.
    pub open spec fn empty() -> SelectedIonModel {
        SelectedIonModel {
            cv_params: Seq::empty(),
            user_params: Seq::empty(),
        }
    }
}

impl SelectedIon {
    /// Makes a value with nothing filled in.
    pub fn empty() -> (r: SelectedIon)
        ensures
            r.deep_view() == SelectedIonModel::empty(),
    {
        let r = SelectedIon {
            cv_params: Vec::new(),
            user_params: Vec::new(),
        };
        assert(r.deep_view() =~~= SelectedIonModel::empty());
        r
    }
}

/// The ions selected for fragmentation.
#[derive(Debug, Clone, PartialEq, Eq)]
pub struct SelectedIonList {
    /// The declared number of ions.
    pub count: Option<usize>,
    /// The ions.
    pub selected_ions: Vec<SelectedIon>,
}

/// The content of a [`SelectedIonList`] as mathematical values.
#[verifier::ext_equal]
pub struct SelectedIonListModel {
    pub count: Option<usize>,
    pub selected_ions: Seq<SelectedIonModel>,
}

impl DeepView for SelectedIonList {
    type V = SelectedIonListModel;

    open spec fn deep_view(&self) -> SelectedIonListModel {
        SelectedIonListModel {
            count: self.count.deep_view(),
            selected_ions: self.selected_ions.deep_view(),
        }
    }
}

impl SelectedIonListModel {
    /// The content with nothing filled in.
    pub open spec fn empty() -> SelectedIonListModel {
        SelectedIonListModel {
            count: None,
            selected_ions: Seq::empty(),
        }
    }
}

impl SelectedIonList {
    /// Makes a value with nothing filled in.
    pub fn empty() -> (r: SelectedIonList)
        ensures
            r.deep_view() == SelectedIonListModel::empty(),
    {
        let r = SelectedIonList {
            count: None,
            selected_ions: Vec::new(),
        };
        assert(r.deep_view() =~~= SelectedIonListModel::empty());
        r
    }
}

/// How the precursor was activated.
#[derive(Debug, Clone, PartialEq, Eq)]
pub struct Activation {
    /// The controlled-vocabulary terms of the element.
    pub cv_params: Vec<CvParam>,
    /// The free-form entries of the element.
    pub user_params: Vec<UserParam>,
}

/// The content of a [`Activation`] as mathematical values.
#[verifier::ext_equal]
pub struct ActivationModel {
    pub cv_params: Seq<CvParamModel>,
    pub user_params: Seq<UserParamModel>,
}

impl DeepView for Activation {
    type V = ActivationModel;

    open spec fn deep_view(&self) -> ActivationModel {
        ActivationModel {
            cv_params: self.cv_params.deep_view(),
            user_params: self.user_params.deep_view(),
        }
    }
}

impl ActivationModel {
    /// The content with nothing filled in.
    pub open spec fn empty() -> ActivationModel {
        ActivationModel {
            cv_params: Seq::empty(),
            user_params: Seq::empty(),
        }
    }
}

impl Activation {
    /// Makes a value with nothing filled in.
    pub fn empty() -> (r: Activation)
        ensures
            r.deep_view() == ActivationModel::empty(),
    {
        let r = Activation {
            cv_params: Vec::new(),
            user_params: Vec::new(),
        };
        assert(r.deep_view() =~~= ActivationModel::empty());
        r
    }
}

/// The precursor of a spectrum.
#[derive(Debug, Clone, PartialEq, Eq)]
pub struct Precursor {
    /// The id of the spectrum the precursor was taken from.
    pub spectrum_ref: Option<String>,
    /// The isolation window.
    pub isolation_window: Option<IsolationWindow>,
    /// The selected ions.
    pub selected_ion_list: Option<SelectedIonList>,
    /// The activation.
    pub activation: Option<Activation>,
}

/// The content of a [`Precursor`] as mathematical values.
#[verifier::ext_equal]
pub struct PrecursorModel {
    pub spectrum_ref: Option<Seq<char>>,
    pub isolation_window: Option<IsolationWindowModel>,
    pub selected_ion_list: Option<SelectedIonListModel>,
    pub activation: Option<ActivationModel>,
}

impl DeepView for Precursor {
    type V = PrecursorModel;

    open spec fn deep_view(&self) -> PrecursorModel {
        PrecursorModel {
            spectrum_ref: self.spectrum_ref.deep_view(),
            isolation_window: self.isolation_window.deep_view(),
            selected_ion_list: self.selected_ion_list.deep_view(),
            activation: self.activation.deep_view(),
        }
    }
}

impl PrecursorModel {
    /// The content with nothing filled in.
    pub open spec fn empty() -> PrecursorModel {
        PrecursorModel {
            spectrum_ref: None,
            isolation_window: None,
            selected_ion_list: None,
            activation: None,
        }
    }
}

impl Precursor {
    /// Makes a value with nothing filled in.
    pub fn empty() -> (r: Precursor)
        ensures
            r.deep_view() == PrecursorModel::empty(),
    {
        let r = Precursor {
            spectrum_ref: None,
            isolation_window: None,
            selected_ion_list: None,
            activation: None,
        };
        assert(r.deep_view() =~~= PrecursorModel::empty());
        r
    }
}

/// The precursors of a spectrum.
#[derive(Debug, Clone, PartialEq, Eq)]
pub struct PrecursorList {
    /// The declared number of precursors.
    pub count: Option<usize>,
    /// The precursors.
    pub precursors: Vec<Precursor>,
}

/// The content of a [`PrecursorList`] as mathematical values.
#[verifier::ext_equal]
pub struct PrecursorListModel {
    pub count: Option<usize>,
    pub precursors: Seq<PrecursorModel>,
}

impl DeepView for PrecursorList {
    type V = PrecursorListModel;

    open spec fn deep_view(&self) -> PrecursorListModel {
        PrecursorListModel {
            count: self.count.deep_view(),
            precursors: self.precursors.deep_view(),
        }
    }
}

impl PrecursorListModel {
    /// The content with nothing filled in.
    pub open spec fn empty() -> PrecursorListModel {
        PrecursorListModel {
            count: None,
            precursors: Seq::empty(),
        }
    }
}

impl PrecursorList {
    /// Makes a value with nothing filled in.
    pub fn empty() -> (r: PrecursorList)
        ensures
            r.deep_view() == PrecursorListModel::empty(),
    {
        let r = PrecursorList {
            count: None,
            precursors: Vec::new(),
        };
        assert(r.deep_view() =~~= PrecursorListModel::empty());
        r
    }
}

/// A product of a spectrum.
#[derive(Debug, Clone, PartialEq, Eq)]
pub struct Product {
    /// The isolation window.
    pub isolation_window: Option<IsolationWindow>,
}

/// The content of a [`Product`] as mathematical values.
#[verifier::ext_equal]
pub struct ProductModel {
    pub isolation_window: Option<IsolationWindowModel>,
}

impl DeepView for Product {
    type V = ProductModel;

    open spec fn deep_view(&self) -> ProductModel {
        ProductModel {
            isolation_window: self.isolation_window.deep_view(),
        }
    }
}

impl ProductModel {
    /// The content with nothing filled in.
    pub open spec fn empty() -> ProductModel {
        ProductModel {
            isolation_window: None,
        }
    }
}

impl Product {
    /// Makes a value with nothing filled in.
    pub fn empty() -> (r: Product)
        ensures
            r.deep_view() == ProductModel::empty(),
    {
        let r = Product {
            isolation_window: None,
        };
        assert(r.deep_view() =~~= ProductModel::empty());
        r
    }
}

/// The products of a spectrum.
#[derive(Debug, Clone, PartialEq, Eq)]
pub struct ProductList {
    /// The declared number of products.
    pub count: Option<usize>,
    /// The products.
    pub products: Vec<Product>,
}

/// The content of a [`ProductList`] as mathematical values.
#[verifier::ext_equal]
pub struct ProductListModel {
    pub count: Option<usize>,
    pub products: Seq<ProductModel>,
}

impl DeepView for ProductList {
    type V = ProductListModel;

    open spec fn deep_view(&self) -> ProductListModel {
        ProductListModel {
            count: self.count.deep_view(),
            products: self.products.deep_view(),
        }
    }
}

impl ProductListModel {
    /// The content with nothing filled in.
    pub open spec fn empty() -> ProductListModel {
        ProductListModel {
            count: None,
            products: Seq::empty(),
        }
    }
}

impl ProductList {
    /// Makes a value with nothing filled in.
    pub fn empty() -> (r: ProductList)
        ensures
            r.deep_view() == ProductListModel::empty(),
    {
        let r = ProductList {
            count: None,
            products: Vec::new(),
        };
        assert(r.deep_view() =~~= ProductListModel::empty());
        r
    }
}

/// One scan that contributed to a spectrum.
#[derive(Debug, Clone, PartialEq, Eq)]
pub struct Scan {
    /// The controlled-vocabulary terms of the element.
    pub cv_params: Vec<CvParam>,
    /// The free-form entries of the element.
    pub user_params: Vec<UserParam>,
}

/// The content of a [`Scan`] as mathematical values.
#[verifier::ext_equal]
pub struct ScanModel {
    pub cv_params: Seq<CvParamModel>,
    pub user_params: Seq<UserParamModel>,
}

impl DeepView for Scan {
    type V = ScanModel;

    open spec fn deep_view(&self) -> ScanModel {
        ScanModel {
            cv_params: self.cv_params.deep_view(),
            user_params: self.user_params.deep_view(),
        }
    }
}

impl ScanModel {
    /// The content with nothing filled in.
    pub open spec fn empty() -> ScanModel {
        ScanModel {
            cv_params: Seq::empty(),
            user_params: Seq::empty(),
        }
    }
}

impl Scan {
    /// Makes a value with nothing filled in.
    pub fn empty() -> (r: Scan)
        ensures
            r.deep_view() == ScanModel::empty(),
    {
        let r = Scan {
            cv_params: Vec::new(),
            user_params: Vec::new(),
        };
        assert(r.deep_view() =~~= ScanModel::empty());
        r
    }
}

/// The scans that contributed to a spectrum.
#[derive(Debug, Clone, PartialEq, Eq)]
pub struct ScanList {
    /// The declared number of scans.
    pub count: Option<usize>,
    /// The controlled-vocabulary terms of the element.
    pub cv_params: Vec<CvParam>,
    /// The free-form entries of the element.
    pub user_params: Vec<UserParam>,
    /// The scans.
    pub scans: Vec<Scan>,
}

/// The content of a [`ScanList`] as mathematical values.
#[verifier::ext_equal]
pub struct ScanListModel {
    pub count: Option<usize>,
    pub cv_params: Seq<CvParamModel>,
    pub user_params: Seq<UserParamModel>,
    pub scans: Seq<ScanModel>,
}

impl DeepView for ScanList {
    type V = ScanListModel;

    open spec fn deep_view(&self) -> ScanListModel {
        ScanListModel {
            count: self.count.deep_view(),
            cv_params: self.cv_params.deep_view(),
            user_params: self.user_params.deep_view(),
            scans: self.scans.deep_view(),
        }
    }
}

impl ScanListModel {
    /// The content with nothing filled in.
    pub open spec fn empty() -> ScanListModel {
        ScanListModel {
            count: None,
            cv_params: Seq::empty(),
            user_params: Seq::empty(),
            scans: Seq::empty(),
        }
    }
}

impl ScanList {
    /// Makes a value with nothing filled in.
    pub fn empty() -> (r: ScanList)
        ensures
            r.deep_view() == ScanListModel::empty(),
    {
        let r = ScanList {
            count: None,
            cv_params: Vec::new(),
            user_params: Vec::new(),
            scans: Vec::new(),
        };
        assert(r.deep_view() =~~= ScanListModel::empty());
        r
    }
}

/// The description block that older documents nest inside a spectrum.
#[derive(Debug, Clone, PartialEq, Eq)]
pub struct SpectrumDescription {
    /// The controlled-vocabulary terms of the element.
    pub cv_params: Vec<CvParam>,
    /// The free-form entries of the element.
    pub user_params: Vec<UserParam>,
    /// The scan list.
    pub scan_list: Option<ScanList>,
    /// The precursor list.
    pub precursor_list: Option<PrecursorList>,
}

/// The content of a [`SpectrumDescription`] as mathematical values.
#[verifier::ext_equal]
pub struct SpectrumDescriptionModel {
    pub cv_params: Seq<CvParamModel>,
    pub user_params: Seq<UserParamModel>,
    pub scan_list: Option<ScanListModel>,
    pub precursor_list: Option<PrecursorListModel>,
}

impl DeepView for SpectrumDescription {
    type V = SpectrumDescriptionModel;

    open spec fn deep_view(&self) -> SpectrumDescriptionModel {
        SpectrumDescriptionModel {
            cv_params: self.cv_params.deep_view(),
            user_params: self.user_params.deep_view(),
            scan_list: self.scan_list.deep_view(),
            precursor_list: self.precursor_list.deep_view(),
        }
    }
}

impl SpectrumDescriptionModel {
    /// The content with nothing filled in.
    pub open spec fn empty() -> SpectrumDescriptionModel {
        SpectrumDescriptionModel {
            cv_params: Seq::empty(),
            user_params: Seq::empty(),
            scan_list: None,
            precursor_list: None,
        }
    }
}

impl SpectrumDescription {
    /// Makes a value with nothing filled in.
    pub fn empty() -> (r: SpectrumDescription)
        ensures
            r.deep_view() == SpectrumDescriptionModel::empty(),
    {
        let r = SpectrumDescription {
            cv_params: Vec::new(),
            user_params: Vec::new(),
            scan_list: None,
            precursor_list: None,
        };
        assert(r.deep_view() =~~= SpectrumDescriptionModel::empty());
        r
    }
}

/// One mass spectrum.
#[derive(Debug, Clone, PartialEq, Eq)]
pub struct Spectrum {
    /// The id of the spectrum.
    pub id: String,
    /// The position of the spectrum in its list.
    pub index: Option<u32>,
    /// The scan number.
    pub scan_number: Option<u32>,
    /// The common length of the arrays.
    pub default_array_length: Option<usize>,
    /// The native identifier.
    pub native_id: Option<String>,
    /// The id of the data processing applied.
    pub data_processing_ref: Option<String>,
    /// The id of the source file.
    pub source_file_ref: Option<String>,
    /// The spot identifier.
    pub spot_id: Option<String>,
    /// The MS level.
    pub ms_level: Option<u32>,
    /// The shared parameter groups referred to.
    pub referenceable_param_group_refs: Vec<ReferenceableParamGroupRef>,
    /// The controlled-vocabulary terms of the element.
    pub cv_params: Vec<CvParam>,
    /// The free-form entries of the element.
    pub user_params: Vec<UserParam>,
    /// The nested description block, if any.
    pub spectrum_description: Option<SpectrumDescription>,
    /// The scan list.
    pub scan_list: Option<ScanList>,
    /// The precursor list.
    pub precursor_list: Option<PrecursorList>,
    /// The product list.
    pub product_list: Option<ProductList>,
    /// The numeric arrays.
    pub binary_data_array_list: Option<BinaryDataArrayList>,
}

/// The content of a [`Spectrum`] as mathematical values.
#[verifier::ext_equal]
pub struct SpectrumModel {
    pub id: Seq<char>,
    pub index: Option<u32>,
    pub scan_number: Option<u32>,
    pub default_array_length: Option<usize>,
    pub native_id: Option<Seq<char>>,
    pub data_processing_ref: Option<Seq<char>>,
    pub source_file_ref: Option<Seq<char>>,
    pub spot_id: Option<Seq<char>>,
    pub ms_level: Option<u32>,
    pub referenceable_param_group_refs: Seq<ReferenceableParamGroupRefModel>,
    pub cv_params: Seq<CvParamModel>,
    pub user_params: Seq<UserParamModel>,
    pub spectrum_description: Option<SpectrumDescriptionModel>,
    pub scan_list: Option<ScanListModel>,
    pub precursor_list: Option<PrecursorListModel>,
    pub product_list: Option<ProductListModel>,
    pub binary_data_array_list: Option<BinaryDataArrayListModel>,
}

impl DeepView for Spectrum {
    type V = SpectrumModel;

    open spec fn deep_view(&self) -> SpectrumModel {
        SpectrumModel {
            id: self.id.deep_view(),
            index: self.index.deep_view(),
            scan_number: self.scan_number.deep_view(),
            default_array_length: self.default_array_length.deep_view(),
            native_id: self.native_id.deep_view(),
            data_processing_ref: self.data_processing_ref.deep_view(),
            source_file_ref: self.source_file_ref.deep_view(),
            spot_id: self.spot_id.deep_view(),
            ms_level: self.ms_level.deep_view(),
            referenceable_param_group_refs: self.referenceable_param_group_refs.deep_view(),
            cv_params: self.cv_params.deep_view(),
            user_params: self.user_params.deep_view(),
            spectrum_description: self.spectrum_description.deep_view(),
            scan_list: self.scan_list.deep_view(),
            precursor_list: self.precursor_list.deep_view(),
            product_list: self.product_list.deep_view(),
            binary_data_array_list: self.binary_data_array_list.deep_view(),
        }
    }
}

impl SpectrumModel {
    /// The content with nothing filled in.
    pub open spec fn empty() -> SpectrumModel {
        SpectrumModel {
            id: Seq::empty(),
            index: None,
            scan_number: None,
            default_array_length: None,
            native_id: None,
            data_processing_ref: None,
            source_file_ref: None,
            spot_id: None,
            ms_level: None,
            referenceable_param_group_refs: Seq::empty(),
            cv_params: Seq::empty(),
            user_params: Seq::empty(),
            spectrum_description: None,
            scan_list: None,
            precursor_list: None,
            product_list: None,
            binary_data_array_list: None,
        }
    }
}

impl Spectrum {
    /// Makes a value with nothing filled in.
    pub fn empty() -> (r: Spectrum)
        ensures
            r.deep_view() == SpectrumModel::empty(),
    {
        let r = Spectrum {
            id: String::new(),
            index: None,
            scan_number: None,
            default_array_length: None,
            native_id: None,
            data_processing_ref: None,
            source_file_ref: None,
            spot_id: None,
            ms_level: None,
            referenceable_param_group_refs: Vec::new(),
            cv_params: Vec::new(),
            user_params: Vec::new(),
            spectrum_description: None,
            scan_list: None,
            precursor_list: None,
            product_list: None,
            binary_data_array_list: None,
        };
        assert(r.deep_view() =~~= SpectrumModel::empty());
        r
    }
}

/// The spectra of a run.
#[derive(Debug, Clone, PartialEq, Eq)]
pub struct SpectrumList {
    /// The declared number of spectra.
    pub count: Option<usize>,
    /// The data processing applied unless a spectrum says otherwise.
    pub default_data_processing_ref: Option<String>,
    /// The spectra.
    pub spectra: Vec<Spectrum>,
}

/// The content of a [`SpectrumList`] as mathematical values.
#[verifier::ext_equal]
pub struct SpectrumListModel {
    pub count: Option<usize>,
    pub default_data_processing_ref: Option<Seq<char>>,
    pub spectra: Seq<SpectrumModel>,
}

impl DeepView for SpectrumList {
    type V = SpectrumListModel;

    open spec fn deep_view(&self) -> SpectrumListModel {
        SpectrumListModel {
            count: self.count.deep_view(),
            default_data_processing_ref: self.default_data_processing_ref.deep_view(),
            spectra: self.spectra.deep_view(),
        }
    }
}

impl SpectrumListModel {
    /// The content with nothing filled in.
    pub open spec fn empty() -> SpectrumListModel {
        SpectrumListModel {
            count: None,
            default_data_processing_ref: None,
            spectra: Seq::empty(),
        }
    }
}

impl SpectrumList {
    /// Makes a value with nothing filled in.
    pub fn empty() -> (r: SpectrumList)
        ensures
            r.deep_view() == SpectrumListModel::empty(),
    {
        let r = SpectrumList {
            count: None,
            default_data_processing_ref: None,
            spectra: Vec::new(),
        };
        assert(r.deep_view() =~~= SpectrumListModel::empty());
        r
    }
}

/// One chromatogram.
#[derive(Debug, Clone, PartialEq, Eq)]
pub struct Chromatogram {
    /// The id of the chromatogram.
    pub id: String,
    /// The native identifier.
    pub native_id: Option<String>,
    /// The position of the chromatogram in its list.
    pub index: Option<u32>,
    /// The common length of the arrays.
    pub default_array_length: Option<usize>,
    /// The id of the data processing applied.
    pub data_processing_ref: Option<String>,
    /// The shared parameter groups referred to.
    pub referenceable_param_group_refs: Vec<ReferenceableParamGroupRef>,
    /// The controlled-vocabulary terms of the element.
    pub cv_params: Vec<CvParam>,
    /// The free-form entries of the element.
    pub user_params: Vec<UserParam>,
    /// The precursor.
    pub precursor: Option<Precursor>,
    /// The product.
    pub product: Option<Product>,
    /// The numeric arrays.
    pub binary_data_array_list: Option<BinaryDataArrayList>,
}

/// The content of a [`Chromatogram`] as mathematical values.
#[verifier::ext_equal]
pub struct ChromatogramModel {
    pub id: Seq<char>,
    pub native_id: Option<Seq<char>>,
    pub index: Option<u32>,
    pub default_array_length: Option<usize>,
    pub data_processing_ref: Option<Seq<char>>,
    pub referenceable_param_group_refs: Seq<ReferenceableParamGroupRefModel>,
    pub cv_params: Seq<CvParamModel>,
    pub user_params: Seq<UserParamModel>,
    pub precursor: Option<PrecursorModel>,
    pub product: Option<ProductModel>,
    pub binary_data_array_list: Option<BinaryDataArrayListModel>,
}

impl DeepView for Chromatogram {
    type V = ChromatogramModel;

    open spec fn deep_view(&self) -> ChromatogramModel {
        ChromatogramModel {
            id: self.id.deep_view(),
            native_id: self.native_id.deep_view(),
            index: self.index.deep_view(),
            default_array_length: self.default_array_length.deep_view(),
            data_processing_ref: self.data_processing_ref.deep_view(),
            referenceable_param_group_refs: self.referenceable_param_group_refs.deep_view(),
            cv_params: self.cv_params.deep_view(),
            user_params: self.user_params.deep_view(),
            precursor: self.precursor.deep_view(),
            product: self.product.deep_view(),
            binary_data_array_list: self.binary_data_array_list.deep_view(),
        }
    }
}

impl ChromatogramModel {
    /// The content with nothing filled in.
    pub open spec fn empty() -> ChromatogramModel {
        ChromatogramModel {
            id: Seq::empty(),
            native_id: None,
            index: None,
            default_array_length: None,
            data_processing_ref: None,
            referenceable_param_group_refs: Seq::empty(),
            cv_params: Seq::empty(),
            user_params: Seq::empty(),
            precursor: None,
            product: None,
            binary_data_array_list: None,
        }
    }
}

impl Chromatogram {
    /// Makes a value with nothing filled in.
    pub fn empty() -> (r: Chromatogram)
        ensures
            r.deep_view() == ChromatogramModel::empty(),
    {
        let r = Chromatogram {
            id: String::new(),
            native_id: None,
            index: None,
            default_array_length: None,
            data_processing_ref: None,
            referenceable_param_group_refs: Vec::new(),
            cv_params: Vec::new(),
            user_params: Vec::new(),
            precursor: None,
            product: None,
            binary_data_array_list: None,
        };
        assert(r.deep_view() =~~= ChromatogramModel::empty());
        r
    }
}

/// The chromatograms of a run.
#[derive(Debug, Clone, PartialEq, Eq)]
pub struct ChromatogramList {
    /// The declared number of chromatograms.
    pub count: Option<usize>,
    /// The data processing applied unless a chromatogram says otherwise.
    pub default_data_processing_ref: Option<String>,
    /// The chromatograms.
    pub chromatograms: Vec<Chromatogram>,
}

/// The content of a [`ChromatogramList`] as mathematical values.
#[verifier::ext_equal]
pub struct ChromatogramListModel {
    pub count: Option<usize>,
    pub default_data_processing_ref: Option<Seq<char>>,
    pub chromatograms: Seq<ChromatogramModel>,
}

impl DeepView for ChromatogramList {
    type V = ChromatogramListModel;

    open spec fn deep_view(&self) -> ChromatogramListModel {
        ChromatogramListModel {
            count: self.count.deep_view(),
            default_data_processing_ref: self.default_data_processing_ref.deep_view(),
            chromatograms: self.chromatograms.deep_view(),
        }
    }
}

impl ChromatogramListModel {
    /// The content with nothing filled in.
    pub open spec fn empty() -> ChromatogramListModel {
        ChromatogramListModel {
            count: None,
            default_data_processing_ref: None,
            chromatograms: Seq::empty(),
        }
    }
}

impl ChromatogramList {
    /// Makes a value with nothing filled in.
    pub fn empty() -> (r: ChromatogramList)
        ensures
            r.deep_view() == ChromatogramListModel::empty(),
    {
        let r = ChromatogramList {
            count: None,
            default_data_processing_ref: None,
            chromatograms: Vec::new(),
        };
        assert(r.deep_view() =~~= ChromatogramListModel::empty());
        r
    }
}

/// One run of an instrument.
#[derive(Debug, Clone, PartialEq, Eq)]
pub struct Run {
    /// The id of the run.
    pub id: String,
    /// When the run started.
    pub start_time_stamp: Option<String>,
    /// The id of the instrument configuration used.
    pub default_instrument_configuration_ref: Option<String>,
    /// The id of the source file.
    pub default_source_file_ref: Option<String>,
    /// The id of the sample.
    pub sample_ref: Option<String>,
    /// The shared parameter groups referred to.
    pub referenceable_param_group_refs: Vec<ReferenceableParamGroupRef>,
    /// The controlled-vocabulary terms of the element.
    pub cv_params: Vec<CvParam>,
    /// The free-form entries of the element.
    pub user_params: Vec<UserParam>,
    /// The spectra.
    pub spectrum_list: Option<SpectrumList>,
    /// The chromatograms.
    pub chromatogram_list: Option<ChromatogramList>,
}

/// The content of a [`Run`] as mathematical values.
#[verifier::ext_equal]
pub struct RunModel {
    pub id: Seq<char>,
    pub start_time_stamp: Option<Seq<char>>,
    pub default_instrument_configuration_ref: Option<Seq<char>>,
    pub default_source_file_ref: Option<Seq<char>>,
    pub sample_ref: Option<Seq<char>>,
    pub referenceable_param_group_refs: Seq<ReferenceableParamGroupRefModel>,
    pub cv_params: Seq<CvParamModel>,
    pub user_params: Seq<UserParamModel>,
    pub spectrum_list: Option<SpectrumListModel>,
    pub chromatogram_list: Option<ChromatogramListModel>,
}

impl DeepView for Run {
    type V = RunModel;

    open spec fn deep_view(&self) -> RunModel {
        RunModel {
            id: self.id.deep_view(),
            start_time_stamp: self.start_time_stamp.deep_view(),
            default_instrument_configuration_ref: self.default_instrument_configuration_ref.deep_view(),
            default_source_file_ref: self.default_source_file_ref.deep_view(),
            sample_ref: self.sample_ref.deep_view(),
            referenceable_param_group_refs: self.referenceable_param_group_refs.deep_view(),
            cv_params: self.cv_params.deep_view(),
            user_params: self.user_params.deep_view(),
            spectrum_list: self.spectrum_list.deep_view(),
            chromatogram_list: self.chromatogram_list.deep_view(),
        }
    }
}

impl RunModel {
    /// The content with nothing filled in.
    pub open spec fn empty() -> RunModel {
        RunModel {
            id: Seq::empty(),
            start_time_stamp: None,
            default_instrument_configuration_ref: None,
            default_source_file_ref: None,
            sample_ref: None,
            referenceable_param_group_refs: Seq::empty(),
            cv_params: Seq::empty(),
            user_params: Seq::empty(),
            spectrum_list: None,
            chromatogram_list: None,
        }
    }
}

impl Run {
    /// Makes a value with nothing filled in.
    pub fn empty() -> (r: Run)
        ensures
            r.deep_view() == RunModel::empty(),
    {
        let r = Run {
            id: String::new(),
            start_time_stamp: None,
            default_instrument_configuration_ref: None,
            default_source_file_ref: None,
            sample_ref: None,
            referenceable_param_group_refs: Vec::new(),
            cv_params: Vec::new(),
            user_params: Vec::new(),
            spectrum_list: None,
            chromatogram_list: None,
        };
        assert(r.deep_view() =~~= RunModel::empty());
        r
    }
}

} // verus!
