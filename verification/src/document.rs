//! The document tree and the sections that describe a whole file.

use vstd::prelude::*;
use crate::params::{CvParam, CvParamModel, ParamValue, ParamValueModel, UserParam, UserParamModel};
use crate::run::{Run, RunModel};

verus! {

/// One controlled vocabulary that the document draws on.
#[derive(Debug, Clone, PartialEq, Eq)]
pub struct Cv {
    /// The short id of the vocabulary.
    pub id: ParamValue,
    /// The full name of the vocabulary.
    pub full_name: ParamValue,
    /// The version of the vocabulary.
    pub version: ParamValue,
    /// Where the vocabulary is published.
    pub uri: ParamValue,
}

/// The content of a [`Cv`] as mathematical values.
#[verifier::ext_equal]
pub struct CvModel {
    pub id: ParamValueModel,
    pub full_name: ParamValueModel,
    pub version: ParamValueModel,
    pub uri: ParamValueModel,
}

impl DeepView for Cv {
    type V = CvModel;

    open spec fn deep_view(&self) -> CvModel {
        CvModel {
            id: self.id.deep_view(),
            full_name: self.full_name.deep_view(),
            version: self.version.deep_view(),
            uri: self.uri.deep_view(),
        }
    }
}

impl CvModel {
    /// The content with nothing filled in.
    pub open spec fn empty() -> CvModel {
        CvModel {
            id: ParamValueModel::Empty,
            full_name: ParamValueModel::Empty,
            version: ParamValueModel::Empty,
            uri: ParamValueModel::Empty,
        }
    }
}

impl Cv {
    /// Makes a value with nothing filled in.
    pub fn empty() -> (r: Cv)
        ensures
            r.deep_view() == CvModel::empty(),
    {
        let r = Cv {
            id: ParamValue::Empty,
            full_name: ParamValue::Empty,
            version: ParamValue::Empty,
            uri: ParamValue::Empty,
        };
        assert(r.deep_view() =~~= CvModel::empty());
        r
    }
}

/// The controlled vocabularies of a document.
#[derive(Debug, Clone, PartialEq, Eq)]
pub struct CvList {
    /// The declared number of vocabularies.
    pub count: Option<usize>,
    /// The vocabularies.
    pub cv: Vec<Cv>,
}

/// The content of a [`CvList`] as mathematical values.
#[verifier::ext_equal]
pub struct CvListModel {
    pub count: Option<usize>,
    pub cv: Seq<CvModel>,
}

impl DeepView for CvList {
    type V = CvListModel;

    open spec fn deep_view(&self) -> CvListModel {
        CvListModel {
            count: self.count.deep_view(),
            cv: self.cv.deep_view(),
        }
    }
}

impl CvListModel {
    /// The content with nothing filled in.
    pub open spec fn empty() -> CvListModel {
        CvListModel {
            count: None,
            cv: Seq::empty(),
        }
    }
}

impl CvList {
    /// Makes a value with nothing filled in.
    pub fn empty() -> (r: CvList)
        ensures
            r.deep_view() == CvListModel::empty(),
    {
        let r = CvList {
            count: None,
            cv: Vec::new(),
        };
        assert(r.deep_view() =~~= CvListModel::empty());
        r
    }
}

/// What kinds of data the file holds.
#[derive(Debug, Clone, PartialEq, Eq)]
pub struct FileContent {
    /// The controlled-vocabulary terms of the element.
    pub cv_params: Vec<CvParam>,
    /// The free-form entries of the element.
    pub user_params: Vec<UserParam>,
}

/// The content of a [`FileContent`] as mathematical values.
#[verifier::ext_equal]
pub struct FileContentModel {
    pub cv_params: Seq<CvParamModel>,
    pub user_params: Seq<UserParamModel>,
}

impl DeepView for FileContent {
    type V = FileContentModel;

    open spec fn deep_view(&self) -> FileContentModel {
        FileContentModel {
            cv_params: self.cv_params.deep_view(),
            user_params: self.user_params.deep_view(),
        }
    }
}

impl FileContentModel {
    /// The content with nothing filled in.
    pub open spec fn empty() -> FileContentModel {
        FileContentModel {
            cv_params: Seq::empty(),
            user_params: Seq::empty(),
        }
    }
}

impl FileContent {
    /// Makes a value with nothing filled in.
    pub fn empty() -> (r: FileContent)
        ensures
            r.deep_view() == FileContentModel::empty(),
    {
        let r = FileContent {
            cv_params: Vec::new(),
            user_params: Vec::new(),
        };
        assert(r.deep_view() =~~= FileContentModel::empty());
        r
    }
}

/// A file the document was made from.
#[derive(Debug, Clone, PartialEq, Eq)]
pub struct SourceFile {
    /// The id of the file.
    pub id: String,
    /// The name of the file.
    pub name: String,
    /// Where the file was.
    pub location: String,
    /// The controlled-vocabulary terms of the file.
    pub cv_param: Vec<CvParam>,
}

/// The content of a [`SourceFile`] as mathematical values.
#[verifier::ext_equal]
pub struct SourceFileModel {
    pub id: Seq<char>,
    pub name: Seq<char>,
    pub location: Seq<char>,
    pub cv_param: Seq<CvParamModel>,
}

impl DeepView for SourceFile {
    type V = SourceFileModel;

    open spec fn deep_view(&self) -> SourceFileModel {
        SourceFileModel {
            id: self.id.deep_view(),
            name: self.name.deep_view(),
            location: self.location.deep_view(),
            cv_param: self.cv_param.deep_view(),
        }
    }
}

impl SourceFileModel {
    /// The content with nothing filled in.
    pub open spec fn empty() -> SourceFileModel {
        SourceFileModel {
            id: Seq::empty(),
            name: Seq::empty(),
            location: Seq::empty(),
            cv_param: Seq::empty(),
        }
    }
}

impl SourceFile {
    /// Makes a value with nothing filled in.
    pub fn empty() -> (r: SourceFile)
        ensures
            r.deep_view() == SourceFileModel::empty(),
    {
        let r = SourceFile {
            id: String::new(),
            name: String::new(),
            location: String::new(),
            cv_param: Vec::new(),
        };
        assert(r.deep_view() =~~= SourceFileModel::empty());
        r
    }
}

/// The files the document was made from.
#[derive(Debug, Clone, PartialEq, Eq)]
pub struct SourceFileList {
    /// The declared number of files.
    pub count: Option<usize>,
    /// The files.
    pub source_file: Vec<SourceFile>,
}

/// The content of a [`SourceFileList`] as mathematical values.
#[verifier::ext_equal]
pub struct SourceFileListModel {
    pub count: Option<usize>,
    pub source_file: Seq<SourceFileModel>,
}

impl DeepView for SourceFileList {
    type V = SourceFileListModel;

    open spec fn deep_view(&self) -> SourceFileListModel {
        SourceFileListModel {
            count: self.count.deep_view(),
            source_file: self.source_file.deep_view(),
        }
    }
}

impl SourceFileListModel {
    /// The content with nothing filled in.
    pub open spec fn empty() -> SourceFileListModel {
        SourceFileListModel {
            count: None,
            source_file: Seq::empty(),
        }
    }
}

impl SourceFileList {
    /// Makes a value with nothing filled in.
    pub fn empty() -> (r: SourceFileList)
        ensures
            r.deep_view() == SourceFileListModel::empty(),
    {
        let r = SourceFileList {
            count: None,
            source_file: Vec::new(),
        };
        assert(r.deep_view() =~~= SourceFileListModel::empty());
        r
    }
}

/// The description of the file as a whole.
#[derive(Debug, Clone, PartialEq, Eq)]
pub struct FileDescription {
    /// What kinds of data the file holds.
    pub file_content: FileContent,
    /// The files the document was made from.
    pub source_file_list: SourceFileList,
}

/// The content of a [`FileDescription`] as mathematical values.
#[verifier::ext_equal]
pub struct FileDescriptionModel {
    pub file_content: FileContentModel,
    pub source_file_list: SourceFileListModel,
}

impl DeepView for FileDescription {
    type V = FileDescriptionModel;

    open spec fn deep_view(&self) -> FileDescriptionModel {
        FileDescriptionModel {
            file_content: self.file_content.deep_view(),
            source_file_list: self.source_file_list.deep_view(),
        }
    }
}

impl FileDescriptionModel {
    /// The content with nothing filled in.
    pub open spec fn empty() -> FileDescriptionModel {
        FileDescriptionModel {
            file_content: FileContentModel::empty(),
            source_file_list: SourceFileListModel::empty(),
        }
    }
}

impl FileDescription {
    /// Makes a value with nothing filled in.
    pub fn empty() -> (r: FileDescription)
        ensures
            r.deep_view() == FileDescriptionModel::empty(),
    {
        let r = FileDescription {
            file_content: FileContent::empty(),
            source_file_list: SourceFileList::empty(),
        };
        assert(r.deep_view() =~~= FileDescriptionModel::empty());
        r
    }
}

/// A group of parameters that elements refer to by id.
#[derive(Debug, Clone, PartialEq, Eq)]
pub struct ReferenceableParamGroup {
    /// The id of the group.
    pub id: String,
    /// The controlled-vocabulary terms of the element.
    pub cv_params: Vec<CvParam>,
    /// The free-form entries of the element.
    pub user_params: Vec<UserParam>,
}

/// The content of a [`ReferenceableParamGroup`] as mathematical values.
#[verifier::ext_equal]
pub struct ReferenceableParamGroupModel {
    pub id: Seq<char>,
    pub cv_params: Seq<CvParamModel>,
    pub user_params: Seq<UserParamModel>,
}

impl DeepView for ReferenceableParamGroup {
    type V = ReferenceableParamGroupModel;

    open spec fn deep_view(&self) -> ReferenceableParamGroupModel {
        ReferenceableParamGroupModel {
            id: self.id.deep_view(),
            cv_params: self.cv_params.deep_view(),
            user_params: self.user_params.deep_view(),
        }
    }
}

impl ReferenceableParamGroupModel {
    /// The content with nothing filled in.
    pub open spec fn empty() -> ReferenceableParamGroupModel {
        ReferenceableParamGroupModel {
            id: Seq::empty(),
            cv_params: Seq::empty(),
            user_params: Seq::empty(),
        }
    }
}

impl ReferenceableParamGroup {
    /// Makes a value with nothing filled in.
    pub fn empty() -> (r: ReferenceableParamGroup)
        ensures
            r.deep_view() == ReferenceableParamGroupModel::empty(),
    {
        let r = ReferenceableParamGroup {
            id: String::new(),
            cv_params: Vec::new(),
            user_params: Vec::new(),
        };
        assert(r.deep_view() =~~= ReferenceableParamGroupModel::empty());
        r
    }
}

/// The shared groups of parameters.
#[derive(Debug, Clone, PartialEq, Eq)]
pub struct ReferenceableParamGroupList {
    /// The declared number of groups.
    pub count: Option<usize>,
    /// The groups.
    pub referenceable_param_groups: Vec<ReferenceableParamGroup>,
}

/// The content of a [`ReferenceableParamGroupList`] as mathematical values.
#[verifier::ext_equal]
pub struct ReferenceableParamGroupListModel {
    pub count: Option<usize>,
    pub referenceable_param_groups: Seq<ReferenceableParamGroupModel>,
}

impl DeepView for ReferenceableParamGroupList {
    type V = ReferenceableParamGroupListModel;

    open spec fn deep_view(&self) -> ReferenceableParamGroupListModel {
        ReferenceableParamGroupListModel {
            count: self.count.deep_view(),
            referenceable_param_groups: self.referenceable_param_groups.deep_view(),
        }
    }
}

impl ReferenceableParamGroupListModel {
    /// The content with nothing filled in.
    pub open spec fn empty() -> ReferenceableParamGroupListModel {
        ReferenceableParamGroupListModel {
            count: None,
            referenceable_param_groups: Seq::empty(),
        }
    }
}

impl ReferenceableParamGroupList {
    /// Makes a value with nothing filled in.
    pub fn empty() -> (r: ReferenceableParamGroupList)
        ensures
            r.deep_view() == ReferenceableParamGroupListModel::empty(),
    {
        let r = ReferenceableParamGroupList {
            count: None,
            referenceable_param_groups: Vec::new(),
        };
        assert(r.deep_view() =~~= ReferenceableParamGroupListModel::empty());
        r
    }
}

/// One sample.
#[derive(Debug, Clone, PartialEq, Eq)]
pub struct Sample {
    /// The id of the sample.
    pub id: String,
    /// The name of the sample.
    pub name: String,
    /// The controlled-vocabulary terms of the element.
    pub cv_params: Vec<CvParam>,
    /// The free-form entries of the element.
    pub user_params: Vec<UserParam>,
}

/// The content of a [`Sample`] as mathematical values.
#[verifier::ext_equal]
pub struct SampleModel {
    pub id: Seq<char>,
    pub name: Seq<char>,
    pub cv_params: Seq<CvParamModel>,
    pub user_params: Seq<UserParamModel>,
}

impl DeepView for Sample {
    type V = SampleModel;

    open spec fn deep_view(&self) -> SampleModel {
        SampleModel {
            id: self.id.deep_view(),
            name: self.name.deep_view(),
            cv_params: self.cv_params.deep_view(),
            user_params: self.user_params.deep_view(),
        }
    }
}

impl SampleModel {
    /// The content with nothing filled in.
    pub open spec fn empty() -> SampleModel {
        SampleModel {
            id: Seq::empty(),
            name: Seq::empty(),
            cv_params: Seq::empty(),
            user_params: Seq::empty(),
        }
    }
}

impl Sample {
    /// Makes a value with nothing filled in.
    pub fn empty() -> (r: Sample)
        ensures
            r.deep_view() == SampleModel::empty(),
    {
        let r = Sample {
            id: String::new(),
            name: String::new(),
            cv_params: Vec::new(),
            user_params: Vec::new(),
        };
        assert(r.deep_view() =~~= SampleModel::empty());
        r
    }
}

/// The samples of a document.
#[derive(Debug, Clone, PartialEq, Eq)]
pub struct SampleList {
    /// The declared number of samples.
    pub count: Option<u32>,
    /// The samples.
    pub samples: Vec<Sample>,
}

/// The content of a [`SampleList`] as mathematical values.
#[verifier::ext_equal]
pub struct SampleListModel {
    pub count: Option<u32>,
    pub samples: Seq<SampleModel>,
}

impl DeepView for SampleList {
    type V = SampleListModel;

    open spec fn deep_view(&self) -> SampleListModel {
        SampleListModel {
            count: self.count.deep_view(),
            samples: self.samples.deep_view(),
        }
    }
}

impl SampleListModel {
    /// The content with nothing filled in.
    pub open spec fn empty() -> SampleListModel {
        SampleListModel {
            count: None,
            samples: Seq::empty(),
        }
    }
}

impl SampleList {
    /// Makes a value with nothing filled in.
    pub fn empty() -> (r: SampleList)
        ensures
            r.deep_view() == SampleListModel::empty(),
    {
        let r = SampleList {
            count: None,
            samples: Vec::new(),
        };
        assert(r.deep_view() =~~= SampleListModel::empty());
        r
    }
}

/// One instrument configuration.
#[derive(Debug, Clone, PartialEq, Eq)]
pub struct Instrument {
    /// The id of the configuration.
    pub id: String,
    /// The controlled-vocabulary terms of the configuration.
    pub cv_param: Vec<CvParam>,
    /// The free-form entries of the configuration.
    pub user_param: Vec<UserParam>,
}

/// The content of a [`Instrument`] as mathematical values.
#[verifier::ext_equal]
pub struct InstrumentModel {
    pub id: Seq<char>,
    pub cv_param: Seq<CvParamModel>,
    pub user_param: Seq<UserParamModel>,
}

impl DeepView for Instrument {
    type V = InstrumentModel;

    open spec fn deep_view(&self) -> InstrumentModel {
        InstrumentModel {
            id: self.id.deep_view(),
            cv_param: self.cv_param.deep_view(),
            user_param: self.user_param.deep_view(),
        }
    }
}

impl InstrumentModel {
    /// The content with nothing filled in.
    pub open spec fn empty() -> InstrumentModel {
        InstrumentModel {
            id: Seq::empty(),
            cv_param: Seq::empty(),
            user_param: Seq::empty(),
        }
    }
}

impl Instrument {
    /// Makes a value with nothing filled in.
    pub fn empty() -> (r: Instrument)
        ensures
            r.deep_view() == InstrumentModel::empty(),
    {
        let r = Instrument {
            id: String::new(),
            cv_param: Vec::new(),
            user_param: Vec::new(),
        };
        assert(r.deep_view() =~~= InstrumentModel::empty());
        r
    }
}

/// The instrument configurations of a document.
#[derive(Debug, Clone, PartialEq, Eq)]
pub struct InstrumentList {
    /// The declared number of configurations.
    pub count: Option<usize>,
    /// The configurations.
    pub instrument: Vec<Instrument>,
}

/// The content of a [`InstrumentList`] as mathematical values.
#[verifier::ext_equal]
pub struct InstrumentListModel {
    pub count: Option<usize>,
    pub instrument: Seq<InstrumentModel>,
}

impl DeepView for InstrumentList {
    type V = InstrumentListModel;

    open spec fn deep_view(&self) -> InstrumentListModel {
        InstrumentListModel {
            count: self.count.deep_view(),
            instrument: self.instrument.deep_view(),
        }
    }
}

impl InstrumentListModel {
    /// The content with nothing filled in.
    pub open spec fn empty() -> InstrumentListModel {
        InstrumentListModel {
            count: None,
            instrument: Seq::empty(),
        }
    }
}

impl InstrumentList {
    /// Makes a value with nothing filled in.
    pub fn empty() -> (r: InstrumentList)
        ensures
            r.deep_view() == InstrumentListModel::empty(),
    {
        let r = InstrumentList {
            count: None,
            instrument: Vec::new(),
        };
        assert(r.deep_view() =~~= InstrumentListModel::empty());
        r
    }
}

/// The term that names a piece of software in older documents.
#[derive(Debug, Clone, PartialEq, Eq)]
pub struct SoftwareParam {
    /// The vocabulary the term is taken from.
    pub cv_ref: Option<String>,
    /// The accession of the term.
    pub accession: String,
    /// The display name of the term.
    pub name: String,
    /// The version of the software.
    pub version: Option<String>,
}

/// The content of a [`SoftwareParam`] as mathematical values.
#[verifier::ext_equal]
pub struct SoftwareParamModel {
    pub cv_ref: Option<Seq<char>>,
    pub accession: Seq<char>,
    pub name: Seq<char>,
    pub version: Option<Seq<char>>,
}

impl DeepView for SoftwareParam {
    type V = SoftwareParamModel;

    open spec fn deep_view(&self) -> SoftwareParamModel {
        SoftwareParamModel {
            cv_ref: self.cv_ref.deep_view(),
            accession: self.accession.deep_view(),
            name: self.name.deep_view(),
            version: self.version.deep_view(),
        }
    }
}

impl SoftwareParamModel {
    /// The content with nothing filled in.
    pub open spec fn empty() -> SoftwareParamModel {
        SoftwareParamModel {
            cv_ref: None,
            accession: Seq::empty(),
            name: Seq::empty(),
            version: None,
        }
    }
}

impl SoftwareParam {
    /// Makes a value with nothing filled in.
    pub fn empty() -> (r: SoftwareParam)
        ensures
            r.deep_view() == SoftwareParamModel::empty(),
    {
        let r = SoftwareParam {
            cv_ref: None,
            accession: String::new(),
            name: String::new(),
            version: None,
        };
        assert(r.deep_view() =~~= SoftwareParamModel::empty());
        r
    }
}

/// One piece of software.
#[derive(Debug, Clone, PartialEq, Eq)]
pub struct Software {
    /// The id of the software.
    pub id: String,
    /// The version of the software.
    pub version: Option<String>,
    /// The naming terms of older documents.
    pub software_param: Vec<SoftwareParam>,
    /// The controlled-vocabulary terms of the software.
    pub cv_param: Vec<CvParam>,
}

/// The content of a [`Software`] as mathematical values.
#[verifier::ext_equal]
pub struct SoftwareModel {
    pub id: Seq<char>,
    pub version: Option<Seq<char>>,
    pub software_param: Seq<SoftwareParamModel>,
    pub cv_param: Seq<CvParamModel>,
}

impl DeepView for Software {
    type V = SoftwareModel;

    open spec fn deep_view(&self) -> SoftwareModel {
        SoftwareModel {
            id: self.id.deep_view(),
            version: self.version.deep_view(),
            software_param: self.software_param.deep_view(),
            cv_param: self.cv_param.deep_view(),
        }
    }
}

impl SoftwareModel {
    /// The content with nothing filled in.
    pub open spec fn empty() -> SoftwareModel {
        SoftwareModel {
            id: Seq::empty(),
            version: None,
            software_param: Seq::empty(),
            cv_param: Seq::empty(),
        }
    }
}

impl Software {
    /// Makes a value with nothing filled in.
    pub fn empty() -> (r: Software)
        ensures
            r.deep_view() == SoftwareModel::empty(),
    {
        let r = Software {
            id: String::new(),
            version: None,
            software_param: Vec::new(),
            cv_param: Vec::new(),
        };
        assert(r.deep_view() =~~= SoftwareModel::empty());
        r
    }
}

/// The software of a document.
#[derive(Debug, Clone, PartialEq, Eq)]
pub struct SoftwareList {
    /// The declared number of entries.
    pub count: Option<usize>,
    /// The entries.
    pub software: Vec<Software>,
}

/// The content of a [`SoftwareList`] as mathematical values.
#[verifier::ext_equal]
pub struct SoftwareListModel {
    pub count: Option<usize>,
    pub software: Seq<SoftwareModel>,
}

impl DeepView for SoftwareList {
    type V = SoftwareListModel;

    open spec fn deep_view(&self) -> SoftwareListModel {
        SoftwareListModel {
            count: self.count.deep_view(),
            software: self.software.deep_view(),
        }
    }
}

impl SoftwareListModel {
    /// The content with nothing filled in.
    pub open spec fn empty() -> SoftwareListModel {
        SoftwareListModel {
            count: None,
            software: Seq::empty(),
        }
    }
}

impl SoftwareList {
    /// Makes a value with nothing filled in.
    pub fn empty() -> (r: SoftwareList)
        ensures
            r.deep_view() == SoftwareListModel::empty(),
    {
        let r = SoftwareList {
            count: None,
            software: Vec::new(),
        };
        assert(r.deep_view() =~~= SoftwareListModel::empty());
        r
    }
}

/// One step of data processing.
#[derive(Debug, Clone, PartialEq, Eq)]
pub struct ProcessingMethod {
    /// The id of the software that ran the step.
    pub software_ref: Option<String>,
    /// The controlled-vocabulary terms of the step.
    pub cv_param: Vec<CvParam>,
    /// The free-form entries of the step.
    pub user_param: Vec<UserParam>,
}

/// The content of a [`ProcessingMethod`] as mathematical values.
#[verifier::ext_equal]
pub struct ProcessingMethodModel {
    pub software_ref: Option<Seq<char>>,
    pub cv_param: Seq<CvParamModel>,
    pub user_param: Seq<UserParamModel>,
}

impl DeepView for ProcessingMethod {
    type V = ProcessingMethodModel;

    open spec fn deep_view(&self) -> ProcessingMethodModel {
        ProcessingMethodModel {
            software_ref: self.software_ref.deep_view(),
            cv_param: self.cv_param.deep_view(),
            user_param: self.user_param.deep_view(),
        }
    }
}

impl ProcessingMethodModel {
    /// The content with nothing filled in.
    pub open spec fn empty() -> ProcessingMethodModel {
        ProcessingMethodModel {
            software_ref: None,
            cv_param: Seq::empty(),
            user_param: Seq::empty(),
        }
    }
}

impl ProcessingMethod {
    /// Makes a value with nothing filled in.
    pub fn empty() -> (r: ProcessingMethod)
        ensures
            r.deep_view() == ProcessingMethodModel::empty(),
    {
        let r = ProcessingMethod {
            software_ref: None,
            cv_param: Vec::new(),
            user_param: Vec::new(),
        };
        assert(r.deep_view() =~~= ProcessingMethodModel::empty());
        r
    }
}

/// One chain of data processing.
#[derive(Debug, Clone, PartialEq, Eq)]
pub struct DataProcessing {
    /// The id of the chain.
    pub id: String,
    /// The steps.
    pub processing_method: Vec<ProcessingMethod>,
}

/// The content of a [`DataProcessing`] as mathematical values.
#[verifier::ext_equal]
pub struct DataProcessingModel {
    pub id: Seq<char>,
    pub processing_method: Seq<ProcessingMethodModel>,
}

impl DeepView for DataProcessing {
    type V = DataProcessingModel;

    open spec fn deep_view(&self) -> DataProcessingModel {
        DataProcessingModel {
            id: self.id.deep_view(),
            processing_method: self.processing_method.deep_view(),
        }
    }
}

impl DataProcessingModel {
    /// The content with nothing filled in.
    pub open spec fn empty() -> DataProcessingModel {
        DataProcessingModel {
            id: Seq::empty(),
            processing_method: Seq::empty(),
        }
    }
}

impl DataProcessing {
    /// Makes a value with nothing filled in.
    pub fn empty() -> (r: DataProcessing)
        ensures
            r.deep_view() == DataProcessingModel::empty(),
    {
        let r = DataProcessing {
            id: String::new(),
            processing_method: Vec::new(),
        };
        assert(r.deep_view() =~~= DataProcessingModel::empty());
        r
    }
}

/// The data processing chains of a document.
#[derive(Debug, Clone, PartialEq, Eq)]
pub struct DataProcessingList {
    /// The declared number of chains.
    pub count: Option<usize>,
    /// The chains.
    pub data_processing: Vec<DataProcessing>,
}

/// The content of a [`DataProcessingList`] as mathematical values.
#[verifier::ext_equal]
pub struct DataProcessingListModel {
    pub count: Option<usize>,
    pub data_processing: Seq<DataProcessingModel>,
}

impl DeepView for DataProcessingList {
    type V = DataProcessingListModel;

    open spec fn deep_view(&self) -> DataProcessingListModel {
        DataProcessingListModel {
            count: self.count.deep_view(),
            data_processing: self.data_processing.deep_view(),
        }
    }
}

impl DataProcessingListModel {
    /// The content with nothing filled in.
    pub open spec fn empty() -> DataProcessingListModel {
        DataProcessingListModel {
            count: None,
            data_processing: Seq::empty(),
        }
    }
}

impl DataProcessingList {
    /// Makes a value with nothing filled in.
    pub fn empty() -> (r: DataProcessingList)
        ensures
            r.deep_view() == DataProcessingListModel::empty(),
    {
        let r = DataProcessingList {
            count: None,
            data_processing: Vec::new(),
        };
        assert(r.deep_view() =~~= DataProcessingListModel::empty());
        r
    }
}

/// One set of scan settings.
#[derive(Debug, Clone, PartialEq, Eq)]
pub struct ScanSettings {
    /// The id of the settings.
    pub id: String,
    /// The controlled-vocabulary terms of the element.
    pub cv_params: Vec<CvParam>,
    /// The free-form entries of the element.
    pub user_params: Vec<UserParam>,
}

/// The content of a [`ScanSettings`] as mathematical values.
#[verifier::ext_equal]
pub struct ScanSettingsModel {
    pub id: Seq<char>,
    pub cv_params: Seq<CvParamModel>,
    pub user_params: Seq<UserParamModel>,
}

impl DeepView for ScanSettings {
    type V = ScanSettingsModel;

    open spec fn deep_view(&self) -> ScanSettingsModel {
        ScanSettingsModel {
            id: self.id.deep_view(),
            cv_params: self.cv_params.deep_view(),
            user_params: self.user_params.deep_view(),
        }
    }
}

impl ScanSettingsModel {
    /// The content with nothing filled in.
    pub open spec fn empty() -> ScanSettingsModel {
        ScanSettingsModel {
            id: Seq::empty(),
            cv_params: Seq::empty(),
            user_params: Seq::empty(),
        }
    }
}

impl ScanSettings {
    /// Makes a value with nothing filled in.
    pub fn empty() -> (r: ScanSettings)
        ensures
            r.deep_view() == ScanSettingsModel::empty(),
    {
        let r = ScanSettings {
            id: String::new(),
            cv_params: Vec::new(),
            user_params: Vec::new(),
        };
        assert(r.deep_view() =~~= ScanSettingsModel::empty());
        r
    }
}

/// The scan settings of a document.
#[derive(Debug, Clone, PartialEq, Eq)]
pub struct ScanSettingsList {
    /// The declared number of settings.
    pub count: Option<usize>,
    /// The settings.
    pub scan_settings: Vec<ScanSettings>,
}

/// The content of a [`ScanSettingsList`] as mathematical values.
#[verifier::ext_equal]
pub struct ScanSettingsListModel {
    pub count: Option<usize>,
    pub scan_settings: Seq<ScanSettingsModel>,
}

impl DeepView for ScanSettingsList {
    type V = ScanSettingsListModel;

    open spec fn deep_view(&self) -> ScanSettingsListModel {
        ScanSettingsListModel {
            count: self.count.deep_view(),
            scan_settings: self.scan_settings.deep_view(),
        }
    }
}

impl ScanSettingsListModel {
    /// The content with nothing filled in.
    pub open spec fn empty() -> ScanSettingsListModel {
        ScanSettingsListModel {
            count: None,
            scan_settings: Seq::empty(),
        }
    }
}

impl ScanSettingsList {
    /// Makes a value with nothing filled in.
    pub fn empty() -> (r: ScanSettingsList)
        ensures
            r.deep_view() == ScanSettingsListModel::empty(),
    {
        let r = ScanSettingsList {
            count: None,
            scan_settings: Vec::new(),
        };
        assert(r.deep_view() =~~= ScanSettingsListModel::empty());
        r
    }
}

/// A whole document.
#[derive(Debug, Clone, PartialEq, Eq)]
pub struct MzML {
    /// The controlled vocabularies.
    pub cv_list: Option<CvList>,
    /// The description of the file.
    pub file_description: FileDescription,
    /// The shared groups of parameters.
    pub referenceable_param_group_list: Option<ReferenceableParamGroupList>,
    /// The samples.
    pub sample_list: Option<SampleList>,
    /// The instrument configurations.
    pub instrument_list: Option<InstrumentList>,
    /// The software.
    pub software_list: Option<SoftwareList>,
    /// The data processing chains.
    pub data_processing_list: Option<DataProcessingList>,
    /// The scan settings.
    pub scan_settings_list: Option<ScanSettingsList>,
    /// The run.
    pub run: Run,
}

/// The content of a [`MzML`] as mathematical values.
#[verifier::ext_equal]
pub struct MzMLModel {
    pub cv_list: Option<CvListModel>,
    pub file_description: FileDescriptionModel,
    pub referenceable_param_group_list: Option<ReferenceableParamGroupListModel>,
    pub sample_list: Option<SampleListModel>,
    pub instrument_list: Option<InstrumentListModel>,
    pub software_list: Option<SoftwareListModel>,
    pub data_processing_list: Option<DataProcessingListModel>,
    pub scan_settings_list: Option<ScanSettingsListModel>,
    pub run: RunModel,
}

impl DeepView for MzML {
    type V = MzMLModel;

    open spec fn deep_view(&self) -> MzMLModel {
        MzMLModel {
            cv_list: self.cv_list.deep_view(),
            file_description: self.file_description.deep_view(),
            referenceable_param_group_list: self.referenceable_param_group_list.deep_view(),
            sample_list: self.sample_list.deep_view(),
            instrument_list: self.instrument_list.deep_view(),
            software_list: self.software_list.deep_view(),
            data_processing_list: self.data_processing_list.deep_view(),
            scan_settings_list: self.scan_settings_list.deep_view(),
            run: self.run.deep_view(),
        }
    }
}

impl MzMLModel {
    /// The content with nothing filled in.
    pub open spec fn empty() -> MzMLModel {
        MzMLModel {
            cv_list: None,
            file_description: FileDescriptionModel::empty(),
            referenceable_param_group_list: None,
            sample_list: None,
            instrument_list: None,
            software_list: None,
            data_processing_list: None,
            scan_settings_list: None,
            run: RunModel::empty(),
        }
    }
}

impl MzML {
    /// Makes a value with nothing filled in.
    pub fn empty() -> (r: MzML)
        ensures
            r.deep_view() == MzMLModel::empty(),
    {
        let r = MzML {
            cv_list: None,
            file_description: FileDescription::empty(),
            referenceable_param_group_list: None,
            sample_list: None,
            instrument_list: None,
            software_list: None,
            data_processing_list: None,
            scan_settings_list: None,
            run: Run::empty(),
        };
        assert(r.deep_view() =~~= MzMLModel::empty());
        r
    }
}

} // verus!
