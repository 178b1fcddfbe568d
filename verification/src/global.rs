//! The global metadata block: the sections that describe a whole file.
//!
//! The block starts with eight counts, one per section, followed by a
//! metadata block whose items are the elements of the sections in order.

use vstd::prelude::*;
use vstd::slice::slice_subrange;
use crate::bytes::{le_u32, le_u32_at};
use crate::cv_table::CvTable;
use crate::document::{
    Cv, CvList, CvListModel, CvModel, DataProcessing, DataProcessingList, DataProcessingListModel,
    DataProcessingModel, FileDescription, FileDescriptionModel, Instrument, InstrumentList,
    InstrumentListModel, InstrumentModel, ProcessingMethod, ProcessingMethodModel,
    ReferenceableParamGroup, ReferenceableParamGroupList, ReferenceableParamGroupListModel,
    ReferenceableParamGroupModel, Sample, SampleList, SampleListModel, SampleModel, ScanSettings,
    ScanSettingsList, ScanSettingsListModel, ScanSettingsModel, Software, SoftwareList,
    SoftwareListModel, SoftwareModel,
};
use crate::error::DecodeError;
use crate::metadata::{decode_meta_block, meta_block_spec, MetaShape};
use crate::metadatum::{ACC_ATTR_FULL_NAME, ACC_ATTR_ID, ACC_ATTR_URI, ACC_ATTR_VERSION};
use crate::params::{CvParam, CvParamModel, lemma_deep_view_push};
use crate::precursor::{model_tail, param_tail};

verus! {

/// The size of the counts in front of the global metadata block.
pub const GLOBAL_COUNTS_SIZE: usize = 32;

/// How many elements each section of the global metadata holds.
#[derive(Clone, Copy, Debug, PartialEq, Eq)]
pub struct GlobalCounts {
    pub n_fd: u32,
    pub n_rpg: u32,
    pub n_samp: u32,
    pub n_inst: u32,
    pub n_soft: u32,
    pub n_dp: u32,
    pub n_acq: u32,
    pub n_cvs: u32,
}

impl GlobalCounts {
    /// The number of items of the block.
    pub open spec fn total(self) -> int {
        self.n_fd + self.n_rpg + self.n_samp + self.n_inst + self.n_soft + self.n_dp + self.n_acq
            + self.n_cvs
    }

    /// The item of the first shared parameter group.  The file description
    /// takes one item where its count is not zero, whatever the count.
    pub open spec fn first_rpg(self) -> int {
        if self.n_fd > 0 {
            1
        } else {
            0
        }
    }

    /// The item of the first sample.
    pub open spec fn first_samp(self) -> int {
        self.first_rpg() + self.n_rpg
    }

    /// The item of the first instrument configuration.
    pub open spec fn first_inst(self) -> int {
        self.first_samp() + self.n_samp
    }

    /// The item of the first piece of software.
    pub open spec fn first_soft(self) -> int {
        self.first_inst() + self.n_inst
    }

    /// The item of the first data processing chain.
    pub open spec fn first_dp(self) -> int {
        self.first_soft() + self.n_soft
    }

    /// The item of the first set of scan settings.
    pub open spec fn first_acq(self) -> int {
        self.first_dp() + self.n_dp
    }

    /// The item of the first vocabulary.
    pub open spec fn first_cv(self) -> int {
        self.first_acq() + self.n_acq
    }
}

/// The counts as they stand in the first 32 bytes.
pub open spec fn global_counts(b: Seq<u8>) -> GlobalCounts {
    GlobalCounts {
        n_fd: le_u32(b, 0),
        n_rpg: le_u32(b, 4),
        n_samp: le_u32(b, 8),
        n_inst: le_u32(b, 12),
        n_soft: le_u32(b, 16),
        n_dp: le_u32(b, 20),
        n_acq: le_u32(b, 24),
        n_cvs: le_u32(b, 28),
    }
}

/// The sections that describe a whole file.
#[derive(Debug, Clone, PartialEq, Eq)]
pub struct GlobalSections {
    /// The controlled vocabularies.
    pub cv_list: Option<CvList>,
    /// The description of the file.
    pub file_description: FileDescription,
    /// The shared groups of parameters.
    pub referenceable_param_group_list: Option<ReferenceableParamGroupList>,
    /// The samples.
    pub sample_list: Option<SampleList>,
    /// The instrument configurations.
    pub instrument_list: Option<InstrumentList>,
    /// The software.
    pub software_list: Option<SoftwareList>,
    /// The data processing chains.
    pub data_processing_list: Option<DataProcessingList>,
    /// The scan settings.
    pub scan_settings_list: Option<ScanSettingsList>,
}

/// The content of a [`GlobalSections`] as mathematical values.
#[verifier::ext_equal]
pub struct GlobalSectionsModel {
    pub cv_list: Option<CvListModel>,
    pub file_description: FileDescriptionModel,
    pub referenceable_param_group_list: Option<ReferenceableParamGroupListModel>,
    pub sample_list: Option<SampleListModel>,
    pub instrument_list: Option<InstrumentListModel>,
    pub software_list: Option<SoftwareListModel>,
    pub data_processing_list: Option<DataProcessingListModel>,
    pub scan_settings_list: Option<ScanSettingsListModel>,
}

impl DeepView for GlobalSections {
    type V = GlobalSectionsModel;

    open spec fn deep_view(&self) -> GlobalSectionsModel {
        GlobalSectionsModel {
            cv_list: self.cv_list.deep_view(),
            file_description: self.file_description.deep_view(),
            referenceable_param_group_list: self.referenceable_param_group_list.deep_view(),
            sample_list: self.sample_list.deep_view(),
            instrument_list: self.instrument_list.deep_view(),
            software_list: self.software_list.deep_view(),
            data_processing_list: self.data_processing_list.deep_view(),
            scan_settings_list: self.scan_settings_list.deep_view(),
        }
    }
}

impl GlobalSectionsModel {
    /// The content with nothing filled in.
    pub open spec fn empty() -> GlobalSectionsModel {
        GlobalSectionsModel {
            cv_list: None,
            file_description: FileDescriptionModel::empty(),
            referenceable_param_group_list: None,
            sample_list: None,
            instrument_list: None,
            software_list: None,
            data_processing_list: None,
            scan_settings_list: None,
        }
    }
}

impl GlobalSections {
    /// Makes a value with nothing filled in.
    pub fn empty() -> (r: GlobalSections)
        ensures
            r.deep_view() == GlobalSectionsModel::empty(),
    {
        let r = GlobalSections {
            cv_list: None,
            file_description: FileDescription::empty(),
            referenceable_param_group_list: None,
            sample_list: None,
            instrument_list: None,
            software_list: None,
            data_processing_list: None,
            scan_settings_list: None,
        };
        assert(r.deep_view() =~~= GlobalSectionsModel::empty());
        r
    }
}

/// Whether the items from `from` on still hold the parameters that `all`
/// lists for them.
pub open spec fn untouched(items: Seq<Vec<CvParam>>, all: Seq<Seq<CvParamModel>>, from: int)
    -> bool {
    &&& items.len() == all.len()
    &&& forall|j: int| from <= j < items.len() ==> (#[trigger] items[j]).deep_view() == all[j]
}

/// Takes the parameters of item `j` out of `items`, leaving none behind.
pub fn take_params(items: &mut Vec<Vec<CvParam>>, j: usize) -> (out: Vec<CvParam>)
    requires
        j < old(items).len(),
    ensures
        out == old(items)@[j as int],
        final(items)@.len() == old(items)@.len(),
        forall|k: int|
            0 <= k < old(items)@.len() && k != j ==> #[trigger] final(items)@[k] == old(items)@[k],
{
    let mut out: Vec<CvParam> = Vec::new();
    core::mem::swap(&mut out, &mut items[j]);
    out
}

/// The shared parameter group with the given parameters and nothing else.
pub open spec fn group_of(ps: Seq<CvParamModel>) -> ReferenceableParamGroupModel {
    ReferenceableParamGroupModel { cv_params: ps, ..ReferenceableParamGroupModel::empty() }
}

/// Builds `n` elements from the items at `from` on, taking their
/// parameters out of `items`.
fn build_groups(
    items: &mut Vec<Vec<CvParam>>,
    from: usize,
    n: u32,
    Ghost(all): Ghost<Seq<Seq<CvParamModel>>>,
) -> (out: Vec<ReferenceableParamGroup>)
    requires
        from + n <= old(items).len(),
        untouched(old(items)@, all, from as int),
    ensures
        out.deep_view() == Seq::new(n as nat, |k: int| group_of(all[from + k])),
        untouched(final(items)@, all, from + n),
{
    let mut out: Vec<ReferenceableParamGroup> = Vec::new();
    let mut k: u32 = 0;
    assert(out.deep_view() =~= Seq::new(0nat, |q: int| group_of(all[from + q])));
    while k < n
        invariant
            from + n <= items.len(),
            k <= n,
            untouched(items@, all, from + k),
            out.deep_view() == Seq::new(k as nat, |q: int| group_of(all[from + q])),
        decreases n - k,
    {
        let ps = take_params(items, from + k as usize);
        let mut e = ReferenceableParamGroup::empty();
        e.cv_params = ps;
        let ghost before = out;
        out.push(e);
        proof {
            lemma_deep_view_push(before, out, e);
            assert(e.deep_view() =~~= group_of(all[from + k]));
            assert(out.deep_view() =~= Seq::new((k + 1) as nat, |q: int| group_of(all[from + q])));
        }
        k = k + 1;
    }
    out
}

/// The sample with the given parameters and nothing else.
pub open spec fn sample_of(ps: Seq<CvParamModel>) -> SampleModel {
    SampleModel { cv_params: ps, ..SampleModel::empty() }
}

/// Builds `n` elements from the items at `from` on, taking their
/// parameters out of `items`.
fn build_samples(
    items: &mut Vec<Vec<CvParam>>,
    from: usize,
    n: u32,
    Ghost(all): Ghost<Seq<Seq<CvParamModel>>>,
) -> (out: Vec<Sample>)
    requires
        from + n <= old(items).len(),
        untouched(old(items)@, all, from as int),
    ensures
        out.deep_view() == Seq::new(n as nat, |k: int| sample_of(all[from + k])),
        untouched(final(items)@, all, from + n),
{
    let mut out: Vec<Sample> = Vec::new();
    let mut k: u32 = 0;
    assert(out.deep_view() =~= Seq::new(0nat, |q: int| sample_of(all[from + q])));
    while k < n
        invariant
            from + n <= items.len(),
            k <= n,
            untouched(items@, all, from + k),
            out.deep_view() == Seq::new(k as nat, |q: int| sample_of(all[from + q])),
        decreases n - k,
    {
        let ps = take_params(items, from + k as usize);
        let mut e = Sample::empty();
        e.cv_params = ps;
        let ghost before = out;
        out.push(e);
        proof {
            lemma_deep_view_push(before, out, e);
            assert(e.deep_view() =~~= sample_of(all[from + k]));
            assert(out.deep_view() =~= Seq::new((k + 1) as nat, |q: int| sample_of(all[from + q])));
        }
        k = k + 1;
    }
    out
}

/// The instrument configuration with the given parameters and nothing else.
pub open spec fn instrument_of(ps: Seq<CvParamModel>) -> InstrumentModel {
    InstrumentModel { cv_param: ps, ..InstrumentModel::empty() }
}

/// Builds `n` elements from the items at `from` on, taking their
/// parameters out of `items`.
fn build_instruments(
    items: &mut Vec<Vec<CvParam>>,
    from: usize,
    n: u32,
    Ghost(all): Ghost<Seq<Seq<CvParamModel>>>,
) -> (out: Vec<Instrument>)
    requires
        from + n <= old(items).len(),
        untouched(old(items)@, all, from as int),
    ensures
        out.deep_view() == Seq::new(n as nat, |k: int| instrument_of(all[from + k])),
        untouched(final(items)@, all, from + n),
{
    let mut out: Vec<Instrument> = Vec::new();
    let mut k: u32 = 0;
    assert(out.deep_view() =~= Seq::new(0nat, |q: int| instrument_of(all[from + q])));
    while k < n
        invariant
            from + n <= items.len(),
            k <= n,
            untouched(items@, all, from + k),
            out.deep_view() == Seq::new(k as nat, |q: int| instrument_of(all[from + q])),
        decreases n - k,
    {
        let ps = take_params(items, from + k as usize);
        let mut e = Instrument::empty();
        e.cv_param = ps;
        let ghost before = out;
        out.push(e);
        proof {
            lemma_deep_view_push(before, out, e);
            assert(e.deep_view() =~~= instrument_of(all[from + k]));
            assert(out.deep_view() =~= Seq::new((k + 1) as nat, |q: int| instrument_of(all[from + q])));
        }
        k = k + 1;
    }
    out
}

/// The piece of software with the given parameters and nothing else.
pub open spec fn software_of(ps: Seq<CvParamModel>) -> SoftwareModel {
    SoftwareModel { cv_param: ps, ..SoftwareModel::empty() }
}

/// Builds `n` elements from the items at `from` on, taking their
/// parameters out of `items`.
fn build_software(
    items: &mut Vec<Vec<CvParam>>,
    from: usize,
    n: u32,
    Ghost(all): Ghost<Seq<Seq<CvParamModel>>>,
) -> (out: Vec<Software>)
    requires
        from + n <= old(items).len(),
        untouched(old(items)@, all, from as int),
    ensures
        out.deep_view() == Seq::new(n as nat, |k: int| software_of(all[from + k])),
        untouched(final(items)@, all, from + n),
{
    let mut out: Vec<Software> = Vec::new();
    let mut k: u32 = 0;
    assert(out.deep_view() =~= Seq::new(0nat, |q: int| software_of(all[from + q])));
    while k < n
        invariant
            from + n <= items.len(),
            k <= n,
            untouched(items@, all, from + k),
            out.deep_view() == Seq::new(k as nat, |q: int| software_of(all[from + q])),
        decreases n - k,
    {
        let ps = take_params(items, from + k as usize);
        let mut e = Software::empty();
        e.cv_param = ps;
        let ghost before = out;
        out.push(e);
        proof {
            lemma_deep_view_push(before, out, e);
            assert(e.deep_view() =~~= software_of(all[from + k]));
            assert(out.deep_view() =~= Seq::new((k + 1) as nat, |q: int| software_of(all[from + q])));
        }
        k = k + 1;
    }
    out
}

/// The data processing chain of one step with the given parameters and nothing else.
pub open spec fn processing_of(ps: Seq<CvParamModel>) -> DataProcessingModel {
    DataProcessingModel {
        processing_method: seq![
            ProcessingMethodModel { cv_param: ps, ..ProcessingMethodModel::empty() },
        ],
        ..DataProcessingModel::empty()
    }
}

/// Builds `n` elements from the items at `from` on, taking their
/// parameters out of `items`.
fn build_processing(
    items: &mut Vec<Vec<CvParam>>,
    from: usize,
    n: u32,
    Ghost(all): Ghost<Seq<Seq<CvParamModel>>>,
) -> (out: Vec<DataProcessing>)
    requires
        from + n <= old(items).len(),
        untouched(old(items)@, all, from as int),
    ensures
        out.deep_view() == Seq::new(n as nat, |k: int| processing_of(all[from + k])),
        untouched(final(items)@, all, from + n),
{
    let mut out: Vec<DataProcessing> = Vec::new();
    let mut k: u32 = 0;
    assert(out.deep_view() =~= Seq::new(0nat, |q: int| processing_of(all[from + q])));
    while k < n
        invariant
            from + n <= items.len(),
            k <= n,
            untouched(items@, all, from + k),
            out.deep_view() == Seq::new(k as nat, |q: int| processing_of(all[from + q])),
        decreases n - k,
    {
        let ps = take_params(items, from + k as usize);
        let mut step = ProcessingMethod::empty();
        step.cv_param = ps;
        let mut e = DataProcessing::empty();
        e.processing_method.push(step);
        let ghost before = out;
        out.push(e);
        proof {
            lemma_deep_view_push(before, out, e);
            assert(e.deep_view() =~~= processing_of(all[from + k]));
            assert(out.deep_view() =~= Seq::new((k + 1) as nat, |q: int| processing_of(all[from + q])));
        }
        k = k + 1;
    }
    out
}

/// The set of scan settings with the given parameters and nothing else.
pub open spec fn scan_settings_of(ps: Seq<CvParamModel>) -> ScanSettingsModel {
    ScanSettingsModel { cv_params: ps, ..ScanSettingsModel::empty() }
}

/// Builds `n` elements from the items at `from` on, taking their
/// parameters out of `items`.
fn build_scan_settings(
    items: &mut Vec<Vec<CvParam>>,
    from: usize,
    n: u32,
    Ghost(all): Ghost<Seq<Seq<CvParamModel>>>,
) -> (out: Vec<ScanSettings>)
    requires
        from + n <= old(items).len(),
        untouched(old(items)@, all, from as int),
    ensures
        out.deep_view() == Seq::new(n as nat, |k: int| scan_settings_of(all[from + k])),
        untouched(final(items)@, all, from + n),
{
    let mut out: Vec<ScanSettings> = Vec::new();
    let mut k: u32 = 0;
    assert(out.deep_view() =~= Seq::new(0nat, |q: int| scan_settings_of(all[from + q])));
    while k < n
        invariant
            from + n <= items.len(),
            k <= n,
            untouched(items@, all, from + k),
            out.deep_view() == Seq::new(k as nat, |q: int| scan_settings_of(all[from + q])),
        decreases n - k,
    {
        let ps = take_params(items, from + k as usize);
        let mut e = ScanSettings::empty();
        e.cv_params = ps;
        let ghost before = out;
        out.push(e);
        proof {
            lemma_deep_view_push(before, out, e);
            assert(e.deep_view() =~~= scan_settings_of(all[from + k]));
            assert(out.deep_view() =~= Seq::new((k + 1) as nat, |q: int| scan_settings_of(all[from + q])));
        }
        k = k + 1;
    }
    out
}

/// The vocabulary that a list of attribute parameters describes.  Each
/// attribute sets one field; of two parameters for one field the later
/// one counts.
pub open spec fn cv_of(ps: Seq<CvParamModel>) -> CvModel
    decreases ps.len(),
{
    if ps.len() == 0 {
        CvModel::empty()
    } else {
        let c = cv_of(ps.drop_last());
        let p = ps.last();
        let t = model_tail(p);
        if t == ACC_ATTR_ID {
            CvModel { id: p.value, ..c }
        } else if t == ACC_ATTR_FULL_NAME {
            CvModel { full_name: p.value, ..c }
        } else if t == ACC_ATTR_VERSION {
            CvModel { version: p.value, ..c }
        } else if t == ACC_ATTR_URI {
            CvModel { uri: p.value, ..c }
        } else {
            c
        }
    }
}

/// Builds the vocabulary that a list of attribute parameters describes.
fn build_cv(ps: Vec<CvParam>) -> (c: Cv)
    ensures
        c.deep_view() == cv_of(ps.deep_view()),
{
    let mut c = Cv::empty();
    let ghost all = ps.deep_view();
    assert(all.take(0) =~= Seq::<CvParamModel>::empty());
    for p in it: ps
        invariant
            it.seq().len() == all.len(),
            forall|j: int| 0 <= j < all.len() ==> it.seq()[j].deep_view() == all[j],
            c.deep_view() == cv_of(all.take(it.index() as int)),
    {
        let ghost k = it.index() as int;
        proof {
            assert(all.take(k + 1).drop_last() =~= all.take(k));
            assert(all.take(k + 1).last() == all[k]);
        }
        let t = param_tail(&p);
        if t == ACC_ATTR_ID {
            c.id = p.value;
        } else if t == ACC_ATTR_FULL_NAME {
            c.full_name = p.value;
        } else if t == ACC_ATTR_VERSION {
            c.version = p.value;
        } else if t == ACC_ATTR_URI {
            c.uri = p.value;
        }
        assert(c.deep_view() =~~= cv_of(all.take(k + 1)));
    }
    assert(all.take(all.len() as int) =~= all);
    c
}

/// Builds `n` vocabularies from the items at `from` on.
fn build_cvs(
    items: &mut Vec<Vec<CvParam>>,
    from: usize,
    n: u32,
    Ghost(all): Ghost<Seq<Seq<CvParamModel>>>,
) -> (out: Vec<Cv>)
    requires
        from + n <= old(items).len(),
        untouched(old(items)@, all, from as int),
    ensures
        out.deep_view() == Seq::new(n as nat, |k: int| cv_of(all[from + k])),
        untouched(final(items)@, all, from + n),
{
    let mut out: Vec<Cv> = Vec::new();
    let mut k: u32 = 0;
    assert(out.deep_view() =~= Seq::new(0nat, |q: int| cv_of(all[from + q])));
    while k < n
        invariant
            from + n <= items.len(),
            k <= n,
            untouched(items@, all, from + k),
            out.deep_view() == Seq::new(k as nat, |q: int| cv_of(all[from + q])),
        decreases n - k,
    {
        let ps = take_params(items, from + k as usize);
        let e = build_cv(ps);
        let ghost before = out;
        out.push(e);
        proof {
            lemma_deep_view_push(before, out, e);
            assert(out.deep_view() =~= Seq::new((k + 1) as nat, |q: int| cv_of(all[from + q])));
        }
        k = k + 1;
    }
    out
}

/// The sections that the items of a global metadata block make up.
pub open spec fn sections_of(items: Seq<Seq<CvParamModel>>, c: GlobalCounts)
    -> GlobalSectionsModel {
    GlobalSectionsModel {
        cv_list: if c.n_cvs > 0 {
            Some(
                CvListModel {
                    count: Some(c.n_cvs as usize),
                    cv: Seq::new(c.n_cvs as nat, |k: int| cv_of(items[c.first_cv() + k])),
                },
            )
        } else {
            None
        },
        file_description: FileDescriptionModel {
            file_content: crate::document::FileContentModel {
                cv_params: if c.n_fd > 0 {
                    items[0]
                } else {
                    Seq::empty()
                },
                user_params: Seq::empty(),
            },
            ..FileDescriptionModel::empty()
        },
        referenceable_param_group_list: if c.n_rpg > 0 {
            Some(
                ReferenceableParamGroupListModel {
                    count: Some(c.n_rpg as usize),
                    referenceable_param_groups: Seq::new(
                        c.n_rpg as nat,
                        |k: int| group_of(items[c.first_rpg() + k]),
                    ),
                },
            )
        } else {
            None
        },
        sample_list: if c.n_samp > 0 {
            Some(
                SampleListModel {
                    count: Some(c.n_samp),
                    samples: Seq::new(c.n_samp as nat, |k: int| sample_of(items[c.first_samp() + k])),
                },
            )
        } else {
            None
        },
        instrument_list: if c.n_inst > 0 {
            Some(
                InstrumentListModel {
                    count: Some(c.n_inst as usize),
                    instrument: Seq::new(
                        c.n_inst as nat,
                        |k: int| instrument_of(items[c.first_inst() + k]),
                    ),
                },
            )
        } else {
            None
        },
        software_list: if c.n_soft > 0 {
            Some(
                SoftwareListModel {
                    count: Some(c.n_soft as usize),
                    software: Seq::new(
                        c.n_soft as nat,
                        |k: int| software_of(items[c.first_soft() + k]),
                    ),
                },
            )
        } else {
            None
        },
        data_processing_list: if c.n_dp > 0 {
            Some(
                DataProcessingListModel {
                    count: Some(c.n_dp as usize),
                    data_processing: Seq::new(
                        c.n_dp as nat,
                        |k: int| processing_of(items[c.first_dp() + k]),
                    ),
                },
            )
        } else {
            None
        },
        scan_settings_list: if c.n_acq > 0 {
            Some(
                ScanSettingsListModel {
                    count: Some(c.n_acq as usize),
                    scan_settings: Seq::new(
                        c.n_acq as nat,
                        |k: int| scan_settings_of(items[c.first_acq() + k]),
                    ),
                },
            )
        } else {
            None
        },
    }
}

/// What decoding the global metadata gives.
///
/// Fewer than 32 bytes stand for a file without global metadata.  The
/// section counts must add up to a number that fits 32 bits.
pub open spec fn global_spec(
    b: Seq<u8>,
    m_cnt: u32,
    n_cnt: u32,
    s_cnt: u32,
    table: Map<Seq<u8>, Seq<char>>,
) -> Result<GlobalSectionsModel, DecodeError> {
    if b.len() < GLOBAL_COUNTS_SIZE {
        Ok(GlobalSectionsModel::empty())
    } else {
        let c = global_counts(b);
        if c.total() > u32::MAX {
            Err(DecodeError::TooManyItems)
        } else {
            match meta_block_spec(
                b.subrange(GLOBAL_COUNTS_SIZE as int, b.len() as int),
                (MetaShape {
                    item_count: c.total() as u32,
                    meta_count: m_cnt,
                    num_count: n_cnt,
                    str_count: s_cnt,
                }),
                table,
            ) {
                Err(e) => Err(e),
                Ok(items) => Ok(sections_of(items, c)),
            }
        }
    }
}

/// Decodes the global metadata into the sections that describe the file.
pub fn decode_global_meta_structs(
    bytes: &[u8],
    m_cnt: u32,
    n_cnt: u32,
    s_cnt: u32,
    table: &CvTable,
) -> (r: Result<GlobalSections, DecodeError>)
    ensures
        match r {
            Ok(g) => global_spec(bytes@, m_cnt, n_cnt, s_cnt, table@) == Ok::<
                GlobalSectionsModel,
                DecodeError,
            >(g.deep_view()),
            Err(e) => global_spec(bytes@, m_cnt, n_cnt, s_cnt, table@) == Err::<
                GlobalSectionsModel,
                DecodeError,
            >(e),
        },
{
    if bytes.len() < GLOBAL_COUNTS_SIZE {
        return Ok(GlobalSections::empty());
    }
    let c = GlobalCounts {
        n_fd: le_u32_at(bytes, 0),
        n_rpg: le_u32_at(bytes, 4),
        n_samp: le_u32_at(bytes, 8),
        n_inst: le_u32_at(bytes, 12),
        n_soft: le_u32_at(bytes, 16),
        n_dp: le_u32_at(bytes, 20),
        n_acq: le_u32_at(bytes, 24),
        n_cvs: le_u32_at(bytes, 28),
    };
    assert(c == global_counts(bytes@));
    let total: u64 = c.n_fd as u64 + c.n_rpg as u64 + c.n_samp as u64 + c.n_inst as u64
        + c.n_soft as u64 + c.n_dp as u64 + c.n_acq as u64 + c.n_cvs as u64;
    if total > u32::MAX as u64 {
        return Err(DecodeError::TooManyItems);
    }
    let body = slice_subrange(bytes, GLOBAL_COUNTS_SIZE, bytes.len());
    let mut items = match decode_meta_block(body, total as u32, m_cnt, n_cnt, s_cnt, table) {
        Ok(v) => v,
        Err(e) => {
            return Err(e);
        },
    };
    proof {
        lemma_items_len(
            body@,
            (MetaShape {
                item_count: total as u32,
                meta_count: m_cnt,
                num_count: n_cnt,
                str_count: s_cnt,
            }),
            table@,
        );
    }
    Ok(assemble_sections(items, c))
}

/// Files the items of a global metadata block under their sections.
fn assemble_sections(items: Vec<Vec<CvParam>>, c: GlobalCounts) -> (g: GlobalSections)
    requires
        items.len() == c.total(),
    ensures
        g.deep_view() == sections_of(items.deep_view(), c),
{
    let mut items = items;
    let ghost all = items.deep_view();
    let mut file_description = FileDescription::empty();
    let mut at: usize = 0;
    if c.n_fd > 0 {
        file_description.file_content.cv_params = take_params(&mut items, 0);
        at = 1;
    }
    assert(file_description.deep_view() =~~= sections_of(all, c).file_description);
    let referenceable_param_group_list = if c.n_rpg > 0 {
        let v = build_groups(&mut items, at, c.n_rpg, Ghost(all));
        Some(
            ReferenceableParamGroupList {
                count: Some(c.n_rpg as usize),
                referenceable_param_groups: v,
            },
        )
    } else {
        None
    };
    assert(referenceable_param_group_list.deep_view() =~~= sections_of(
        all,
        c,
    ).referenceable_param_group_list);
    at = at + c.n_rpg as usize;
    let sample_list = if c.n_samp > 0 {
        let v = build_samples(&mut items, at, c.n_samp, Ghost(all));
        Some(SampleList { count: Some(c.n_samp), samples: v })
    } else {
        None
    };
    assert(sample_list.deep_view() =~~= sections_of(all, c).sample_list);
    at = at + c.n_samp as usize;
    let instrument_list = if c.n_inst > 0 {
        let v = build_instruments(&mut items, at, c.n_inst, Ghost(all));
        Some(InstrumentList { count: Some(c.n_inst as usize), instrument: v })
    } else {
        None
    };
    assert(instrument_list.deep_view() =~~= sections_of(all, c).instrument_list);
    at = at + c.n_inst as usize;
    let software_list = if c.n_soft > 0 {
        let v = build_software(&mut items, at, c.n_soft, Ghost(all));
        Some(SoftwareList { count: Some(c.n_soft as usize), software: v })
    } else {
        None
    };
    assert(software_list.deep_view() =~~= sections_of(all, c).software_list);
    at = at + c.n_soft as usize;
    let data_processing_list = if c.n_dp > 0 {
        let v = build_processing(&mut items, at, c.n_dp, Ghost(all));
        Some(DataProcessingList { count: Some(c.n_dp as usize), data_processing: v })
    } else {
        None
    };
    assert(data_processing_list.deep_view() =~~= sections_of(all, c).data_processing_list);
    at = at + c.n_dp as usize;
    let scan_settings_list = if c.n_acq > 0 {
        let v = build_scan_settings(&mut items, at, c.n_acq, Ghost(all));
        Some(ScanSettingsList { count: Some(c.n_acq as usize), scan_settings: v })
    } else {
        None
    };
    assert(scan_settings_list.deep_view() =~~= sections_of(all, c).scan_settings_list);
    at = at + c.n_acq as usize;
    let cv_list = if c.n_cvs > 0 {
        let v = build_cvs(&mut items, at, c.n_cvs, Ghost(all));
        Some(CvList { count: Some(c.n_cvs as usize), cv: v })
    } else {
        None
    };
    assert(cv_list.deep_view() =~~= sections_of(all, c).cv_list);
    GlobalSections {
        cv_list,
        file_description,
        referenceable_param_group_list,
        sample_list,
        instrument_list,
        software_list,
        data_processing_list,
        scan_settings_list,
    }
}

/// A block that decodes holds as many items as its shape says.
pub proof fn lemma_items_len(b: Seq<u8>, s: MetaShape, table: Map<Seq<u8>, Seq<char>>)
    ensures
        meta_block_spec(b, s, table) matches Ok(v) ==> v.len() == s.item_count,
{
    lemma_items_count(b, s, table, s.item_count as int);
}

/// The first `n` items, where they decode, are `n` items.
proof fn lemma_items_count(b: Seq<u8>, s: MetaShape, table: Map<Seq<u8>, Seq<char>>, n: int)
    requires
        0 <= n,
    ensures
        crate::metadata::items(b, s, table, n) matches Ok(v) ==> v.len() == n,
    decreases n,
{
    if n > 0 {
        lemma_items_count(b, s, table, n - 1);
    }
}

} // verus!
