//! Looking things up in a document, and stating what must hold of it.

use vstd::pervasive::unreached;
use vstd::prelude::*;
use crate::document::{MzML, Software, SoftwareParam};
use crate::params::{CvParam, ParamValue};
use crate::run::{
    Chromatogram, ChromatogramList, PrecursorList, Run, ScanList, Spectrum, SpectrumDescription,
};
use crate::text::str_eq;

verus! {

/// How strictly the vocabulary of a term is held to what is expected.
#[derive(Debug, Clone, Copy, PartialEq, Eq, Structural)]
pub enum CvRefMode {
    /// The vocabulary must be the expected one.
    Strict,
    /// Where `MS` is expected, the vocabulary may also be missing or empty.
    AllowMissingMs,
}

/// The index of the first spectrum with the given id, from place `i` on,
/// or -1.
pub open spec fn spectrum_with_id(spectra: Seq<Spectrum>, id: Seq<char>, i: int) -> int
    decreases spectra.len() - i,
{
    if i < 0 || i >= spectra.len() {
        -1
    } else if spectra[i].id@ == id {
        i
    } else {
        spectrum_with_id(spectra, id, i + 1)
    }
}

/// The spectra of a document, or none where it has no list of them.
pub open spec fn spectra_of(mzml: &MzML) -> Seq<Spectrum> {
    match mzml.run.spectrum_list {
        Some(l) => l.spectra@,
        None => Seq::empty(),
    }
}

/// Returns the first spectrum with the given id.  The document must hold
/// one.
pub fn spectrum_by_id<'a>(mzml: &'a MzML, id: &str) -> (s: &'a Spectrum)
    requires
        spectrum_with_id(spectra_of(mzml), id@, 0) >= 0,
    ensures
        *s == spectra_of(mzml)[spectrum_with_id(spectra_of(mzml), id@, 0)],
{
    match &mzml.run.spectrum_list {
        None => unreached(),
        Some(sl) => {
            let mut i: usize = 0;
            loop
                invariant
                    i <= sl.spectra@.len(),
                    sl.spectra@ == spectra_of(mzml),
                    spectrum_with_id(spectra_of(mzml), id@, 0) >= 0,
                    spectrum_with_id(spectra_of(mzml), id@, 0) == spectrum_with_id(
                        spectra_of(mzml),
                        id@,
                        i as int,
                    ),
                decreases sl.spectra@.len() - i,
            {
                if i >= sl.spectra.len() {
                    unreached::<()>();
                }
                if str_eq(sl.spectra[i].id.as_str(), id) {
                    return &sl.spectra[i];
                }
                i = i + 1;
            }
        },
    }
}

/// Returns the spectrum at place `idx`.  The document must hold one there.
pub fn spectrum_by_index<'a>(mzml: &'a MzML, idx: usize) -> (s: &'a Spectrum)
    requires
        idx < spectra_of(mzml).len(),
    ensures
        *s == spectra_of(mzml)[idx as int],
{
    match &mzml.run.spectrum_list {
        None => unreached(),
        Some(sl) => &sl.spectra[idx],
    }
}

/// Returns the description block of a spectrum, which must have one.
pub fn spectrum_description(s: &Spectrum) -> (d: &SpectrumDescription)
    requires
        s.spectrum_description is Some,
    ensures
        Some(*d) == s.spectrum_description,
{
    match &s.spectrum_description {
        Some(d) => d,
        None => unreached(),
    }
}

/// The scan list of a spectrum: that of its description block where the
/// block has one, else its own.
pub open spec fn scan_list_of(s: &Spectrum) -> Option<ScanList> {
    match s.spectrum_description {
        Some(d) => if d.scan_list is Some {
            d.scan_list
        } else {
            s.scan_list
        },
        None => s.scan_list,
    }
}

/// Returns the scan list of a spectrum, which must have one.
pub fn spectrum_scan_list(s: &Spectrum) -> (l: &ScanList)
    requires
        scan_list_of(s) is Some,
    ensures
        Some(*l) == scan_list_of(s),
{
    match &s.spectrum_description {
        Some(sd) => match &sd.scan_list {
            Some(sl) => {
                return sl;
            },
            None => {},
        },
        None => {},
    }
    match &s.scan_list {
        Some(sl) => sl,
        None => unreached(),
    }
}

/// The precursor list of a spectrum: that of its description block where
/// the block has one, else its own.
pub open spec fn precursor_list_of(s: &Spectrum) -> Option<PrecursorList> {
    match s.spectrum_description {
        Some(d) => if d.precursor_list is Some {
            d.precursor_list
        } else {
            s.precursor_list
        },
        None => s.precursor_list,
    }
}

/// Returns the precursor list of a spectrum, where it has one.
pub fn spectrum_precursor_list(s: &Spectrum) -> (l: Option<&PrecursorList>)
    ensures
        match l {
            Some(p) => precursor_list_of(s) == Some(*p),
            None => precursor_list_of(s) is None,
        },
{
    match &s.spectrum_description {
        Some(sd) => match &sd.precursor_list {
            Some(pl) => {
                return Some(pl);
            },
            None => {},
        },
        None => {},
    }
    match &s.precursor_list {
        Some(pl) => Some(pl),
        None => None,
    }
}

/// Returns the chromatogram list of a run, which must have one.
pub fn chromatogram_list(run: &Run) -> (l: &ChromatogramList)
    requires
        run.chromatogram_list is Some,
    ensures
        Some(*l) == run.chromatogram_list,
{
    match &run.chromatogram_list {
        Some(l) => l,
        None => unreached(),
    }
}

/// The index of the first chromatogram with the given id, from place `i`
/// on, or -1.
pub open spec fn chromatogram_with_id(list: Seq<Chromatogram>, id: Seq<char>, i: int) -> int
    decreases list.len() - i,
{
    if i < 0 || i >= list.len() {
        -1
    } else if list[i].id@ == id {
        i
    } else {
        chromatogram_with_id(list, id, i + 1)
    }
}

/// Returns the first chromatogram with the given id.  The list must hold
/// one.
pub fn chromatogram<'a>(cl: &'a ChromatogramList, id: &str) -> (c: &'a Chromatogram)
    requires
        chromatogram_with_id(cl.chromatograms@, id@, 0) >= 0,
    ensures
        *c == cl.chromatograms@[chromatogram_with_id(cl.chromatograms@, id@, 0)],
{
    let mut i: usize = 0;
    loop
        invariant
            i <= cl.chromatograms@.len(),
            chromatogram_with_id(cl.chromatograms@, id@, 0) >= 0,
            chromatogram_with_id(cl.chromatograms@, id@, 0) == chromatogram_with_id(
                cl.chromatograms@,
                id@,
                i as int,
            ),
        decreases cl.chromatograms@.len() - i,
    {
        if i >= cl.chromatograms.len() {
            unreached::<()>();
        }
        if str_eq(cl.chromatograms[i].id.as_str(), id) {
            return &cl.chromatograms[i];
        }
        i = i + 1;
    }
}

/// The index of the first term with the given name, from place `i` on, or
/// -1.
pub open spec fn term_named(params: Seq<CvParam>, name: Seq<char>, i: int) -> int
    decreases params.len() - i,
{
    if i < 0 || i >= params.len() {
        -1
    } else if params[i].name@ == name {
        i
    } else {
        term_named(params, name, i + 1)
    }
}

/// Returns the first term with the given name, where there is one.
pub fn cv_by_name<'a>(cv_params: &'a [CvParam], name: &str) -> (r: Option<&'a CvParam>)
    ensures
        match r {
            Some(p) => term_named(cv_params@, name@, 0) >= 0 && *p == cv_params@[term_named(
                cv_params@,
                name@,
                0,
            )],
            None => term_named(cv_params@, name@, 0) == -1,
        },
{
    let mut i: usize = 0;
    while i < cv_params.len()
        invariant
            i <= cv_params@.len(),
            term_named(cv_params@, name@, 0) == term_named(cv_params@, name@, i as int),
        decreases cv_params@.len() - i,
    {
        if str_eq(cv_params[i].name.as_str(), name) {
            return Some(&cv_params[i]);
        }
        i = i + 1;
    }
    None
}

/// States that no term has the given name.
pub fn assert_cv_absent(cv_params: &[CvParam], name: &str)
    requires
        term_named(cv_params@, name@, 0) == -1,
{
}

/// Whether the vocabulary `got` of a term passes for `expected` under the
/// given policy.
pub open spec fn cv_ref_passes(policy: CvRefMode, got: Option<Seq<char>>, expected: Seq<char>)
    -> bool {
    match got {
        Some(v) => v == expected || (policy == CvRefMode::AllowMissingMs && v.len() == 0
            && expected == "MS"@),
        None => policy == CvRefMode::AllowMissingMs && expected == "MS"@,
    }
}

/// Returns whether the vocabulary `got` of a term passes for `expected`.
pub fn cv_ref_ok(policy: CvRefMode, got: Option<&str>, expected: &str) -> (r: bool)
    ensures
        r == cv_ref_passes(policy, opt_str_text(got), expected@),
{
    match got {
        Some(v) => {
            if str_eq(v, expected) {
                return true;
            }
            policy == CvRefMode::AllowMissingMs && v.is_empty() && str_eq(expected, "MS")
        },
        None => policy == CvRefMode::AllowMissingMs && str_eq(expected, "MS"),
    }
}

/// States that the vocabulary `got` of the term `ctx` passes for
/// `expected`.
pub fn assert_cv_ref(policy: CvRefMode, got: Option<&str>, expected: &str, ctx: &str)
    requires
        cv_ref_passes(policy, opt_str_text(got), expected@),
{
}

/// The text of an optional string.
pub open spec fn opt_text(s: Option<String>) -> Option<Seq<char>> {
    match s {
        Some(t) => Some(t@),
        None => None,
    }
}

/// The text of an optional string slice.
pub open spec fn opt_str_text(s: Option<&str>) -> Option<Seq<char>> {
    match s {
        Some(t) => Some(t@),
        None => None,
    }
}

/// Whether a naming term of older documents is the expected one.
pub open spec fn software_param_is(
    policy: CvRefMode,
    p: &SoftwareParam,
    cv_ref: &str,
    accession: &str,
    name: &str,
    version: Option<&str>,
) -> bool {
    &&& cv_ref_passes(policy, opt_text(p.cv_ref), cv_ref@)
    &&& p.accession@ == accession@
    &&& p.name@ == name@
    &&& opt_text(p.version) == opt_str_text(version)
}

/// States that a naming term of older documents is the expected one.
pub fn assert_software_param(
    policy: CvRefMode,
    p: &SoftwareParam,
    cv_ref: &str,
    accession: &str,
    name: &str,
    version: Option<&str>,
)
    requires
        software_param_is(policy, p, cv_ref, accession, name, version),
{
}

/// Whether a piece of software is the expected one: by its naming term
/// where it has one, else by the term of the given name and its version.
pub open spec fn software_is(
    policy: CvRefMode,
    sw: &Software,
    cv_ref: &str,
    accession: &str,
    name: &str,
    version: Option<&str>,
) -> bool {
    if sw.software_param@.len() > 0 {
        software_param_is(policy, &sw.software_param@[0], cv_ref, accession, name, version)
    } else {
        let at = term_named(sw.cv_param@, name@, 0);
        &&& at >= 0
        &&& opt_text(sw.cv_param@[at].accession) == Some(accession@)
        &&& cv_ref_passes(policy, opt_text(sw.cv_param@[at].cv_ref), cv_ref@)
        &&& sw.cv_param@[at].value is Empty
        &&& sw.cv_param@[at].unit_name is None
        &&& opt_text(sw.version) == opt_str_text(version)
    }
}

/// States that a piece of software is the expected one.
pub fn assert_software(
    policy: CvRefMode,
    sw: &Software,
    cv_ref: &str,
    accession: &str,
    name: &str,
    version: Option<&str>,
)
    requires
        software_is(policy, sw, cv_ref, accession, name, version),
{
}

/// Returns whether an optional string holds the optional text.
pub fn opt_text_is(a: &Option<String>, b: Option<&str>) -> (r: bool)
    ensures
        r == (opt_text(*a) == opt_str_text(b)),
{
    match (a, b) {
        (Some(x), Some(y)) => str_eq(x.as_str(), y),
        (None, None) => true,
        _ => false,
    }
}

/// Returns whether a naming term of older documents is the expected one.
pub fn software_param_ok(
    policy: CvRefMode,
    p: &SoftwareParam,
    cv_ref: &str,
    accession: &str,
    name: &str,
    version: Option<&str>,
) -> (r: bool)
    ensures
        r == software_param_is(policy, p, cv_ref, accession, name, version),
{
    let got: Option<&str> = match &p.cv_ref {
        Some(t) => Some(t.as_str()),
        None => None,
    };
    cv_ref_ok(policy, got, cv_ref) && str_eq(p.accession.as_str(), accession) && str_eq(
        p.name.as_str(),
        name,
    ) && opt_text_is(&p.version, version)
}

/// Returns whether a piece of software is the expected one.
pub fn software_ok(
    policy: CvRefMode,
    sw: &Software,
    cv_ref: &str,
    accession: &str,
    name: &str,
    version: Option<&str>,
) -> (r: bool)
    ensures
        r == software_is(policy, sw, cv_ref, accession, name, version),
{
    if sw.software_param.len() > 0 {
        return software_param_ok(policy, &sw.software_param[0], cv_ref, accession, name, version);
    }
    match cv_by_name(sw.cv_param.as_slice(), name) {
        None => false,
        Some(p) => {
            let got: Option<&str> = match &p.cv_ref {
                Some(t) => Some(t.as_str()),
                None => None,
            };
            let no_value = match &p.value {
                ParamValue::Empty => true,
                _ => false,
            };
            opt_text_is(&p.accession, Some(accession)) && cv_ref_ok(policy, got, cv_ref)
                && no_value && p.unit_name.is_none() && opt_text_is(&sw.version, version)
        },
    }
}

/// The value that a term is expected to have.
pub enum ExpectedCvValue<'a> {
    /// No value.
    Absent,
    /// The given text; the empty text also passes for no value.
    Str(&'a str),
    /// The number with the given binary64 bits.
    Number(u64),
}

/// Whether a value is the expected one.
pub open spec fn value_is(got: ParamValue, expected: ExpectedCvValue<'_>) -> bool {
    match expected {
        ExpectedCvValue::Absent => got is Empty,
        ExpectedCvValue::Str(v) => if v@.len() == 0 {
            got is Empty || (got matches ParamValue::Text(t) && t@.len() == 0)
        } else {
            got matches ParamValue::Text(t) && t@ == v@
        },
        ExpectedCvValue::Number(bits) => got == ParamValue::Number(bits),
    }
}

/// Returns whether a value is the expected one.
pub fn value_ok(got: &ParamValue, expected: &ExpectedCvValue<'_>) -> (r: bool)
    ensures
        r == value_is(*got, *expected),
{
    match expected {
        ExpectedCvValue::Absent => match got {
            ParamValue::Empty => true,
            _ => false,
        },
        ExpectedCvValue::Str(v) => match got {
            ParamValue::Empty => v.unicode_len() == 0,
            ParamValue::Text(t) => {
                proof {
                    if v@.len() == 0 && t@.len() == 0 {
                        assert(t@ =~= v@);
                    }
                }
                str_eq(t.as_str(), v)
            },
            ParamValue::Number(_) => false,
        },
        ExpectedCvValue::Number(bits) => match got {
            ParamValue::Number(b) => *b == *bits,
            _ => false,
        },
    }
}

/// Whether the first term of the given name is the expected one: by its
/// accession, its vocabulary, its value and the name of its unit.
pub open spec fn cv_is(
    policy: CvRefMode,
    cv_params: Seq<CvParam>,
    name: &str,
    accession: &str,
    cv_ref: &str,
    value: ExpectedCvValue<'_>,
    unit_name: Option<&str>,
) -> bool {
    let at = term_named(cv_params, name@, 0);
    &&& at >= 0
    &&& opt_text(cv_params[at].accession) == Some(accession@)
    &&& cv_ref_passes(policy, opt_text(cv_params[at].cv_ref), cv_ref@)
    &&& value_is(cv_params[at].value, value)
    &&& opt_text(cv_params[at].unit_name) == opt_str_text(unit_name)
}

/// Returns whether the first term of the given name is the expected one.
pub fn cv_ok(
    policy: CvRefMode,
    cv_params: &[CvParam],
    name: &str,
    accession: &str,
    cv_ref: &str,
    value: &ExpectedCvValue<'_>,
    unit_name: Option<&str>,
) -> (r: bool)
    ensures
        r == cv_is(policy, cv_params@, name, accession, cv_ref, *value, unit_name),
{
    match cv_by_name(cv_params, name) {
        None => false,
        Some(p) => {
            let got: Option<&str> = match &p.cv_ref {
                Some(t) => Some(t.as_str()),
                None => None,
            };
            opt_text_is(&p.accession, Some(accession)) && cv_ref_ok(policy, got, cv_ref)
                && value_ok(&p.value, value) && opt_text_is(&p.unit_name, unit_name)
        },
    }
}

/// States that the first term of the given name is the expected one.
pub fn assert_cv(
    policy: CvRefMode,
    cv_params: &[CvParam],
    name: &str,
    accession: &str,
    cv_ref: &str,
    value: ExpectedCvValue<'_>,
    unit_name: Option<&str>,
)
    requires
        cv_is(policy, cv_params@, name, accession, cv_ref, value, unit_name),
{
}

} // verus!
