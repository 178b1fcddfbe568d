//! The second decoder: the document is put together from metadata records
//! that carry their place in the element tree.

use vstd::prelude::*;
use crate::child_index::{ChildIndex, ids_in, records_view};
use crate::chromatogram_records::{chromatogram_list_of, parse_chromatogram_list};
use crate::cv_table::CvTable;
use crate::document::{MzML, MzMLModel};
use crate::error::DecodeError;
use crate::header::{header_spec, parse_header};
use crate::metadatum::{Metadatum, MetadatumModel, TagId};
use crate::run::{Run, RunModel};
use crate::schema::SchemaTree;
use crate::spectrum_records::{allowed_of, parse_spectrum_list, spectrum_list_of};

verus! {

/// The run that the records describe: its spectra, in the order in which
/// they lie under their list, and its chromatograms, in the order in
/// which their items first occur.
pub open spec fn run_of(ms: Seq<MetadatumModel>, schema: SchemaTree, table: Map<Seq<u8>, Seq<char>>)
    -> RunModel {
    RunModel {
        spectrum_list: spectrum_list_of(
            ms,
            allowed_of(schema),
            |parent: u32| ids_in(ms, parent, TagId::Spectrum),
            table,
        ),
        chromatogram_list: chromatogram_list_of(ms, table),
        ..RunModel::empty()
    }
}

/// Rebuilds the run from metadata records.
pub fn parse_run(schema: &SchemaTree, metadata: &[Metadatum], table: &CvTable) -> (r: Run)
    ensures
        r.deep_view() == run_of(records_view(metadata@), *schema, table@),
{
    let ghost ms = records_view(metadata@);
    let child_index = ChildIndex::new(metadata);
    let mut r = Run::empty();
    r.spectrum_list = parse_spectrum_list(schema, metadata, &child_index, table);
    r.chromatogram_list = parse_chromatogram_list(metadata, table);
    proof {
        let by_index = |parent: u32| child_index.spec_ids(parent, TagId::Spectrum);
        let by_records = |parent: u32| ids_in(ms, parent, TagId::Spectrum);
        assert forall|parent: u32| #[trigger] by_index(parent) == by_records(parent) by {
            assert(child_index.spec_ids(parent, TagId::Spectrum) == ids_in(
                ms,
                parent,
                TagId::Spectrum,
            ));
        }
        assert(by_index =~= by_records);
        assert(r.deep_view() =~~= run_of(ms, *schema, table@));
    }
    r
}

/// What the second decoder gives: the header must be in order and the
/// spectrum metadata must be a region of the file that is not empty; the
/// document then holds the run that the records describe.
pub open spec fn decode2_spec(
    b: Seq<u8>,
    ms: Seq<MetadatumModel>,
    schema: SchemaTree,
    table: Map<Seq<u8>, Seq<char>>,
) -> Result<MzMLModel, DecodeError> {
    match header_spec(b) {
        Err(e) => Err(e),
        Ok(h) => if h.off_spec_meta >= h.off_chrom_meta {
            Err(DecodeError::MetaOffsets)
        } else if h.off_chrom_meta > b.len() {
            Err(DecodeError::UnexpectedEnd)
        } else {
            Ok(MzMLModel { run: run_of(ms, schema, table), ..MzMLModel::empty() })
        },
    }
}

/// Decodes a file whose metadata records have been read already.
///
/// `bytes` is the file, `metadata` the records of its spectrum metadata.
pub fn decode2(bytes: &[u8], schema: &SchemaTree, metadata: &[Metadatum], table: &CvTable) -> (r:
    Result<MzML, DecodeError>)
    ensures
        match r {
            Ok(d) => decode2_spec(bytes@, records_view(metadata@), *schema, table@) == Ok::<
                MzMLModel,
                DecodeError,
            >(d.deep_view()),
            Err(e) => decode2_spec(bytes@, records_view(metadata@), *schema, table@) == Err::<
                MzMLModel,
                DecodeError,
            >(e),
        },
{
    let header = match parse_header(bytes) {
        Ok(h) => h,
        Err(e) => {
            return Err(e);
        },
    };
    if header.off_spec_meta >= header.off_chrom_meta {
        return Err(DecodeError::MetaOffsets);
    }
    if header.off_chrom_meta > bytes.len() as u64 {
        return Err(DecodeError::UnexpectedEnd);
    }
    let mut d = MzML::empty();
    d.run = parse_run(schema, metadata, table);
    assert(d.deep_view() =~~= (MzMLModel {
        run: run_of(records_view(metadata@), *schema, table@),
        ..MzMLModel::empty()
    }));
    Ok(d)
}

} // verus!
