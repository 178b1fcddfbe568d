//! What the decoder makes of a file that holds nothing.

use vstd::prelude::*;
use crate::decode::{
    blocks_spec, chromatograms_spec, decode_spec, global_meta_end, opened_spec, parts_of,
    parts_spec, regions_spec, spectra_spec,
};
use crate::global::GlobalSectionsModel;
use crate::header::{
    has_magic, HDR_FLAG_CHROM_META_COMP, HDR_FLAG_GLOBAL_META_COMP, HDR_FLAG_SPEC_META_COMP,
    Header, header_fields, HEADER_SIZE, header_spec,
};
use crate::run::{ChromatogramModel, SpectrumModel};

verus! {

/// Whether a header says that the file holds nothing: no items, no
/// records, no blocks, no metadata region and no container; the two
/// indices may be said to lie anywhere in the first `len` bytes.
pub open spec fn holds_nothing(h: Header, len: nat) -> bool {
    &&& h.spectrum_count == 0 && h.chrom_count == 0
    &&& h.spec_meta_count == 0 && h.spec_num_count == 0 && h.spec_str_count == 0
    &&& h.chrom_meta_count == 0 && h.chrom_num_count == 0 && h.chrom_str_count == 0
    &&& h.global_meta_count == 0 && h.global_num_count == 0 && h.global_str_count == 0
    &&& h.block_count_spect_x == 0 && h.block_count_spect_y == 0
    &&& h.block_count_chrom_x == 0 && h.block_count_chrom_y == 0
    &&& h.off_spec_index <= len && h.off_chrom_index <= len
    &&& h.off_spec_meta == 0 && h.off_chrom_meta == 0 && h.off_global_meta == 0
    &&& h.off_container_spect_x == 0 && h.off_container_spect_y == 0
    &&& h.off_container_chrom_x == 0 && h.off_container_chrom_y == 0
    &&& !h.spec_has_flag(HDR_FLAG_SPEC_META_COMP) && !h.spec_has_flag(HDR_FLAG_CHROM_META_COMP)
        && !h.spec_has_flag(HDR_FLAG_GLOBAL_META_COMP)
}

/// A file that starts with the magic tag and the byte zero for the byte
/// order, and whose header says that it holds nothing, decodes: to a
/// document without global sections, whose run has a list of no spectra
/// and a list of no chromatograms.
pub proof fn lemma_empty_file_decodes(b: Seq<u8>, table: Map<Seq<u8>, Seq<char>>)
    requires
        b.len() >= HEADER_SIZE,
        b.len() <= usize::MAX,
        has_magic(b),
        b[4] == 0,
        holds_nothing(header_fields(b), b.len()),
    ensures
        decode_spec(b, table) is Ok,
        ({
            let d = decode_spec(b, table).unwrap();
            &&& d.cv_list is None
            &&& d.referenceable_param_group_list is None
            &&& d.sample_list is None
            &&& d.instrument_list is None
            &&& d.software_list is None
            &&& d.data_processing_list is None
            &&& d.scan_settings_list is None
            &&& d.file_description == GlobalSectionsModel::empty().file_description
            &&& d.run.spectrum_list is Some
            &&& d.run.spectrum_list.unwrap().spectra == Seq::<SpectrumModel>::empty()
            &&& d.run.chromatogram_list is Some
            &&& d.run.chromatogram_list.unwrap().chromatograms == Seq::<
                ChromatogramModel,
            >::empty()
        }),
{
    let h = header_fields(b);
    assert(header_spec(b) == Ok::<Header, crate::error::DecodeError>(h));
    crate::file_laws::lemma_min_nonzero_of_four(0, 0, 0, 0);
    assert(global_meta_end(b, h) == b.len());
    let g = regions_spec(b, h);
    assert(g is Ok);
    assert(g.unwrap().spec_meta =~= Seq::<u8>::empty());
    assert(g.unwrap().chrom_meta =~= Seq::<u8>::empty());
    assert(g.unwrap().global_meta =~= Seq::<u8>::empty());
    let o = opened_spec(b, h, g.unwrap());
    assert(o is Ok);
    let p = blocks_spec(h, g.unwrap(), o.unwrap(), table);
    assert(p is Ok);
    assert(parts_of(b, h, g.unwrap(), table) == p);
    assert(parts_spec(b, table) == p);
    assert(spectra_spec(p.unwrap(), table, 0) == Ok::<Seq<SpectrumModel>, crate::error::DecodeError>(
        Seq::empty(),
    ));
    assert(chromatograms_spec(p.unwrap(), table, 0) == Ok::<
        Seq<ChromatogramModel>,
        crate::error::DecodeError,
    >(Seq::empty()));
}

} // verus!
