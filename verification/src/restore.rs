//! Putting the elements of the arrays back into a document that was
//! read from its tree.

use vstd::prelude::*;
use crate::binary_array::{ensure_float_flag, find_kind, flagged, lemma_first_of_kind};
use crate::document::{MzML, MzMLModel};
use crate::flatten::{doc_chromatograms, doc_spectra, x_place, y_place};
use crate::precursor::{ACC_INTENSITY_ARRAY, ACC_MZ_ARRAY, ACC_TIME_ARRAY};
use crate::run::{
    BinaryDataArray, BinaryDataArrayList, BinaryDataArrayListModel, BinaryDataArrayModel,
    Chromatogram, ChromatogramListModel, ChromatogramModel, RunModel, Spectrum, SpectrumListModel,
    SpectrumModel,
};

verus! {

/// An array with the elements of a decoded array in place of its own,
/// and with its element format flagged as that of the decoded array.
pub open spec fn with_elements(a: BinaryDataArrayModel, from: BinaryDataArrayModel)
    -> BinaryDataArrayModel {
    flagged(
        BinaryDataArrayModel {
            decoded_binary_f32: from.decoded_binary_f32,
            decoded_binary_f64: from.decoded_binary_f64,
            ..a
        },
        from.is_f32 == Some(true),
    )
}

/// A list of arrays with the elements of `x` in its X array and those
/// of `y` in its Y array.  The X array is the first with a term of the
/// axis, else the first; the Y array is the first with the term
/// "intensity array", else the second, else the only one.  A list
/// without arrays stays as it is.
pub open spec fn refilled(
    l: BinaryDataArrayListModel,
    x: BinaryDataArrayModel,
    y: BinaryDataArrayModel,
    axis: u32,
) -> BinaryDataArrayListModel {
    let arrays = l.binary_data_arrays;
    if arrays.len() == 0 {
        l
    } else {
        let xi = x_place(l, axis);
        let yi = y_place(l);
        let with_x = arrays.update(xi, with_elements(arrays[xi], x));
        BinaryDataArrayListModel {
            binary_data_arrays: with_x.update(yi, with_elements(with_x[yi], y)),
            ..l
        }
    }
}

/// The list of arrays of an item with the elements that were decoded
/// for the item, where a pair of arrays was decoded.
pub open spec fn refilled_list(
    own: Option<BinaryDataArrayListModel>,
    decoded: Option<BinaryDataArrayListModel>,
    axis: u32,
) -> Option<BinaryDataArrayListModel> {
    match own {
        Some(l) => match decoded {
            Some(p) => if p.binary_data_arrays.len() == 2 {
                Some(refilled(l, p.binary_data_arrays[0], p.binary_data_arrays[1], axis))
            } else {
                Some(l)
            },
            None => Some(l),
        },
        None => None,
    }
}

/// A spectrum with the elements that were decoded for it.
pub open spec fn restored_spectrum(s: SpectrumModel, decoded: SpectrumModel) -> SpectrumModel {
    SpectrumModel {
        binary_data_array_list: refilled_list(
            s.binary_data_array_list,
            decoded.binary_data_array_list,
            ACC_MZ_ARRAY,
        ),
        ..s
    }
}

/// A chromatogram with the elements that were decoded for it.
pub open spec fn restored_chromatogram(c: ChromatogramModel, decoded: ChromatogramModel)
    -> ChromatogramModel {
    ChromatogramModel {
        binary_data_array_list: refilled_list(
            c.binary_data_array_list,
            decoded.binary_data_array_list,
            ACC_TIME_ARRAY,
        ),
        ..c
    }
}

/// Spectra with the elements that were decoded for them, each for each.
pub open spec fn restored_spectra(own: Seq<SpectrumModel>, decoded: Seq<SpectrumModel>) -> Seq<
    SpectrumModel,
> {
    Seq::new(own.len(), |i: int| restored_spectrum(own[i], decoded[i]))
}

/// Chromatograms with the elements that were decoded for them.
pub open spec fn restored_chromatograms(
    own: Seq<ChromatogramModel>,
    decoded: Seq<ChromatogramModel>,
) -> Seq<ChromatogramModel> {
    Seq::new(own.len(), |i: int| restored_chromatogram(own[i], decoded[i]))
}

/// Whether a document has as many spectra and chromatograms as were
/// decoded.
pub open spec fn counts_match(
    d: MzMLModel,
    spectra: Seq<SpectrumModel>,
    chromatograms: Seq<ChromatogramModel>,
) -> bool {
    doc_spectra(d).len() == spectra.len() && doc_chromatograms(d).len() == chromatograms.len()
}

/// A document with the elements that were decoded for its spectra and
/// chromatograms.
pub open spec fn restored(
    d: MzMLModel,
    spectra: Seq<SpectrumModel>,
    chromatograms: Seq<ChromatogramModel>,
) -> MzMLModel {
    MzMLModel {
        run: RunModel {
            spectrum_list: match d.run.spectrum_list {
                Some(l) => Some(
                    SpectrumListModel { spectra: restored_spectra(l.spectra, spectra), ..l },
                ),
                None => None,
            },
            chromatogram_list: match d.run.chromatogram_list {
                Some(l) => Some(
                    ChromatogramListModel {
                        chromatograms: restored_chromatograms(l.chromatograms, chromatograms),
                        ..l
                    },
                ),
                None => None,
            },
            ..d.run
        },
        ..d
    }
}

/// Puts the elements of a decoded array into an array in place of its
/// own, and flags its element format.
fn set_elements(a: &mut BinaryDataArray, from: BinaryDataArray)
    ensures
        final(a).deep_view() == with_elements(old(a).deep_view(), from.deep_view()),
{
    let narrow = match from.is_f32 {
        Some(true) => true,
        _ => false,
    };
    a.decoded_binary_f32 = from.decoded_binary_f32;
    a.decoded_binary_f64 = from.decoded_binary_f64;
    assert(a.deep_view() =~~= (BinaryDataArrayModel {
        decoded_binary_f32: from.deep_view().decoded_binary_f32,
        decoded_binary_f64: from.deep_view().decoded_binary_f64,
        ..old(a).deep_view()
    }));
    ensure_float_flag(a, narrow);
}

/// Puts the elements of `x` and `y` into the X array and the Y array of
/// a list.
fn refill(list: &mut BinaryDataArrayList, x: BinaryDataArray, y: BinaryDataArray, axis: u32)
    ensures
        final(list).deep_view() == refilled(old(list).deep_view(), x.deep_view(), y.deep_view(), axis),
{
    let n = list.binary_data_arrays.len();
    if n == 0 {
        return ;
    }
    let ghost arrays = list.deep_view().binary_data_arrays;
    proof {
        lemma_first_of_kind(arrays, axis);
        lemma_first_of_kind(arrays, ACC_INTENSITY_ARRAY);
    }
    let xi: usize = match find_kind(list, axis) {
        Some(i) => i,
        None => 0,
    };
    let yi: usize = match find_kind(list, ACC_INTENSITY_ARRAY) {
        Some(i) => i,
        None => if n > 1 {
            1
        } else {
            0
        },
    };
    set_elements(&mut list.binary_data_arrays[xi], x);
    let ghost with_x = list.deep_view().binary_data_arrays;
    assert(with_x =~= arrays.update(xi as int, with_elements(arrays[xi as int], x.deep_view())));
    set_elements(&mut list.binary_data_arrays[yi], y);
    assert(list.deep_view().binary_data_arrays =~= with_x.update(
        yi as int,
        with_elements(with_x[yi as int], y.deep_view()),
    ));
}

/// Gives the list of arrays of an item the elements that were decoded
/// for the item.
pub fn refill_list(
    own: Option<BinaryDataArrayList>,
    decoded: Option<BinaryDataArrayList>,
    axis: u32,
) -> (r: Option<BinaryDataArrayList>)
    ensures
        r.deep_view() == refilled_list(own.deep_view(), decoded.deep_view(), axis),
{
    match own {
        None => None,
        Some(l) => {
            let mut l = l;
            match decoded {
                None => Some(l),
                Some(p) => {
                    let mut p = p;
                    if p.binary_data_arrays.len() != 2 {
                        return Some(l);
                    }
                    let ghost pm = p.deep_view().binary_data_arrays;
                    assert(pm[0] == p.binary_data_arrays@[0].deep_view());
                    assert(pm[1] == p.binary_data_arrays@[1].deep_view());
                    let y = match p.binary_data_arrays.pop() {
                        Some(a) => a,
                        None => BinaryDataArray::empty(),
                    };
                    let x = match p.binary_data_arrays.pop() {
                        Some(a) => a,
                        None => BinaryDataArray::empty(),
                    };
                    refill(&mut l, x, y, axis);
                    Some(l)
                },
            }
        },
    }
}

/// Gives every spectrum the elements that were decoded for it.
pub fn restore_spectra(own: &mut Vec<Spectrum>, decoded: Vec<Spectrum>)
    requires
        old(own)@.len() == decoded@.len(),
    ensures
        final(own).deep_view() == restored_spectra(old(own).deep_view(), decoded.deep_view()),
{
    let ghost start = own.deep_view();
    let ghost from = decoded.deep_view();
    let mut decoded = decoded;
    let n = own.len();
    let mut i: usize = 0;
    while i < n
        invariant
            n == own@.len(),
            n == decoded@.len(),
            start.len() == n,
            from.len() == n,
            i <= n,
            forall|j: int|
                0 <= j < i ==> #[trigger] own.deep_view()[j] == restored_spectrum(start[j], from[j]),
            forall|j: int| i <= j < n ==> #[trigger] own.deep_view()[j] == start[j],
            forall|j: int| i <= j < n ==> #[trigger] decoded.deep_view()[j] == from[j],
        decreases n - i,
    {
        let ghost own_before = own.deep_view();
        let ghost own_was = own@;
        let ghost dec_before = decoded.deep_view();
        let ghost dec_was = decoded@;
        let mut s = Spectrum::empty();
        core::mem::swap(&mut s, &mut own[i]);
        let mut d = Spectrum::empty();
        core::mem::swap(&mut d, &mut decoded[i]);
        assert(own_before[i as int] == own_was[i as int].deep_view());
        assert(dec_before[i as int] == dec_was[i as int].deep_view());
        assert(s == own_was[i as int]);
        assert(d == dec_was[i as int]);
        let mut skel: Option<BinaryDataArrayList> = None;
        core::mem::swap(&mut skel, &mut s.binary_data_array_list);
        let mut got: Option<BinaryDataArrayList> = None;
        core::mem::swap(&mut got, &mut d.binary_data_array_list);
        s.binary_data_array_list = refill_list(skel, got, ACC_MZ_ARRAY);
        assert(s.deep_view() =~~= restored_spectrum(start[i as int], from[i as int]));
        own[i] = s;
        proof {
            assert forall|j: int| 0 <= j < n && j != i implies #[trigger] own.deep_view()[j]
                == own_before[j] by {
                assert(own@[j] == own_was[j]);
                assert(own_before[j] == own_was[j].deep_view());
            }
            assert forall|j: int| 0 <= j < n && j != i implies #[trigger] decoded.deep_view()[j]
                == dec_before[j] by {
                assert(decoded@[j] == dec_was[j]);
                assert(dec_before[j] == dec_was[j].deep_view());
            }
        }
        i = i + 1;
    }
    assert(own.deep_view() =~= restored_spectra(start, from));
}

/// Gives every chromatogram the elements that were decoded for it.
pub fn restore_chromatograms(own: &mut Vec<Chromatogram>, decoded: Vec<Chromatogram>)
    requires
        old(own)@.len() == decoded@.len(),
    ensures
        final(own).deep_view() == restored_chromatograms(
            old(own).deep_view(),
            decoded.deep_view(),
        ),
{
    let ghost start = own.deep_view();
    let ghost from = decoded.deep_view();
    let mut decoded = decoded;
    let n = own.len();
    let mut i: usize = 0;
    while i < n
        invariant
            n == own@.len(),
            n == decoded@.len(),
            start.len() == n,
            from.len() == n,
            i <= n,
            forall|j: int|
                0 <= j < i ==> #[trigger] own.deep_view()[j] == restored_chromatogram(
                    start[j],
                    from[j],
                ),
            forall|j: int| i <= j < n ==> #[trigger] own.deep_view()[j] == start[j],
            forall|j: int| i <= j < n ==> #[trigger] decoded.deep_view()[j] == from[j],
        decreases n - i,
    {
        let ghost own_before = own.deep_view();
        let ghost own_was = own@;
        let ghost dec_before = decoded.deep_view();
        let ghost dec_was = decoded@;
        let mut c = Chromatogram::empty();
        core::mem::swap(&mut c, &mut own[i]);
        let mut d = Chromatogram::empty();
        core::mem::swap(&mut d, &mut decoded[i]);
        assert(own_before[i as int] == own_was[i as int].deep_view());
        assert(dec_before[i as int] == dec_was[i as int].deep_view());
        assert(c == own_was[i as int]);
        assert(d == dec_was[i as int]);
        let mut skel: Option<BinaryDataArrayList> = None;
        core::mem::swap(&mut skel, &mut c.binary_data_array_list);
        let mut got: Option<BinaryDataArrayList> = None;
        core::mem::swap(&mut got, &mut d.binary_data_array_list);
        c.binary_data_array_list = refill_list(skel, got, ACC_TIME_ARRAY);
        assert(c.deep_view() =~~= restored_chromatogram(start[i as int], from[i as int]));
        own[i] = c;
        proof {
            assert forall|j: int| 0 <= j < n && j != i implies #[trigger] own.deep_view()[j]
                == own_before[j] by {
                assert(own@[j] == own_was[j]);
                assert(own_before[j] == own_was[j].deep_view());
            }
            assert forall|j: int| 0 <= j < n && j != i implies #[trigger] decoded.deep_view()[j]
                == dec_before[j] by {
                assert(decoded@[j] == dec_was[j]);
                assert(dec_before[j] == dec_was[j].deep_view());
            }
        }
        i = i + 1;
    }
    assert(own.deep_view() =~= restored_chromatograms(start, from));
}

/// Gives a document that was read from its tree the elements that were
/// decoded for its spectra and chromatograms.
pub fn restore(doc: MzML, spectra: Vec<Spectrum>, chromatograms: Vec<Chromatogram>) -> (r: MzML)
    requires
        counts_match(doc.deep_view(), spectra.deep_view(), chromatograms.deep_view()),
    ensures
        r.deep_view() == restored(doc.deep_view(), spectra.deep_view(), chromatograms.deep_view()),
{
    let ghost dm = doc.deep_view();
    let mut doc = doc;
    let mut sl: Option<crate::run::SpectrumList> = None;
    core::mem::swap(&mut sl, &mut doc.run.spectrum_list);
    doc.run.spectrum_list = match sl {
        Some(l) => {
            let mut l = l;
            restore_spectra(&mut l.spectra, spectra);
            Some(l)
        },
        None => None,
    };
    let mut cl: Option<crate::run::ChromatogramList> = None;
    core::mem::swap(&mut cl, &mut doc.run.chromatogram_list);
    doc.run.chromatogram_list = match cl {
        Some(l) => {
            let mut l = l;
            restore_chromatograms(&mut l.chromatograms, chromatograms);
            Some(l)
        },
        None => None,
    };
    assert(doc.deep_view() =~~= restored(dm, spectra.deep_view(), chromatograms.deep_view()));
    doc
}

} // verus!
