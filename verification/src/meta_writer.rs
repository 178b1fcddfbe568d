//! Writing a metadata block from its columns.

use vstd::prelude::*;
use crate::bytes::{
    le_u32, le_u64, lemma_byte_window, lemma_u32s_round_trip, lemma_u32s_window,
    lemma_u64s_round_trip, lemma_u64s_window, u32s_le_bytes, u32s_to_le, u64s_le_bytes, u64s_to_le,
};
use crate::metadata::MetaShape;

verus! {

/// The columns of a metadata block.
pub struct MetaColumns {
    /// For each item where its records start, and behind the last.
    pub item_indices: Vec<u32>,
    /// The vocabulary code of each record.
    pub codes: Vec<u8>,
    /// The accession tail of each record.
    pub tails: Vec<u32>,
    /// The unit vocabulary code of each record.
    pub unit_codes: Vec<u8>,
    /// The unit accession tail of each record.
    pub unit_tails: Vec<u32>,
    /// The value kind of each record.
    pub kinds: Vec<u8>,
    /// The value index of each record.
    pub indices: Vec<u32>,
    /// The table of numbers, as binary64 bits.
    pub numbers: Vec<u64>,
    /// Where each text of the string table starts in the string bytes.
    pub text_offsets: Vec<u32>,
    /// How long each text of the string table is.
    pub text_lengths: Vec<u32>,
    /// The bytes of the texts.
    pub text_data: Vec<u8>,
}

/// The columns of a metadata block as mathematical values.
pub struct ColumnsModel {
    pub item_indices: Seq<u32>,
    pub codes: Seq<u8>,
    pub tails: Seq<u32>,
    pub unit_codes: Seq<u8>,
    pub unit_tails: Seq<u32>,
    pub kinds: Seq<u8>,
    pub indices: Seq<u32>,
    pub numbers: Seq<u64>,
    pub text_offsets: Seq<u32>,
    pub text_lengths: Seq<u32>,
    pub text_data: Seq<u8>,
}

impl View for MetaColumns {
    type V = ColumnsModel;

    open spec fn view(&self) -> ColumnsModel {
        ColumnsModel {
            item_indices: self.item_indices@,
            codes: self.codes@,
            tails: self.tails@,
            unit_codes: self.unit_codes@,
            unit_tails: self.unit_tails@,
            kinds: self.kinds@,
            indices: self.indices@,
            numbers: self.numbers@,
            text_offsets: self.text_offsets@,
            text_lengths: self.text_lengths@,
            text_data: self.text_data@,
        }
    }
}

impl ColumnsModel {
    /// Whether the columns have the lengths of one block: a prefix sum
    /// for each item and one more, one entry of each record column for
    /// each record, and an offset and a length for each text.
    pub open spec fn shaped(self) -> bool {
        &&& 1 <= self.item_indices.len() <= u32::MAX + 1
        &&& self.codes.len() <= u32::MAX
        &&& self.tails.len() == self.codes.len()
        &&& self.unit_codes.len() == self.codes.len()
        &&& self.unit_tails.len() == self.codes.len()
        &&& self.kinds.len() == self.codes.len()
        &&& self.indices.len() == self.codes.len()
        &&& self.numbers.len() <= u32::MAX
        &&& self.text_offsets.len() <= u32::MAX
        &&& self.text_lengths.len() == self.text_offsets.len()
    }

    /// The counts that fix the layout of the block.
    pub open spec fn shape(self) -> MetaShape {
        MetaShape {
            item_count: (self.item_indices.len() - 1) as u32,
            meta_count: self.codes.len() as u32,
            num_count: self.numbers.len() as u32,
            str_count: self.text_offsets.len() as u32,
        }
    }

    /// The eleven regions of the block, in the order in which they stand.
    pub open spec fn regions(self) -> Seq<Seq<u8>> {
        seq![
            u32s_le_bytes(self.item_indices),
            self.codes,
            u32s_le_bytes(self.tails),
            self.unit_codes,
            u32s_le_bytes(self.unit_tails),
            self.kinds,
            u32s_le_bytes(self.indices),
            u64s_le_bytes(self.numbers),
            u32s_le_bytes(self.text_offsets),
            u32s_le_bytes(self.text_lengths),
            self.text_data,
        ]
    }

    /// The bytes of the block: the regions one after the other.
    pub open spec fn layout(self) -> Seq<u8> {
        joined(self.regions(), 11)
    }
}

/// The first `n` of the pieces, laid end to end.
pub open spec fn joined(pieces: Seq<Seq<u8>>, n: int) -> Seq<u8>
    decreases n,
{
    if n <= 0 {
        Seq::empty()
    } else {
        joined(pieces, n - 1) + pieces[n - 1]
    }
}

/// The pieces from place `j` on, laid end to end.
pub open spec fn rest_from(pieces: Seq<Seq<u8>>, j: int) -> Seq<u8>
    decreases pieces.len() - j,
{
    if j < 0 || j >= pieces.len() {
        Seq::empty()
    } else {
        pieces[j] + rest_from(pieces, j + 1)
    }
}

/// All the pieces laid end to end are the first `j`, then piece `j`, then
/// the rest.
pub proof fn lemma_joined_splits(pieces: Seq<Seq<u8>>, j: int)
    requires
        0 <= j < pieces.len(),
    ensures
        joined(pieces, pieces.len() as int) == joined(pieces, j) + pieces[j] + rest_from(
            pieces,
            j + 1,
        ),
    decreases pieces.len() - j,
{
    let n = pieces.len() as int;
    if j == n - 1 {
        assert(rest_from(pieces, n) =~= Seq::<u8>::empty());
        assert(joined(pieces, j) + pieces[j] + Seq::<u8>::empty() =~= joined(pieces, j)
            + pieces[j]);
    } else {
        lemma_joined_splits(pieces, j + 1);
        let a = joined(pieces, j) + pieces[j];
        let b = pieces[j + 1];
        let c = rest_from(pieces, j + 2);
        assert(joined(pieces, j + 1) == a);
        assert(a + b + c =~= a + (b + c));
    }
}

/// Writes a metadata block.
pub fn write_meta_block(c: &MetaColumns) -> (out: Vec<u8>)
    ensures
        out@ == c@.layout(),
{
    let ghost r = c@.regions();
    let mut out = u32s_to_le(c.item_indices.as_slice());
    assert(out@ =~= joined(r, 1)) by {
        assert(joined(r, 0) =~= Seq::<u8>::empty());
    }
    out.extend_from_slice(c.codes.as_slice());
    assert(out@ == joined(r, 2));
    let tails = u32s_to_le(c.tails.as_slice());
    out.extend_from_slice(tails.as_slice());
    assert(out@ == joined(r, 3));
    out.extend_from_slice(c.unit_codes.as_slice());
    assert(out@ == joined(r, 4));
    let unit_tails = u32s_to_le(c.unit_tails.as_slice());
    out.extend_from_slice(unit_tails.as_slice());
    assert(out@ == joined(r, 5));
    out.extend_from_slice(c.kinds.as_slice());
    assert(out@ == joined(r, 6));
    let indices = u32s_to_le(c.indices.as_slice());
    out.extend_from_slice(indices.as_slice());
    assert(out@ == joined(r, 7));
    let numbers = u64s_to_le(c.numbers.as_slice());
    out.extend_from_slice(numbers.as_slice());
    assert(out@ == joined(r, 8));
    let offsets = u32s_to_le(c.text_offsets.as_slice());
    out.extend_from_slice(offsets.as_slice());
    assert(out@ == joined(r, 9));
    let lengths = u32s_to_le(c.text_lengths.as_slice());
    out.extend_from_slice(lengths.as_slice());
    assert(out@ == joined(r, 10));
    out.extend_from_slice(c.text_data.as_slice());
    out
}

/// The regions of a written block start where the counts of the block
/// put them.
pub proof fn lemma_layout_offsets(c: ColumnsModel)
    requires
        c.shaped(),
    ensures
        joined(c.regions(), 0).len() == 0,
        joined(c.regions(), 1).len() == c.shape().ref_codes(),
        joined(c.regions(), 2).len() == c.shape().accessions(),
        joined(c.regions(), 3).len() == c.shape().unit_refs(),
        joined(c.regions(), 4).len() == c.shape().unit_accessions(),
        joined(c.regions(), 5).len() == c.shape().value_kinds(),
        joined(c.regions(), 6).len() == c.shape().value_indices(),
        joined(c.regions(), 7).len() == c.shape().numeric_values(),
        joined(c.regions(), 8).len() == c.shape().string_offsets(),
        joined(c.regions(), 9).len() == c.shape().string_lengths(),
        joined(c.regions(), 10).len() == c.shape().strings_data(),
        c.layout().len() == c.shape().strings_data() + c.text_data.len(),
{
    reveal_with_fuel(joined, 12);
    lemma_u32s_round_trip(c.item_indices);
    lemma_u32s_round_trip(c.tails);
    lemma_u32s_round_trip(c.unit_tails);
    lemma_u32s_round_trip(c.indices);
    lemma_u64s_round_trip(c.numbers);
    lemma_u32s_round_trip(c.text_offsets);
    lemma_u32s_round_trip(c.text_lengths);
}

/// A byte of a region of single bytes is read back as it was written.
proof fn lemma_byte_column(c: ColumnsModel, j: int, col: Seq<u8>, m: int)
    requires
        c.shaped(),
        0 <= j < 11,
        c.regions()[j] == col,
        0 <= m < col.len(),
    ensures
        c.layout()[joined(c.regions(), j).len() + m] == col[m],
{
    lemma_joined_splits(c.regions(), j);
    lemma_byte_window(joined(c.regions(), j), col, rest_from(c.regions(), j + 1), m);
}

/// A value of a region of 32-bit values is read back as it was written.
proof fn lemma_u32_column(c: ColumnsModel, j: int, col: Seq<u32>, m: int)
    requires
        c.shaped(),
        0 <= j < 11,
        c.regions()[j] == u32s_le_bytes(col),
        0 <= m < col.len(),
    ensures
        le_u32(c.layout(), joined(c.regions(), j).len() + 4 * m) == col[m],
{
    lemma_joined_splits(c.regions(), j);
    lemma_u32s_window(joined(c.regions(), j), col, rest_from(c.regions(), j + 1), m);
}

/// The fields of record `m` are read back from a written block as they
/// were written.
pub proof fn lemma_record_reads_back(c: ColumnsModel, m: int)
    requires
        c.shaped(),
        0 <= m < c.codes.len(),
    ensures
        c.layout()[c.shape().ref_codes() + m] == c.codes[m],
        le_u32(c.layout(), c.shape().accessions() + 4 * m) == c.tails[m],
        c.layout()[c.shape().unit_refs() + m] == c.unit_codes[m],
        le_u32(c.layout(), c.shape().unit_accessions() + 4 * m) == c.unit_tails[m],
        c.layout()[c.shape().value_kinds() + m] == c.kinds[m],
        le_u32(c.layout(), c.shape().value_indices() + 4 * m) == c.indices[m],
{
    lemma_layout_offsets(c);
    lemma_byte_column(c, 1, c.codes, m);
    lemma_u32_column(c, 2, c.tails, m);
    lemma_byte_column(c, 3, c.unit_codes, m);
    lemma_u32_column(c, 4, c.unit_tails, m);
    lemma_byte_column(c, 5, c.kinds, m);
    lemma_u32_column(c, 6, c.indices, m);
}

/// The prefix sums, the numbers and the string table are read back from
/// a written block as they were written.
pub proof fn lemma_tables_read_back(c: ColumnsModel)
    requires
        c.shaped(),
    ensures
        forall|i: int|
            0 <= i < c.item_indices.len() ==> #[trigger] le_u32(c.layout(), 4 * i)
                == c.item_indices[i],
        forall|k: int|
            0 <= k < c.numbers.len() ==> #[trigger] le_u64(
                c.layout(),
                c.shape().numeric_values() + 8 * k,
            ) == c.numbers[k],
        forall|k: int|
            0 <= k < c.text_offsets.len() ==> #[trigger] le_u32(
                c.layout(),
                c.shape().string_offsets() + 4 * k,
            ) == c.text_offsets[k],
        forall|k: int|
            0 <= k < c.text_lengths.len() ==> #[trigger] le_u32(
                c.layout(),
                c.shape().string_lengths() + 4 * k,
            ) == c.text_lengths[k],
        forall|lo: int, hi: int|
            0 <= lo <= hi <= c.text_data.len() ==> #[trigger] c.layout().subrange(
                c.shape().strings_data() + lo,
                c.shape().strings_data() + hi,
            ) == c.text_data.subrange(lo, hi),
{
    lemma_layout_offsets(c);
    let s = c.shape();
    let b = c.layout();
    let r = c.regions();
    assert forall|i: int| 0 <= i < c.item_indices.len() implies #[trigger] le_u32(b, 4 * i)
        == c.item_indices[i] by {
        lemma_u32_column(c, 0, c.item_indices, i);
    }
    assert forall|k: int| 0 <= k < c.numbers.len() implies #[trigger] le_u64(
        b,
        s.numeric_values() + 8 * k,
    ) == c.numbers[k] by {
        lemma_joined_splits(r, 7);
        lemma_u64s_window(joined(r, 7), c.numbers, rest_from(r, 8), k);
    }
    assert forall|k: int| 0 <= k < c.text_offsets.len() implies #[trigger] le_u32(
        b,
        s.string_offsets() + 4 * k,
    ) == c.text_offsets[k] by {
        lemma_u32_column(c, 8, c.text_offsets, k);
    }
    assert forall|k: int| 0 <= k < c.text_lengths.len() implies #[trigger] le_u32(
        b,
        s.string_lengths() + 4 * k,
    ) == c.text_lengths[k] by {
        lemma_u32_column(c, 9, c.text_lengths, k);
    }
    assert forall|lo: int, hi: int| 0 <= lo <= hi <= c.text_data.len() implies #[trigger] b.subrange(
        s.strings_data() + lo,
        s.strings_data() + hi,
    ) == c.text_data.subrange(lo, hi) by {
        assert(b == joined(r, 10) + c.text_data);
        assert(b.subrange(s.strings_data() + lo, s.strings_data() + hi) =~= c.text_data.subrange(
            lo,
            hi,
        ));
    }
}

} // verus!
