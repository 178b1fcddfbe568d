//! What a run over many files decides for each file: whether it is an
//! input, what its output is called, whether it is passed over, and how
//! the run ends.

use vstd::pervasive::unreached;
use vstd::prelude::*;
use vstd::string::StringSliceAdditionalSpecFns;
use vstd::utf8::{encode_utf8, encode_utf8_valid_utf8, valid_utf8_concat};
use crate::text::{all_ascii, bytes_eq, lemma_ascii_is_utf8, text_from_utf8};

verus! {

/// The kind of file that an extension stands for.
#[derive(Clone, Copy, Debug, PartialEq, Eq)]
pub enum FileKind {
    /// A binary container: `b64` or `b32`.
    Binary,
    /// An mzML document: `mzml`.
    Mzml,
    /// Anything else.
    Other,
}

/// What a run converts its inputs to.
#[derive(Clone, Copy, Debug, PartialEq, Eq)]
pub enum Direction {
    /// mzML to a container with 64-bit elements.
    ToBinary64,
    /// mzML to a container with 32-bit elements.
    ToBinary32,
    /// A container to mzML.
    ToMzml,
}

/// The bytes of `b64`.
pub open spec fn ext_b64() -> Seq<u8> {
    seq![98u8, 54u8, 52u8]
}

/// The bytes of `b32`.
pub open spec fn ext_b32() -> Seq<u8> {
    seq![98u8, 51u8, 50u8]
}

/// The bytes of `mzml`.
pub open spec fn ext_mzml() -> Seq<u8> {
    seq![109u8, 122u8, 109u8, 108u8]
}

/// The bytes of `mzML`.
pub open spec fn ext_mzml_out() -> Seq<u8> {
    seq![109u8, 122u8, 77u8, 76u8]
}

/// The kind of file that an extension in lower case stands for.
pub open spec fn kind_of_ext(ext: Seq<u8>) -> FileKind {
    if ext == ext_b64() || ext == ext_b32() {
        FileKind::Binary
    } else if ext == ext_mzml() {
        FileKind::Mzml
    } else {
        FileKind::Other
    }
}

/// Returns the kind of file that an extension in lower case stands for.
pub fn file_kind(ext_lower: &str) -> (k: FileKind)
    ensures
        k == kind_of_ext(ext_lower.spec_bytes()),
{
    let b = ext_lower.as_bytes();
    let b64: [u8; 3] = [98, 54, 52];
    let b32: [u8; 3] = [98, 51, 50];
    let mzml: [u8; 4] = [109, 122, 109, 108];
    assert(b64@ =~= ext_b64());
    assert(b32@ =~= ext_b32());
    assert(mzml@ =~= ext_mzml());
    if bytes_eq(b, b64.as_slice()) || bytes_eq(b, b32.as_slice()) {
        FileKind::Binary
    } else if bytes_eq(b, mzml.as_slice()) {
        FileKind::Mzml
    } else {
        FileKind::Other
    }
}

/// Whether a run in the given direction takes files of the given kind.
pub open spec fn takes(d: Direction, k: FileKind) -> bool {
    match d {
        Direction::ToBinary64 | Direction::ToBinary32 => k == FileKind::Mzml,
        Direction::ToMzml => k == FileKind::Binary,
    }
}

/// Returns whether a run in the given direction takes files of the given
/// kind.
pub fn is_input(d: Direction, k: FileKind) -> (r: bool)
    ensures
        r == takes(d, k),
{
    match (d, k) {
        (Direction::ToBinary64, FileKind::Mzml) => true,
        (Direction::ToBinary32, FileKind::Mzml) => true,
        (Direction::ToMzml, FileKind::Binary) => true,
        _ => false,
    }
}

/// The extension of the files that a run writes.
pub open spec fn out_ext(d: Direction) -> Seq<u8> {
    match d {
        Direction::ToBinary64 => ext_b64(),
        Direction::ToBinary32 => ext_b32(),
        Direction::ToMzml => ext_mzml_out(),
    }
}

/// Whether a run writes elements of 32 bits.
pub fn narrows(d: Direction) -> (r: bool)
    ensures
        r == (d == Direction::ToBinary32),
{
    match d {
        Direction::ToBinary32 => true,
        _ => false,
    }
}

/// Joins a stem and an extension with a dot.
fn dotted(stem: &str, ext: &str) -> (r: String)
    ensures
        encode_utf8(r@) == stem.spec_bytes() + seq![46u8] + ext.spec_bytes(),
{
    let mut out: Vec<u8> = Vec::new();
    out.extend_from_slice(stem.as_bytes());
    let ghost head = out@;
    out.push(46u8);
    let ghost mid = out@;
    out.extend_from_slice(ext.as_bytes());
    proof {
        assert(head =~= stem.spec_bytes());
        assert(mid =~= head + seq![46u8]);
        assert(out@ =~= stem.spec_bytes() + seq![46u8] + ext.spec_bytes());
        assert(all_ascii(seq![46u8]));
        lemma_ascii_is_utf8(seq![46u8]);
        encode_utf8_valid_utf8(stem@);
        encode_utf8_valid_utf8(ext@);
        valid_utf8_concat(head, seq![46u8]);
        valid_utf8_concat(mid, ext.spec_bytes());
    }
    let ghost bytes = out@;
    match text_from_utf8(out) {
        Some(s) => {
            proof {
                vstd::utf8::decode_utf8_encode_utf8(bytes);
            }
            s
        },
        None => unreached(),
    }
}

/// Returns the name of the binary file written for an mzML file with the
/// given stem and extension in lower case: the stem, a dot and
/// `out_ext`; none for any other file.
pub fn out_name_for_mzml_file(stem: &str, ext_lower: &str, out_ext: &str) -> (r: Option<String>)
    ensures
        match r {
            Some(name) => kind_of_ext(ext_lower.spec_bytes()) == FileKind::Mzml && encode_utf8(
                name@,
            ) == stem.spec_bytes() + seq![46u8] + out_ext.spec_bytes(),
            None => kind_of_ext(ext_lower.spec_bytes()) != FileKind::Mzml,
        },
{
    match file_kind(ext_lower) {
        FileKind::Mzml => Some(dotted(stem, out_ext)),
        _ => None,
    }
}

/// Returns the name of the mzML file written for a binary file with the
/// given stem and extension in lower case: the stem and `.mzML`; none
/// for any other file.
pub fn out_name_for_bin_file_as_mzml(stem: &str, ext_lower: &str) -> (r: Option<String>)
    ensures
        match r {
            Some(name) => kind_of_ext(ext_lower.spec_bytes()) == FileKind::Binary && encode_utf8(
                name@,
            ) == stem.spec_bytes() + seq![46u8] + ext_mzml_out(),
            None => kind_of_ext(ext_lower.spec_bytes()) != FileKind::Binary,
        },
{
    match file_kind(ext_lower) {
        FileKind::Binary => {
            let ext = "mzML";
            proof {
                reveal_strlit("mzML");
                let chars = seq!['m', 'z', 'M', 'L'];
                assert(ext@ =~= chars);
                assert(vstd::utf8::is_ascii_chars(chars));
                vstd::utf8::is_ascii_chars_encode_utf8(chars);
                assert(ext.spec_bytes() =~= ext_mzml_out());
            }
            Some(dotted(stem, ext))
        },
        _ => None,
    }
}

/// The bytes of the name of the output for an input with the given stem
/// and extension: the stem, a dot and the extension of the output; none
/// where the run does not take the input.
pub open spec fn out_name_bytes(stem: Seq<u8>, ext_lower: Seq<u8>, d: Direction) -> Option<
    Seq<u8>,
> {
    if takes(d, kind_of_ext(ext_lower)) {
        Some(stem + seq![46u8] + out_ext(d))
    } else {
        None
    }
}

/// Returns the name of the output for an input with the given stem and
/// extension in lower case.
pub fn out_name(stem: &str, ext_lower: &str, d: Direction) -> (r: Option<String>)
    ensures
        match r {
            Some(name) => out_name_bytes(stem.spec_bytes(), ext_lower.spec_bytes(), d) == Some(
                encode_utf8(name@),
            ),
            None => out_name_bytes(stem.spec_bytes(), ext_lower.spec_bytes(), d) is None,
        },
{
    match d {
        Direction::ToBinary64 => {
            let ext = "b64";
            proof {
                reveal_strlit("b64");
                let chars = seq!['b', '6', '4'];
                assert(ext@ =~= chars);
                assert(vstd::utf8::is_ascii_chars(chars));
                vstd::utf8::is_ascii_chars_encode_utf8(chars);
                assert(ext.spec_bytes() =~= ext_b64());
            }
            out_name_for_mzml_file(stem, ext_lower, ext)
        },
        Direction::ToBinary32 => {
            let ext = "b32";
            proof {
                reveal_strlit("b32");
                let chars = seq!['b', '3', '2'];
                assert(ext@ =~= chars);
                assert(vstd::utf8::is_ascii_chars(chars));
                vstd::utf8::is_ascii_chars_encode_utf8(chars);
                assert(ext.spec_bytes() =~= ext_b32());
            }
            out_name_for_mzml_file(stem, ext_lower, ext)
        },
        Direction::ToMzml => out_name_for_bin_file_as_mzml(stem, ext_lower),
    }
}

/// Whether an input is passed over: unless outputs are overwritten, when
/// its output is a file that is not empty.  `existing` is the length of
/// that file, where there is one.
pub open spec fn is_passed_over(overwrite: bool, existing: Option<u64>) -> bool {
    !overwrite && (existing matches Some(len) && len > 0)
}

/// Returns whether an input is passed over.
pub fn should_skip(overwrite: bool, existing: Option<u64>) -> (r: bool)
    ensures
        r == is_passed_over(overwrite, existing),
{
    if overwrite {
        return false;
    }
    match existing {
        Some(len) => len > 0,
        None => false,
    }
}

/// What became of one input.
#[derive(Clone, Copy, Debug, PartialEq, Eq)]
pub enum Outcome {
    Converted,
    Failed,
    Skipped,
}

/// How many inputs of a run were converted, failed and were passed over.
#[derive(Clone, Copy, Debug, PartialEq, Eq)]
pub struct Tally {
    pub ok: u32,
    pub failed: u32,
    pub skipped: u32,
}

/// One more, up to the largest count.
pub open spec fn one_more(n: u32) -> u32 {
    if n < u32::MAX {
        (n + 1) as u32
    } else {
        n
    }
}

/// The counts after one more input.
pub open spec fn recorded(t: Tally, o: Outcome) -> Tally {
    match o {
        Outcome::Converted => Tally { ok: one_more(t.ok), ..t },
        Outcome::Failed => Tally { failed: one_more(t.failed), ..t },
        Outcome::Skipped => Tally { skipped: one_more(t.skipped), ..t },
    }
}

impl Tally {
    /// The counts before the first input.
    pub fn new() -> (t: Tally)
        ensures
            t == (Tally { ok: 0, failed: 0, skipped: 0 }),
    {
        Tally { ok: 0, failed: 0, skipped: 0 }
    }

    /// Counts one more input.
    pub fn record(&mut self, o: Outcome)
        ensures
            *final(self) == recorded(*old(self), o),
    {
        match o {
            Outcome::Converted => {
                if self.ok < u32::MAX {
                    self.ok = self.ok + 1;
                }
            },
            Outcome::Failed => {
                if self.failed < u32::MAX {
                    self.failed = self.failed + 1;
                }
            },
            Outcome::Skipped => {
                if self.skipped < u32::MAX {
                    self.skipped = self.skipped + 1;
                }
            },
        }
    }

    /// Whether the run succeeded: no input failed.
    pub fn succeeded(&self) -> (r: bool)
        ensures
            r == (self.failed == 0),
    {
        self.failed == 0
    }
}

} // verus!
