use octo::batch::{
    file_kind, is_input, narrows, out_name, out_name_for_bin_file_as_mzml, out_name_for_mzml_file,
    should_skip, Direction, FileKind, Outcome, Tally,
};
use octo::items::{select_items, ItemsSpec};

#[test]
fn extensions_stand_for_kinds_of_file() {
    assert_eq!(file_kind("b64"), FileKind::Binary);
    assert_eq!(file_kind("b32"), FileKind::Binary);
    assert_eq!(file_kind("mzml"), FileKind::Mzml);
    assert_eq!(file_kind("mzML"), FileKind::Other);
    assert_eq!(file_kind("B64"), FileKind::Other);
    assert_eq!(file_kind(""), FileKind::Other);
    assert_eq!(file_kind("b6"), FileKind::Other);
    assert_eq!(file_kind("xml"), FileKind::Other);
}

#[test]
fn each_direction_takes_its_inputs() {
    assert!(is_input(Direction::ToBinary64, FileKind::Mzml));
    assert!(is_input(Direction::ToBinary32, FileKind::Mzml));
    assert!(is_input(Direction::ToMzml, FileKind::Binary));
    assert!(!is_input(Direction::ToBinary64, FileKind::Binary));
    assert!(!is_input(Direction::ToMzml, FileKind::Mzml));
    assert!(!is_input(Direction::ToMzml, FileKind::Other));
    assert!(!is_input(Direction::ToBinary32, FileKind::Other));
    assert!(narrows(Direction::ToBinary32));
    assert!(!narrows(Direction::ToBinary64));
    assert!(!narrows(Direction::ToMzml));
}

#[test]
fn output_is_named_after_its_input() {
    assert_eq!(out_name("tiny", "mzml", Direction::ToBinary64), Some("tiny.b64".to_string()));
    assert_eq!(out_name("tiny", "mzml", Direction::ToBinary32), Some("tiny.b32".to_string()));
    assert_eq!(out_name("tiny", "b64", Direction::ToMzml), Some("tiny.mzML".to_string()));
    assert_eq!(out_name("tiny", "b32", Direction::ToMzml), Some("tiny.mzML".to_string()));
    assert_eq!(out_name("a.b.c", "mzml", Direction::ToBinary64), Some("a.b.c.b64".to_string()));
    assert_eq!(out_name("", "mzml", Direction::ToBinary64), Some(".b64".to_string()));
    assert_eq!(out_name("süß", "b64", Direction::ToMzml), Some("süß.mzML".to_string()));
    assert_eq!(out_name("tiny", "b64", Direction::ToBinary64), None);
    assert_eq!(out_name("tiny", "mzml", Direction::ToMzml), None);
    assert_eq!(out_name("tiny", "txt", Direction::ToMzml), None);
}

#[test]
fn finished_outputs_are_passed_over() {
    assert!(should_skip(false, Some(1)));
    assert!(should_skip(false, Some(u64::MAX)));
    assert!(!should_skip(false, Some(0)));
    assert!(!should_skip(false, None));
    assert!(!should_skip(true, Some(1)));
    assert!(!should_skip(true, None));
}

#[test]
fn outcomes_are_counted() {
    let mut t = Tally::new();
    assert_eq!(t, Tally { ok: 0, failed: 0, skipped: 0 });
    assert!(t.succeeded());
    t.record(Outcome::Converted);
    t.record(Outcome::Skipped);
    t.record(Outcome::Converted);
    assert_eq!(t, Tally { ok: 2, failed: 0, skipped: 1 });
    assert!(t.succeeded());
    t.record(Outcome::Failed);
    assert_eq!(t, Tally { ok: 2, failed: 1, skipped: 1 });
    assert!(!t.succeeded());
    let mut full = Tally { ok: u32::MAX, failed: u32::MAX, skipped: u32::MAX - 1 };
    full.record(Outcome::Converted);
    full.record(Outcome::Failed);
    full.record(Outcome::Skipped);
    full.record(Outcome::Skipped);
    assert_eq!(full, Tally { ok: u32::MAX, failed: u32::MAX, skipped: u32::MAX });
}

#[test]
fn nothing_is_shown_of_an_empty_selection() {
    assert_eq!(select_items(10, &ItemsSpec::One(3)), Some((3, 4, true)));
    assert_eq!(select_items(10, &ItemsSpec::One(10)), None);
    assert_eq!(select_items(0, &ItemsSpec::One(0)), None);
    assert_eq!(select_items(10, &ItemsSpec::Range { start: 0, end_exclusive: 100 }), Some((0, 10, false)));
    assert_eq!(select_items(10, &ItemsSpec::Range { start: 5, end_exclusive: 5 }), None);
    assert_eq!(select_items(10, &ItemsSpec::Range { start: 10, end_exclusive: 12 }), None);
    assert_eq!(select_items(10, &ItemsSpec::Range { start: 7, end_exclusive: 3 }), None);
    assert_eq!(select_items(10, &ItemsSpec::Range { start: 9, end_exclusive: 10 }), Some((9, 10, false)));
}

#[test]
fn mzml_files_are_renamed_to_any_extension() {
    assert_eq!(out_name_for_mzml_file("tiny", "mzml", "b64"), Some("tiny.b64".to_string()));
    assert_eq!(out_name_for_mzml_file("tiny", "mzml", "bin"), Some("tiny.bin".to_string()));
    assert_eq!(out_name_for_mzml_file("tiny", "mzml", ""), Some("tiny.".to_string()));
    assert_eq!(out_name_for_mzml_file("übung", "mzml", "ä"), Some("übung.ä".to_string()));
    assert_eq!(out_name_for_mzml_file("tiny", "b64", "b64"), None);
    assert_eq!(out_name_for_mzml_file("tiny", "", "b64"), None);
}

#[test]
fn binary_files_are_renamed_to_mzml() {
    assert_eq!(out_name_for_bin_file_as_mzml("tiny", "b64"), Some("tiny.mzML".to_string()));
    assert_eq!(out_name_for_bin_file_as_mzml("tiny", "b32"), Some("tiny.mzML".to_string()));
    assert_eq!(out_name_for_bin_file_as_mzml("", "b32"), Some(".mzML".to_string()));
    assert_eq!(out_name_for_bin_file_as_mzml("tiny", "mzml"), None);
    assert_eq!(out_name_for_bin_file_as_mzml("tiny", "b16"), None);
}
