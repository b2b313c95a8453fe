use movefmt::spec_edits::{apply_edits_in_place, get_nth_line, TextEdit};

fn edit(start: usize, end: usize, text: &str) -> TextEdit {
    TextEdit { start, end, text: text.to_string() }
}

#[test]
fn nth_line_as_lines_cuts() {
    let s = "a\nb\r\nc";
    assert_eq!(get_nth_line(s, 0), Some("a"));
    assert_eq!(get_nth_line(s, 1), Some("b"));
    assert_eq!(get_nth_line(s, 2), Some("c"));
    assert_eq!(get_nth_line(s, 3), None);
    assert_eq!(get_nth_line("a\n", 1), None);
    assert_eq!(get_nth_line("", 0), None);
    assert_eq!(get_nth_line("\n\nx", 1), Some(""));
}

#[test]
fn edits_apply_against_unedited_offsets() {
    let mut buf = "hello world".to_string();
    apply_edits_in_place(&mut buf, vec![edit(6, 11, "there"), edit(0, 5, "HELLO")]);
    assert_eq!(buf, "HELLO there");
}

#[test]
fn overlapping_edit_is_skipped() {
    let mut buf = "hello world".to_string();
    apply_edits_in_place(&mut buf, vec![edit(3, 8, "B"), edit(0, 5, "A")]);
    assert_eq!(buf, "A world");
}

#[test]
fn edits_past_the_end_are_cut() {
    let mut buf = "abc".to_string();
    apply_edits_in_place(&mut buf, vec![edit(20, 30, "!")]);
    assert_eq!(buf, "abc!");
    let mut buf = "abc".to_string();
    apply_edits_in_place(&mut buf, vec![edit(1, 30, "Z")]);
    assert_eq!(buf, "aZ");
}

#[test]
fn insertions_at_one_place_keep_their_order() {
    let mut buf = "ab".to_string();
    apply_edits_in_place(&mut buf, vec![edit(1, 1, "x"), edit(1, 1, "y")]);
    assert_eq!(buf, "axyb");
}

#[test]
fn no_edits_leave_the_text() {
    let mut buf = "keep".to_string();
    apply_edits_in_place(&mut buf, vec![]);
    assert_eq!(buf, "keep");
}

#[test]
fn edits_between_multibyte_characters() {
    let mut buf = "é-è".to_string();
    // 'é' and 'è' take two bytes each
    apply_edits_in_place(&mut buf, vec![edit(2, 3, "+")]);
    assert_eq!(buf, "é+è");
}
