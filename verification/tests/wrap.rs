use work_buddy::wrap::{
    display_width, line_ranges, split_range_by_grapheme_width, wrap_word_chunks, wrapped_line_count,
    WrapMode,
};

/// Segments of the given line after wrapping at the given width.
fn segments(line: &str, mode: WrapMode, width: usize) -> Vec<&str> {
    line_ranges(line, mode, width)
        .into_iter()
        .map(|(s, e)| &line[s..e])
        .collect()
}

#[test]
fn trailing_space_rolls_onto_its_own_row() {
    assert_eq!(segments("foo ", WrapMode::Word, 3), vec!["foo", " "]);
    assert_eq!(segments("foo ", WrapMode::WordOrGlyph, 3), vec!["foo", " "]);
    assert_eq!(segments("foo ", WrapMode::Glyph, 3), vec!["foo", " "]);
}

#[test]
fn internal_space_runs_consume_width() {
    assert_eq!(segments("a  b", WrapMode::Word, 2), vec!["a", "  ", "b"]);
}

#[test]
fn empty_line_is_one_row() {
    assert_eq!(segments("", WrapMode::Word, 10), vec![""]);
}

#[test]
fn word_wrap_keeps_long_word() {
    assert_eq!(
        segments("helloworld", WrapMode::Word, 4),
        vec!["helloworld"]
    );
}

#[test]
fn word_or_glyph_wrap_splits_long_word() {
    assert_eq!(
        segments("helloworld", WrapMode::WordOrGlyph, 4),
        vec!["hell", "owor", "ld"]
    );
}

#[test]
fn glyph_wrap_handles_wide_chars() {
    assert_eq!(segments("ab犬猫", WrapMode::Glyph, 4), vec!["ab犬", "猫"]);
}

#[test]
fn glyph_wrap_keeps_combining_grapheme_cluster() {
    assert_eq!(
        segments("e\u{301}x", WrapMode::Glyph, 1),
        vec!["e\u{301}", "x"]
    );
}

#[test]
fn glyph_wrap_preserves_full_mixed_width_row_capacity() {
    assert_eq!(segments("a中bcde", WrapMode::Glyph, 4), vec!["a中b", "cde"]);
}

#[test]
fn unbroken_lines_are_one_row() {
    assert_eq!(
        segments("a b c d", WrapMode::Unbroken, 2),
        vec!["a b c d"]
    );
    assert_eq!(wrapped_line_count("a b c d", WrapMode::Unbroken, 2), 1);
}

#[test]
fn rows_are_counted_as_they_are_cut() {
    for mode in [
        WrapMode::Unbroken,
        WrapMode::Word,
        WrapMode::Glyph,
        WrapMode::WordOrGlyph,
    ] {
        for width in 0..8 {
            for line in ["", "foo bar", "helloworld and 犬猫", "  spaced   out  "] {
                let rows = segments(line, mode, width);
                assert_eq!(wrapped_line_count(line, mode, width), rows.len());
                assert_eq!(rows.concat(), line);
            }
        }
    }
}

#[test]
fn a_width_of_zero_counts_as_one() {
    assert_eq!(segments("abc", WrapMode::Glyph, 0), vec!["a", "b", "c"]);
}

#[test]
fn a_grapheme_wider_than_the_width_has_its_own_row() {
    assert_eq!(segments("犬a", WrapMode::Glyph, 1), vec!["犬", "a"]);
}

#[test]
fn display_width_counts_columns() {
    assert_eq!(display_width(""), 0);
    assert_eq!(display_width("abc"), 3);
    assert_eq!(display_width("a犬"), 3);
    assert_eq!(display_width("e\u{301}"), 1);
    assert_eq!(display_width("a\tb"), 2);
}

#[test]
fn falling_back_adds_rows_for_wide_words() {
    let rows = |line: &str, mode| wrapped_line_count(line, mode, 4);
    assert_eq!(rows("ab abcdefghij cd", WrapMode::Word), 3);
    assert_eq!(rows("ab abcdefghij cd", WrapMode::WordOrGlyph), 5);
    assert_eq!(wrap_word_chunks("ab abcdefghij cd", 4, false), vec![3, 10, 3]);
    assert_eq!(wrap_word_chunks("ab abcdefghij cd", 4, true), vec![3, 4, 4, 2, 3]);
    assert_eq!(split_range_by_grapheme_width("abcdefghij", 4), vec![4, 4, 2]);
    for line in ["", "ab cd", "abcd efgh ij", "a b c d e"] {
        assert_eq!(
            line_ranges(line, WrapMode::Word, 4),
            line_ranges(line, WrapMode::WordOrGlyph, 4)
        );
    }
}
