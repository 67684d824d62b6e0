//! Wrapping of the lines of the input box: into how many rows, and which, a line is broken at a
//! given width.

use crate::text::{
    byte_len, concat, lemma_byte_len_bound, lemma_byte_len_push, lemma_byte_len_take,
    lemma_concat_add, lemma_concat_push, lemma_encode_concat, split_str, str_byte_len,
};
use unicode_segmentation::UnicodeSegmentation;
use unicode_width::UnicodeWidthChar;
use vstd::prelude::*;
use vstd::utf8::encode_scalar;

verus! {

/// How the input box breaks lines that are wider than it.
#[derive(Clone, Copy, Debug, PartialEq, Eq, Structural)]
pub enum WrapMode {
    /// Lines are not broken.
    Unbroken,
    /// Lines are broken between words.
    Word,
    /// Lines are broken between grapheme clusters.
    Glyph,
    /// Lines are broken between words, and words that do not fit between grapheme clusters.
    WordOrGlyph,
}

/// The pieces between the Unicode word boundaries of a text.
pub uninterp spec fn word_pieces(s: Seq<char>) -> Seq<Seq<char>>;

/// The extended grapheme clusters of a text.
pub uninterp spec fn grapheme_pieces(s: Seq<char>) -> Seq<Seq<char>>;

/// The display width of a character, `None` for control characters.
pub uninterp spec fn char_columns(c: char) -> Option<usize>;

/// The texts of a list of pieces with their offsets.
pub open spec fn piece_texts<'a>(v: Seq<(usize, &'a str)>) -> Seq<Seq<char>> {
    Seq::new(v.len(), |i: int| v[i].1@)
}

/// Whether the pieces are non-empty, make up `s`, and stand at their byte offsets in it.
pub open spec fn tile<'a>(v: Seq<(usize, &'a str)>, s: Seq<char>) -> bool {
    &&& concat(piece_texts(v)) == s
    &&& forall|i: int| 0 <= i < v.len() ==> (#[trigger] v[i]).1@.len() > 0
    &&& forall|i: int|
        0 <= i < v.len() ==> (#[trigger] v[i]).0 == byte_len(concat(piece_texts(v).take(i)))
}

/// `UnicodeSegmentation::split_word_bound_indices`: the text cut at its word boundaries, each
/// piece with the byte offset where it starts. The pieces are non-empty and make up the text.
#[verifier::external_body]
fn word_bounds<'a>(s: &'a str) -> (r: Vec<(usize, &'a str)>)
    ensures
        piece_texts(r@) == word_pieces(s@),
        tile(r@, s@),
{
    s.split_word_bound_indices().collect()
}

/// `UnicodeSegmentation::grapheme_indices` for extended clusters: the text cut into its grapheme
/// clusters, each with the byte offset where it starts. The clusters are non-empty and make up
/// the text.
#[verifier::external_body]
fn graphemes<'a>(s: &'a str) -> (r: Vec<(usize, &'a str)>)
    ensures
        piece_texts(r@) == grapheme_pieces(s@),
        tile(r@, s@),
{
    s.grapheme_indices(true).collect()
}

/// `UnicodeWidthChar::width`: the number of columns of a character, `None` for control
/// characters. No character takes more columns than its UTF-8 form has bytes.
#[verifier::external_body]
fn char_width(c: char) -> (r: Option<usize>)
    ensures
        r == char_columns(c),
        r matches Some(w) ==> w <= encode_scalar(c as u32).len(),
{
    c.width()
}

/// The columns that a character takes: its display width, none for control characters.
pub open spec fn column_of(c: char) -> nat {
    match char_columns(c) {
        Some(w) => w as nat,
        None => 0,
    }
}

/// The columns that a text takes.
pub open spec fn columns(s: Seq<char>) -> nat
    decreases s.len(),
{
    if s.len() == 0 {
        0
    } else {
        columns(s.drop_last()) + column_of(s.last())
    }
}

/// How many of the graphemes `gs` the first row holds, given that it holds `n`: as many as fit.
pub open spec fn row_glyphs(gs: Seq<Seq<char>>, width: nat, n: nat) -> nat
    decreases gs.len() - n,
{
    if n < gs.len() && columns(concat(gs.take(n as int + 1))) <= width {
        row_glyphs(gs, width, n + 1)
    } else {
        n
    }
}

/// The first row of `s` broken between graphemes: as many as fit, and at least one.
pub open spec fn first_glyph_row(s: Seq<char>, width: nat) -> Seq<char> {
    concat(grapheme_pieces(s).take(row_glyphs(grapheme_pieces(s), width, 1) as int))
}

/// The rows of `s` broken between graphemes.
pub open spec fn glyph_rows(s: Seq<char>, width: nat) -> Seq<Seq<char>>
    decreases s.len(),
{
    let row = first_glyph_row(s, width);
    if 0 < row.len() <= s.len() {
        seq![row] + glyph_rows(s.skip(row.len() as int), width)
    } else {
        seq![]
    }
}

/// Rows filled and the row begun, after one more piece: it goes to the row begun where it fits
/// there, else to a new row. A piece wider than a row has rows of its own, one or, with
/// `fallback`, as many as its graphemes fill.
pub open spec fn word_step(
    fill: (Seq<Seq<char>>, Seq<char>),
    piece: Seq<char>,
    width: nat,
    fallback: bool,
) -> (Seq<Seq<char>>, Seq<char>) {
    let (rows, begun) = fill;
    if columns(begun) + columns(piece) <= width {
        (rows, begun + piece)
    } else {
        let full = if begun.len() > 0 {
            rows.push(begun)
        } else {
            rows
        };
        if columns(piece) <= width {
            (full, piece)
        } else if fallback {
            (full + glyph_rows(piece, width), seq![])
        } else {
            (full.push(piece), seq![])
        }
    }
}

/// The rows that `pieces` fill, and the row that they begin.
pub open spec fn word_fill(pieces: Seq<Seq<char>>, width: nat, fallback: bool) -> (
    Seq<Seq<char>>,
    Seq<char>,
)
    decreases pieces.len(),
{
    if pieces.len() == 0 {
        (seq![], seq![])
    } else {
        word_step(
            word_fill(pieces.drop_last(), width, fallback),
            pieces.last(),
            width,
            fallback,
        )
    }
}

/// The rows of a line whose word pieces are given.
pub open spec fn word_rows(pieces: Seq<Seq<char>>, width: nat, fallback: bool) -> Seq<Seq<char>> {
    let (rows, begun) = word_fill(pieces, width, fallback);
    if begun.len() > 0 {
        rows.push(begun)
    } else {
        rows
    }
}

/// The rows of a line before the rule that there is at least one.
pub open spec fn filled_rows(line: Seq<char>, mode: WrapMode, width: nat) -> Seq<Seq<char>> {
    match mode {
        WrapMode::Unbroken => seq![line],
        WrapMode::Glyph => glyph_rows(line, width),
        WrapMode::Word => word_rows(word_pieces(line), width, false),
        WrapMode::WordOrGlyph => word_rows(word_pieces(line), width, true),
    }
}

/// The rows of a line. There is always at least one, and a width of 0 counts as 1.
pub open spec fn line_rows(line: Seq<char>, mode: WrapMode, width: nat) -> Seq<Seq<char>> {
    let rows = filled_rows(line, mode, if width == 0 { 1 } else { width });
    if rows.len() == 0 {
        seq![seq![]]
    } else {
        rows
    }
}

/// Whether `r` holds the byte range of each row.
pub open spec fn ranges_of(r: Seq<(usize, usize)>, rows: Seq<Seq<char>>) -> bool {
    &&& r.len() == rows.len()
    &&& forall|i: int|
        0 <= i < r.len() ==> (#[trigger] r[i]).0 == byte_len(concat(rows.take(i))) && r[i].1
            == byte_len(concat(rows.take(i + 1)))
}

/// Whether `r` holds the number of bytes of each row.
pub open spec fn lengths_of(r: Seq<usize>, rows: Seq<Seq<char>>) -> bool {
    &&& r.len() == rows.len()
    &&& forall|i: int| 0 <= i < r.len() ==> #[trigger] r[i] == byte_len(rows[i])
}

/// Whether a row may be wider than the width: it is a piece that the mode does not break.
pub open spec fn unbreakable(mode: WrapMode, row: Seq<char>) -> bool {
    match mode {
        WrapMode::Unbroken => true,
        WrapMode::Word => exists|line: Seq<char>| #[trigger] word_pieces(line).contains(row),
        WrapMode::Glyph | WrapMode::WordOrGlyph => exists|text: Seq<char>| #[trigger]
            grapheme_pieces(text).contains(row),
    }
}

/// Columns of a concatenation.
proof fn lemma_columns_add(a: Seq<char>, b: Seq<char>)
    ensures
        columns(a + b) == columns(a) + columns(b),
    decreases b.len(),
{
    if b.len() == 0 {
        assert(a + b =~= a);
    } else {
        lemma_columns_add(a, b.drop_last());
        assert((a + b).drop_last() =~= a + b.drop_last());
    }
}

/// A prefix of a list of parts makes up a prefix of the text.
proof fn lemma_concat_take(parts: Seq<Seq<char>>, i: int)
    requires
        0 <= i <= parts.len(),
    ensures
        concat(parts) == concat(parts.take(i)) + concat(parts.skip(i)),
        byte_len(concat(parts)) == byte_len(concat(parts.take(i))) + byte_len(
            concat(parts.skip(i)),
        ),
        concat(parts.take(i)) == concat(parts).take(concat(parts.take(i)).len() as int),
{
    assert(parts.take(i) + parts.skip(i) =~= parts);
    lemma_concat_add(parts.take(i), parts.skip(i));
    lemma_encode_concat(concat(parts.take(i)), concat(parts.skip(i)));
    assert(concat(parts.take(i)) =~= concat(parts).take(concat(parts.take(i)).len() as int));
}

/// One more part.
proof fn lemma_concat_step(parts: Seq<Seq<char>>, i: int)
    requires
        0 <= i < parts.len(),
    ensures
        concat(parts.take(i + 1)) == concat(parts.take(i)) + parts[i],
        byte_len(concat(parts.take(i + 1))) == byte_len(concat(parts.take(i))) + byte_len(
            parts[i],
        ),
        columns(concat(parts.take(i + 1))) == columns(concat(parts.take(i))) + columns(parts[i]),
{
    assert(parts.take(i + 1) =~= parts.take(i).push(parts[i]));
    lemma_concat_push(parts.take(i), parts[i]);
    lemma_encode_concat(concat(parts.take(i)), parts[i]);
    lemma_columns_add(concat(parts.take(i)), parts[i]);
}

/// A single part.
proof fn lemma_concat_one(part: Seq<char>)
    ensures
        concat(seq![part]) == part,
{
    let none: Seq<Seq<char>> = seq![];
    lemma_concat_push(none, part);
    assert(none.push(part) =~= seq![part]);
    assert(concat(none) + part =~= part);
}

/// Total display width of the given text.
pub fn display_width(text: &str) -> (r: usize)
    ensures
        r == columns(text@),
        r <= byte_len(text@),
{
    let mut total: usize = 0;
    let bytes: usize = str_byte_len(text);
    for c in it: text.chars()
        invariant
            it.seq() == text@,
            bytes == byte_len(text@),
            total == columns(text@.take(it.index() as int)),
            total <= byte_len(text@.take(it.index() as int)),
    {
        let ghost i = it.index() as int;
        proof {
            assert(text@.take(i + 1) =~= text@.take(i).push(c));
            assert(text@.take(i + 1).drop_last() =~= text@.take(i));
            lemma_byte_len_push(text@.take(i), c);
            lemma_byte_len_take(text@, i + 1);
        }
        match char_width(c) {
            Some(w) => {
                total = total + w;
            },
            None => {},
        }
    }
    assert(text@.take(text@.len() as int) =~= text@);
    total
}

/// Number of bytes of the first row of a text broken between graphemes.
fn first_glyph_row_len(rest: &str, width: usize) -> (r: usize)
    requires
        rest@.len() > 0,
    ensures
        r == byte_len(first_glyph_row(rest@, width as nat)),
        0 < first_glyph_row(rest@, width as nat).len() <= rest@.len(),
        first_glyph_row(rest@, width as nat) == rest@.take(
            first_glyph_row(rest@, width as nat).len() as int,
        ),
        columns(first_glyph_row(rest@, width as nat)) <= width || grapheme_pieces(rest@).contains(
            first_glyph_row(rest@, width as nat),
        ),
        columns(rest@) <= width ==> first_glyph_row(rest@, width as nat) == rest@,
{
    let pieces = graphemes(rest);
    let ghost gs = grapheme_pieces(rest@);
    let mut end: usize = 0;
    let mut total: usize = 0;
    let mut i: usize = 0;
    let bytes: usize = str_byte_len(rest);
    while i < pieces.len()
        invariant_except_break
            i >= 1 ==> total <= width,
            row_glyphs(gs, width as nat, 1) == row_glyphs(
                gs,
                width as nat,
                if i == 0 { 1 } else { i as nat },
            ),
        invariant
            i <= pieces@.len(),
            gs == grapheme_pieces(rest@),
            gs == piece_texts(pieces@),
            tile(pieces@, rest@),
            bytes == byte_len(rest@),
            end == byte_len(concat(gs.take(i as int))),
            total == columns(concat(gs.take(i as int))),
            total <= end,
        ensures
            pieces@.len() > 0 ==> i == row_glyphs(gs, width as nat, 1),
            pieces@.len() > 0 ==> i >= 1,
            i > 1 ==> total <= width,
        decreases pieces@.len() - i,
    {
        proof {
            lemma_concat_step(gs, i as int);
            lemma_concat_take(gs, i + 1);
            lemma_byte_len_bound(pieces@[i as int].1@);
            lemma_concat_take(gs, i as int);
            if i > 0 {
                lemma_concat_step(gs, i - 1);
                lemma_byte_len_bound(gs[i - 1]);
            } else {
                assert(gs.take(0) =~= seq![]);
                lemma_byte_len_bound(seq![]);
            }
            assert(gs[i as int] == pieces@[i as int].1@);
        }
        let piece_width: usize = display_width(pieces[i].1);
        if end != 0 && total + piece_width > width {
            break;
        }
        end = pieces[i].0 + str_byte_len(pieces[i].1);
        total = total + piece_width;
        i = i + 1;
        if total > width {
            proof {
                if i < gs.len() {
                    lemma_concat_step(gs, i as int);
                }
            }
            break;
        }
    }
    proof {
        lemma_concat_take(gs, i as int);
        if pieces@.len() == 0 {
            assert(concat(gs) =~= seq![]);
            assert(false);
        }
        lemma_concat_step(gs, i - 1);
        assert(gs[i - 1] == pieces@[i - 1].1@);
        if i == 1 {
            assert(gs.take(0) =~= seq![]);
            assert(concat(gs.take(1)) =~= gs[0]);
        }
        if columns(rest@) <= width {
            lemma_one_glyph_row(gs, width as nat, 1);
            assert(gs.take(gs.len() as int) =~= gs);
        }
    }
    end
}

/// Wraps a text at grapheme boundaries, accounting for wide characters: the number of bytes of
/// each row.
pub fn split_range_by_grapheme_width(text: &str, width: usize) -> (r: Vec<usize>)
    ensures
        lengths_of(r@, glyph_rows(text@, width as nat)),
        concat(glyph_rows(text@, width as nat)) == text@,
        rows_fit(glyph_rows(text@, width as nat), width as nat, WrapMode::Glyph),
        columns(text@) <= width ==> glyph_rows(text@, width as nat).len() <= 1,
{
    let mut out: Vec<usize> = Vec::new();
    let mut rest = text;
    let ghost mut done: Seq<Seq<char>> = seq![];
    while str_byte_len(rest) > 0
        invariant
            lengths_of(out@, done),
            text@ == concat(done) + rest@,
            glyph_rows(text@, width as nat) == done + glyph_rows(rest@, width as nat),
            rows_fit(done, width as nat, WrapMode::Glyph),
            done.len() == 0 ==> rest@ == text@,
            columns(text@) <= width && done.len() > 0 ==> done.len() == 1 && rest@.len() == 0,
        decreases rest@.len(),
    {
        proof {
            lemma_byte_len_bound(rest@);
        }
        let len: usize = first_glyph_row_len(rest, width);
        let ghost row = first_glyph_row(rest@, width as nat);
        let ghost before = rest@;
        assert(byte_len(rest@.take(row.len() as int)) == len);
        let (head, tail) = split_str(rest, len);
        out.push(len);
        proof {
            lemma_same_length_prefix(before, head@, tail@, row.len() as int);
            let prior = done;
            done = prior.push(row);
            lemma_concat_push(prior, row);
            assert(prior + (seq![row] + glyph_rows(tail@, width as nat)) =~= done + glyph_rows(
                tail@,
                width as nat,
            ));
            assert(before =~= row + tail@);
            assert(concat(prior) + (row + tail@) =~= (concat(prior) + row) + tail@);
        }
        rest = tail;
    }
    proof {
        lemma_byte_len_bound(rest@);
        assert(done + glyph_rows(rest@, width as nat) =~= done);
        assert(concat(done) + rest@ =~= concat(done));
    }
    out
}

/// A split of a text at the end of a prefix gives that prefix.
proof fn lemma_same_length_prefix(s: Seq<char>, head: Seq<char>, tail: Seq<char>, k: int)
    requires
        s == head + tail,
        0 <= k <= s.len(),
        byte_len(head) == byte_len(s.take(k)),
    ensures
        head == s.take(k),
        tail == s.skip(k),
{
    let h = head.len() as int;
    if k < h {
        assert(s.take(k) + head.skip(k) =~= head);
        lemma_encode_concat(s.take(k), head.skip(k));
        lemma_byte_len_bound(head.skip(k));
    } else if h < k {
        assert(head + s.subrange(h, k) =~= s.take(k));
        lemma_encode_concat(head, s.subrange(h, k));
        lemma_byte_len_bound(s.subrange(h, k));
    }
    assert(head =~= s.take(k));
    assert(tail =~= s.skip(k));
}

/// Whether each row fits the width, or is a piece that the mode does not break.
pub open spec fn rows_fit(rows: Seq<Seq<char>>, width: nat, mode: WrapMode) -> bool {
    forall|i: int|
        0 <= i < rows.len() ==> columns(#[trigger] rows[i]) <= width || unbreakable(mode, rows[i])
}

/// A step keeps all text, and rows that fit.
proof fn lemma_word_step(
    fill: (Seq<Seq<char>>, Seq<char>),
    piece: Seq<char>,
    width: nat,
    fallback: bool,
)
    requires
        fallback ==> columns(piece) <= width || concat(glyph_rows(piece, width)) == piece
            && rows_fit(glyph_rows(piece, width), width, WrapMode::Glyph),
        !fallback ==> unbreakable(WrapMode::Word, piece),
        rows_fit(
            fill.0,
            width,
            if fallback {
                WrapMode::WordOrGlyph
            } else {
                WrapMode::Word
            },
        ),
        columns(fill.1) <= width,
    ensures
        ({
            let next = word_step(fill, piece, width, fallback);
            &&& concat(next.0) + next.1 == (concat(fill.0) + fill.1) + piece
            &&& columns(next.1) <= width
            &&& rows_fit(
                next.0,
                width,
                if fallback {
                    WrapMode::WordOrGlyph
                } else {
                    WrapMode::Word
                },
            )
        }),
{
    let (rows, begun) = fill;
    let next = word_step(fill, piece, width, fallback);
    lemma_columns_add(begun, piece);
    if columns(begun) + columns(piece) <= width {
        assert(concat(rows) + (begun + piece) =~= (concat(rows) + begun) + piece);
    } else {
        let full = if begun.len() > 0 {
            rows.push(begun)
        } else {
            rows
        };
        lemma_concat_push(rows, begun);
        assert(concat(full) =~= concat(rows) + begun);
        lemma_concat_push(full, piece);
        lemma_concat_add(full, glyph_rows(piece, width));
        assert(concat(next.0) + next.1 =~= concat(full) + piece);
    }
}

/// The row that is being filled: its bytes and its columns.
struct Begun {
    bytes: usize,
    width: usize,
}

impl Begun {
    spec fn describes(self, begun: Seq<char>) -> bool {
        &&& self.bytes == byte_len(begun)
        &&& self.width == columns(begun)
        &&& self.width <= self.bytes
    }
}

/// Adds a piece: the rows that it completes go to `out`.
fn add_piece(
    out: &mut Vec<usize>,
    begun: Begun,
    piece: &str,
    width: usize,
    fallback_to_glyph: bool,
    Ghost(fill): Ghost<(Seq<Seq<char>>, Seq<char>)>,
) -> (r: Begun)
    requires
        lengths_of(old(out)@, fill.0),
        begun.describes(fill.1),
        begun.bytes + byte_len(piece@) <= usize::MAX,
    ensures
        lengths_of(
            final(out)@,
            word_step(fill, piece@, width as nat, fallback_to_glyph).0,
        ),
        r.describes(word_step(fill, piece@, width as nat, fallback_to_glyph).1),
        fallback_to_glyph ==> columns(piece@) <= width || concat(glyph_rows(piece@, width as nat))
            == piece@ && rows_fit(glyph_rows(piece@, width as nat), width as nat, WrapMode::Glyph),
{
    let ghost none: Seq<char> = seq![];
    proof {
        lemma_byte_len_bound(fill.1);
        lemma_byte_len_bound(none);
        lemma_encode_concat(fill.1, piece@);
        lemma_columns_add(fill.1, piece@);
    }
    let bytes: usize = str_byte_len(piece);
    let piece_width: usize = display_width(piece);
    if begun.width + piece_width <= width {
        return Begun { bytes: begun.bytes + bytes, width: begun.width + piece_width };
    }
    if begun.bytes > 0 {
        out.push(begun.bytes);
    }
    if piece_width <= width {
        return Begun { bytes: bytes, width: piece_width };
    }
    if fallback_to_glyph {
        let mut lengths = split_range_by_grapheme_width(piece, width);
        out.append(&mut lengths);
    } else {
        out.push(bytes);
    }
    Begun { bytes: 0, width: 0 }
}

/// What the first pieces of a line fill, and the next one.
proof fn lemma_next_piece(
    line: Seq<char>,
    fill: (Seq<Seq<char>>, Seq<char>),
    i: int,
    width: nat,
    fallback: bool,
)
    requires
        0 <= i < word_pieces(line).len(),
        concat(word_pieces(line)) == line,
        fill == word_fill(word_pieces(line).take(i), width, fallback),
        concat(fill.0) + fill.1 == concat(word_pieces(line).take(i)),
    ensures
        concat(word_pieces(line).take(i + 1)) == (concat(fill.0) + fill.1) + word_pieces(line)[i],
        byte_len(fill.1) + byte_len(word_pieces(line)[i]) <= byte_len(line),
        word_fill(word_pieces(line).take(i + 1), width, fallback) == word_step(
            fill,
            word_pieces(line)[i],
            width,
            fallback,
        ),
{
    let ps = word_pieces(line);
    lemma_concat_step(ps, i);
    lemma_concat_take(ps, i + 1);
    lemma_encode_concat(concat(fill.0), fill.1);
    assert(ps.take(i + 1).drop_last() =~= ps.take(i));
    assert(ps.take(i + 1).last() == ps[i]);
}

/// The mode that wraps at word boundaries, with or without falling back to graphemes.
pub open spec fn word_mode(fallback: bool) -> WrapMode {
    if fallback {
        WrapMode::WordOrGlyph
    } else {
        WrapMode::Word
    }
}

/// Whether `out` and `begun` tell what the first `i` pieces of a line fill.
#[verifier::opaque]
spec fn filling(
    out: Seq<usize>,
    begun: Begun,
    line: Seq<char>,
    i: int,
    width: nat,
    fallback: bool,
) -> bool {
    let pieces = word_pieces(line).take(i);
    let fill = word_fill(pieces, width, fallback);
    &&& lengths_of(out, fill.0)
    &&& begun.describes(fill.1)
    &&& begun.width <= width
    &&& concat(fill.0) + fill.1 == concat(pieces)
    &&& rows_fit(fill.0, width, word_mode(fallback))
}

/// Adds piece number `i` of a line.
#[verifier::spinoff_prover]
fn add_next_piece(
    out: &mut Vec<usize>,
    begun: Begun,
    line: &str,
    piece: &str,
    width: usize,
    fallback_to_glyph: bool,
    Ghost(i): Ghost<int>,
) -> (r: Begun)
    requires
        0 <= i < word_pieces(line@).len(),
        piece@ == word_pieces(line@)[i],
        concat(word_pieces(line@)) == line@,
        filling(old(out)@, begun, line@, i, width as nat, fallback_to_glyph),
    ensures
        filling(final(out)@, r, line@, i + 1, width as nat, fallback_to_glyph),
{
    let _bytes: usize = str_byte_len(line);
    let ghost fill = word_fill(word_pieces(line@).take(i), width as nat, fallback_to_glyph);
    proof {
        reveal(filling);
        lemma_next_piece(line@, fill, i, width as nat, fallback_to_glyph);
        assert(word_pieces(line@).contains(piece@));
    }
    let next = add_piece(out, begun, piece, width, fallback_to_glyph, Ghost(fill));
    proof {
        lemma_word_step(fill, piece@, width as nat, fallback_to_glyph);
    }
    next
}

/// Wraps a line at word boundaries, falling back to grapheme splitting for words wider than the
/// width when enabled: the number of bytes of each row.
pub fn wrap_word_chunks(line: &str, width: usize, fallback_to_glyph: bool) -> (r: Vec<usize>)
    ensures
        lengths_of(r@, word_rows(word_pieces(line@), width as nat, fallback_to_glyph)),
        concat(word_rows(word_pieces(line@), width as nat, fallback_to_glyph)) == line@,
        rows_fit(
            word_rows(word_pieces(line@), width as nat, fallback_to_glyph),
            width as nat,
            word_mode(fallback_to_glyph),
        ),
        columns(line@) <= width ==> word_rows(
            word_pieces(line@),
            width as nat,
            fallback_to_glyph,
        ).len() <= 1,
        forall|i: int|
            1 <= i < word_rows(word_pieces(line@), width as nat, false).len()
                ==> #[trigger] begins_with_need(
                word_rows(word_pieces(line@), width as nat, false),
                i,
                word_pieces(line@),
                width as nat,
            ),
{
    let pieces = word_bounds(line);
    let ghost ps = word_pieces(line@);
    proof {
        assert forall|i: int| 0 <= i < ps.len() implies (#[trigger] ps[i]).len() > 0 by {
            assert(ps[i] == pieces@[i].1@);
        }
        rows_break_only_where_they_must(ps, width as nat);
        if columns(line@) <= width {
            lemma_one_row(ps, width as nat, fallback_to_glyph);
        }
    }
    let mut out: Vec<usize> = Vec::new();
    let mut begun = Begun { bytes: 0, width: 0 };
    proof {
        reveal(filling);
        let none: Seq<char> = seq![];
        assert(ps.take(0) =~= seq![]);
        lemma_byte_len_bound(none);
        assert(concat(ps.take(0)) + none =~= concat(ps.take(0)));
    }
    for i in 0..pieces.len()
        invariant
            ps == word_pieces(line@),
            ps == piece_texts(pieces@),
            concat(ps) == line@,
            filling(out@, begun, line@, i as int, width as nat, fallback_to_glyph),
    {
        begun = add_next_piece(
            &mut out,
            begun,
            line,
            pieces[i].1,
            width,
            fallback_to_glyph,
            Ghost(i as int),
        );
    }
    let ghost fill = word_fill(ps, width as nat, fallback_to_glyph);
    proof {
        reveal(filling);
        assert(ps.take(ps.len() as int) =~= ps);
        lemma_byte_len_bound(fill.1);
        lemma_concat_push(fill.0, fill.1);
        assert(concat(fill.0) + fill.1 == line@);
        if fill.1.len() == 0 {
            assert(concat(fill.0) =~= line@);
        }
    }
    if begun.bytes > 0 {
        out.push(begun.bytes);
    }
    out
}

/// The number of bytes of each row of a line; none where the line is empty.
fn row_lengths(line: &str, mode: WrapMode, width: usize) -> (r: Vec<usize>)
    ensures
        lengths_of(r@, filled_rows(line@, mode, width as nat)),
        concat(filled_rows(line@, mode, width as nat)) == line@,
        rows_fit(filled_rows(line@, mode, width as nat), width as nat, mode),
        columns(line@) <= width ==> filled_rows(line@, mode, width as nat).len() <= 1,
{
    match mode {
        WrapMode::Unbroken => {
            let mut out: Vec<usize> = Vec::new();
            out.push(str_byte_len(line));
            proof {
                lemma_concat_one(line@);
            }
            out
        },
        WrapMode::Glyph => split_range_by_grapheme_width(line, width),
        WrapMode::Word => wrap_word_chunks(line, width, false),
        WrapMode::WordOrGlyph => wrap_word_chunks(line, width, true),
    }
}

/// One more range: it begins where the rows before it end, and ends where its row does.
proof fn lemma_range_added(
    ranges: Seq<(usize, usize)>,
    rows: Seq<Seq<char>>,
    i: int,
    range: (usize, usize),
)
    requires
        0 <= i < rows.len(),
        ranges_of(ranges, rows.take(i)),
        range.0 == byte_len(concat(rows.take(i))),
        range.1 == byte_len(concat(rows.take(i + 1))),
    ensures
        ranges_of(ranges.push(range), rows.take(i + 1)),
{
    let all = ranges.push(range);
    let longer = rows.take(i + 1);
    assert forall|j: int| 0 <= j < all.len() implies (#[trigger] all[j]).0 == byte_len(
        concat(longer.take(j)),
    ) && all[j].1 == byte_len(concat(longer.take(j + 1))) by {
        assert(longer.take(j) =~= rows.take(j));
        assert(longer.take(j + 1) =~= rows.take(j + 1));
        if j < i {
            assert(all[j] == ranges[j]);
            assert(rows.take(i).take(j) =~= rows.take(j));
            assert(rows.take(i).take(j + 1) =~= rows.take(j + 1));
        }
    }
}

/// The range of a line without rows is the empty one.
proof fn lemma_empty_range()
    ensures
        ranges_of(seq![(0usize, 0usize)], seq![seq![]]),
        concat(seq![seq![]]) == Seq::<char>::empty(),
{
    let none: Seq<Seq<char>> = seq![];
    let one: Seq<Seq<char>> = seq![seq![]];
    lemma_byte_len_bound(seq![]);
    lemma_concat_push(none, seq![]);
    assert(one.take(0) =~= none);
    assert(one.take(1) =~= one);
    assert(none.push(seq![]) =~= one);
    assert(concat(one) =~= seq![]);
}

/// The byte ranges of the rows that a line is broken into, at least one. The rows make up the
/// line, in order, and each fits the width unless the mode does not break it.
#[verifier::spinoff_prover]
pub fn line_ranges(line: &str, mode: WrapMode, width: usize) -> (r: Vec<(usize, usize)>)
    ensures
        ranges_of(r@, line_rows(line@, mode, width as nat)),
        r@.len() >= 1,
        concat(line_rows(line@, mode, width as nat)) == line@,
        rows_fit(line_rows(line@, mode, width as nat), if width == 0 { 1 } else { width as nat }, mode),
        columns(line@) <= width ==> line_rows(line@, mode, width as nat) == seq![line@],
{
    let width: usize = if width == 0 {
        1
    } else {
        width
    };
    let lengths = row_lengths(line, mode, width);
    let ghost rows = filled_rows(line@, mode, width as nat);
    let mut out: Vec<(usize, usize)> = Vec::new();
    if lengths.len() == 0 {
        out.push((0, 0));
        proof {
            lemma_empty_range();
            assert(rows =~= seq![]);
            assert(out@ =~= seq![(0usize, 0usize)]);
        }
        return out;
    }
    let mut at: usize = 0;
    proof {
        lemma_byte_len_bound(seq![]);
        assert(rows.take(0) =~= seq![]);
    }
    let bytes: usize = str_byte_len(line);
    for i in 0..lengths.len()
        invariant
            bytes == byte_len(line@),
            concat(rows) == line@,
            lengths_of(lengths@, rows),
            at == byte_len(concat(rows.take(i as int))),
            ranges_of(out@, rows.take(i as int)),
    {
        proof {
            lemma_concat_step(rows, i as int);
            lemma_concat_take(rows, i + 1);
        }
        let end: usize = at + lengths[i];
        proof {
            lemma_range_added(out@, rows, i as int, (at, end));
        }
        out.push((at, end));
        at = end;
    }
    assert(rows.take(rows.len() as int) =~= rows);
    proof {
        if rows.len() == 1 {
            lemma_concat_one(rows[0]);
            assert(rows =~= seq![rows[0]]);
        }
    }
    out
}

/// How many rows a line takes, at least 1.
pub fn wrapped_line_count(line: &str, mode: WrapMode, width: usize) -> (r: usize)
    ensures
        r == line_rows(line@, mode, width as nat).len(),
        r >= 1,
        columns(line@) <= width ==> r == 1,
{
    let rows = row_lengths(line, mode, if width == 0 { 1 } else { width });
    if rows.len() == 0 {
        1
    } else {
        rows.len()
    }
}

/// The rows that breaking the pieces wider than a row between graphemes adds.
pub open spec fn extra_rows(pieces: Seq<Seq<char>>, width: nat) -> int
    decreases pieces.len(),
{
    if pieces.len() == 0 {
        0
    } else {
        extra_rows(pieces.drop_last(), width) + if columns(pieces.last()) > width {
            glyph_rows(pieces.last(), width).len() - 1
        } else {
            0
        }
    }
}

/// Breaking pieces between graphemes changes neither the row begun nor the other rows.
proof fn lemma_fallback_fill(pieces: Seq<Seq<char>>, width: nat)
    ensures
        word_fill(pieces, width, true).1 == word_fill(pieces, width, false).1,
        word_fill(pieces, width, true).0.len() == word_fill(pieces, width, false).0.len()
            + extra_rows(pieces, width),
        (forall|i: int| 0 <= i < pieces.len() ==> columns(#[trigger] pieces[i]) <= width)
            ==> word_fill(pieces, width, true) == word_fill(pieces, width, false),
    decreases pieces.len(),
{
    if pieces.len() > 0 {
        let before = pieces.drop_last();
        lemma_fallback_fill(before, width);
        if forall|i: int| 0 <= i < pieces.len() ==> columns(#[trigger] pieces[i]) <= width {
            assert forall|i: int| 0 <= i < before.len() implies columns(#[trigger] before[i])
                <= width by {
                assert(before[i] == pieces[i]);
            }
            assert(columns(pieces.last()) <= width);
        }
    }
}

/// Falling back to graphemes adds, for each word wider than a row, the rows that it takes beyond the
/// one that it would have had; where there is no such word, it makes no difference.
pub proof fn falling_back_adds_rows_for_wide_words(line: Seq<char>, width: nat)
    ensures
        word_rows(word_pieces(line), width, true).len() == word_rows(
            word_pieces(line),
            width,
            false,
        ).len() + extra_rows(word_pieces(line), width),
        (forall|i: int|
            0 <= i < word_pieces(line).len() ==> columns(#[trigger] word_pieces(line)[i]) <= width)
            ==> word_rows(word_pieces(line), width, true) == word_rows(
            word_pieces(line),
            width,
            false,
        ),
        word_rows(word_pieces(line), width, true) == filled_rows(
            line,
            WrapMode::WordOrGlyph,
            width,
        ),
        word_rows(word_pieces(line), width, false) == filled_rows(line, WrapMode::Word, width),
{
    lemma_fallback_fill(word_pieces(line), width);
}

/// Whether row number `i` begins with piece number `k`.
pub open spec fn begins_with(
    rows: Seq<Seq<char>>,
    i: int,
    pieces: Seq<Seq<char>>,
    k: int,
) -> bool {
    &&& 0 <= k < pieces.len()
    &&& concat(rows.take(i)) == concat(pieces.take(k))
    &&& pieces[k].is_prefix_of(rows[i])
}

/// Whether row number `i` begins with a piece that does not fit on the row before.
pub open spec fn begins_with_need(
    rows: Seq<Seq<char>>,
    i: int,
    pieces: Seq<Seq<char>>,
    width: nat,
) -> bool {
    exists|k: int| #[trigger]
        begins_with(rows, i, pieces, k) && columns(rows[i - 1]) + columns(pieces[k]) > width
}

/// The rows that pieces fill, and the row begun with piece number `k`.
proof fn lemma_greedy(pieces: Seq<Seq<char>>, width: nat) -> (k: int)
    requires
        forall|i: int| 0 <= i < pieces.len() ==> (#[trigger] pieces[i]).len() > 0,
    ensures
        ({
            let (rows, begun) = word_fill(pieces, width, false);
            &&& 0 <= k <= pieces.len()
            &&& concat(rows) == concat(pieces.take(k))
            &&& begun == concat(pieces.skip(k))
            &&& begun.len() > 0 <==> k < pieces.len()
            &&& k < pieces.len() ==> pieces[k].is_prefix_of(begun)
            &&& columns(begun) <= width
            &&& rows.len() > 0 && k < pieces.len() ==> columns(rows.last()) + columns(pieces[k])
                > width
            &&& rows.len() > 0 && k == pieces.len() ==> columns(rows.last()) > width
            &&& forall|i: int|
                1 <= i < rows.len() ==> #[trigger] begins_with_need(rows, i, pieces, width)
            &&& forall|i: int| 0 <= i < rows.len() ==> (#[trigger] rows[i]).len() > 0
        }),
    decreases pieces.len(),
{
    let (rows, begun) = word_fill(pieces, width, false);
    if pieces.len() == 0 {
        assert(pieces.take(0) =~= seq![]);
        assert(pieces.skip(0) =~= seq![]);
        0
    } else {
        let fewer = pieces.drop_last();
        let piece = pieces.last();
        let n = fewer.len() as int;
        let (prior, open) = word_fill(fewer, width, false);
        assert forall|i: int| 0 <= i < fewer.len() implies (#[trigger] fewer[i]).len() > 0 by {
            assert(fewer[i] == pieces[i]);
        }
        assert(pieces[n] == piece);
        let k = lemma_greedy(fewer, width);
        assert(pieces.take(k) =~= fewer.take(k));
        assert(pieces.take(n) =~= fewer);
        assert(pieces.skip(n) =~= seq![piece]);
        assert(pieces.skip(pieces.len() as int) =~= seq![]);
        assert(pieces.take(pieces.len() as int) =~= pieces);
        lemma_concat_one(piece);
        lemma_concat_take(fewer, k);
        lemma_concat_push(fewer, piece);
        assert(fewer.push(piece) =~= pieces);
        assert forall|i: int| 1 <= i < prior.len() implies #[trigger] begins_with_need(
            prior,
            i,
            pieces,
            width,
        ) by {
            assert(begins_with_need(prior, i, fewer, width));
            let j = choose|j: int| #[trigger]
                begins_with(prior, i, fewer, j) && columns(prior[i - 1]) + columns(fewer[j])
                    > width;
            assert(pieces.take(j) =~= fewer.take(j));
            assert(begins_with(prior, i, pieces, j));
        }
        if columns(open) + columns(piece) <= width {
            assert(pieces.skip(k) =~= fewer.skip(k).push(piece));
            lemma_concat_push(fewer.skip(k), piece);
            lemma_columns_add(open, piece);
            assert(pieces[k].is_prefix_of(begun)) by {
                if k < n {
                    assert(fewer[k] == pieces[k]);
                    assert(fewer[k] =~= begun.take(fewer[k].len() as int));
                } else {
                    assert(begun =~= piece);
                }
            }
            k
        } else {
            let full = if open.len() > 0 {
                prior.push(open)
            } else {
                prior
            };
            assert(concat(full) == concat(fewer)) by {
                lemma_concat_push(prior, open);
                assert(concat(prior) + open =~= concat(fewer));
                if open.len() == 0 {
                    assert(concat(prior) + open =~= concat(prior));
                }
            }
            if open.len() > 0 {
                lemma_more_rows(prior, open, pieces, k, width);
            } else {
                assert(open =~= seq![]);
                assert(columns(open) == 0);
            }
            if columns(piece) <= width {
                n
            } else {
                assert(full.push(piece).drop_last() =~= full);
                lemma_concat_push(full, piece);
                assert(full.len() > 0 ==> columns(full.last()) + columns(piece) > width);
                lemma_more_rows(full, piece, pieces, n, width);
                pieces.len() as int
            }
        }
    }
}

/// One more row that begins with a piece that did not fit on the row before.
proof fn lemma_more_rows(
    rows: Seq<Seq<char>>,
    row: Seq<char>,
    pieces: Seq<Seq<char>>,
    k: int,
    width: nat,
)
    requires
        0 <= k < pieces.len(),
        concat(rows) == concat(pieces.take(k)),
        pieces[k].is_prefix_of(row),
        row.len() > 0,
        rows.len() > 0 ==> columns(rows.last()) + columns(pieces[k]) > width,
        forall|i: int|
            1 <= i < rows.len() ==> #[trigger] begins_with_need(rows, i, pieces, width),
        forall|i: int| 0 <= i < rows.len() ==> (#[trigger] rows[i]).len() > 0,
    ensures
        forall|i: int|
            1 <= i < rows.push(row).len() ==> #[trigger] begins_with_need(
                rows.push(row),
                i,
                pieces,
                width,
            ),
        forall|i: int| 0 <= i < rows.push(row).len() ==> (#[trigger] rows.push(row)[i]).len() > 0,
{
    let more = rows.push(row);
    assert forall|i: int| 1 <= i < more.len() implies #[trigger] begins_with_need(
        more,
        i,
        pieces,
        width,
    ) by {
        if i < rows.len() {
            assert(begins_with_need(rows, i, pieces, width));
            let j = choose|j: int| #[trigger]
                begins_with(rows, i, pieces, j) && columns(rows[i - 1]) + columns(pieces[j])
                    > width;
            assert(more.take(i) =~= rows.take(i));
            assert(begins_with(more, i, pieces, j));
            assert(more[i - 1] == rows[i - 1]);
        } else {
            assert(more.take(i) =~= rows);
            assert(more[i - 1] == rows.last());
            assert(begins_with(more, i, pieces, k));
        }
    }
}

/// Rows are filled greedily, and only broken between words: each row but the first begins with a
/// word that would not have fitted on the row before.
pub proof fn rows_break_only_where_they_must(pieces: Seq<Seq<char>>, width: nat)
    requires
        forall|i: int| 0 <= i < pieces.len() ==> (#[trigger] pieces[i]).len() > 0,
    ensures
        ({
            let rows = word_rows(pieces, width, false);
            &&& concat(rows) == concat(pieces)
            &&& forall|i: int| 0 <= i < rows.len() ==> (#[trigger] rows[i]).len() > 0
            &&& forall|i: int|
                1 <= i < rows.len() ==> #[trigger] begins_with_need(rows, i, pieces, width)
        }),
{
    let (filled, begun) = word_fill(pieces, width, false);
    let rows = word_rows(pieces, width, false);
    let k = lemma_greedy(pieces, width);
    lemma_concat_take(pieces, k);
    if k < pieces.len() {
        lemma_concat_push(filled, begun);
        lemma_more_rows(filled, begun, pieces, k, width);
    } else {
        assert(pieces.take(k) =~= pieces);
    }
}

/// Pieces that fit on one row all go there.
proof fn lemma_one_row(pieces: Seq<Seq<char>>, width: nat, fallback: bool)
    requires
        columns(concat(pieces)) <= width,
    ensures
        word_fill(pieces, width, fallback) == (Seq::<Seq<char>>::empty(), concat(pieces)),
    decreases pieces.len(),
{
    if pieces.len() > 0 {
        lemma_columns_add(concat(pieces.drop_last()), pieces.last());
        lemma_one_row(pieces.drop_last(), width, fallback);
    }
}

/// A line that fits on one row is one row, with or without falling back to graphemes.
pub proof fn what_fits_is_one_row(pieces: Seq<Seq<char>>, width: nat, fallback: bool)
    requires
        columns(concat(pieces)) <= width,
        concat(pieces).len() > 0,
    ensures
        word_rows(pieces, width, fallback) == seq![concat(pieces)],
{
    lemma_one_row(pieces, width, fallback);
    assert(word_rows(pieces, width, fallback) =~= seq![concat(pieces)]);
}

/// What pieces fill that follow filled rows.
proof fn lemma_fill_after(
    before: Seq<Seq<char>>,
    pieces: Seq<Seq<char>>,
    width: nat,
    fallback: bool,
)
    requires
        word_fill(before, width, fallback).1.len() == 0,
    ensures
        word_fill(before + pieces, width, fallback) == (
            word_fill(before, width, fallback).0 + word_fill(pieces, width, fallback).0,
            word_fill(pieces, width, fallback).1,
        ),
    decreases pieces.len(),
{
    let all = before + pieces;
    let filled = word_fill(before, width, fallback).0;
    let none: Seq<char> = seq![];
    let no_rows: Seq<Seq<char>> = seq![];
    if pieces.len() == 0 {
        assert(all =~= before);
        assert(filled + no_rows =~= filled);
        assert(word_fill(before, width, fallback).1 =~= none);
    } else {
        let fewer = pieces.drop_last();
        let (rows, begun) = word_fill(fewer, width, fallback);
        let piece = pieces.last();
        lemma_fill_after(before, fewer, width, fallback);
        assert(all.drop_last() =~= before + fewer);
        assert(all.last() == piece);
        let (more, open) = word_step((rows, begun), piece, width, fallback);
        let step = word_step((filled + rows, begun), piece, width, fallback);
        assert(step.0 =~= filled + more);
        assert(step.1 == open);
    }
}

/// A word wider than a row has rows of its own, whatever stands before and after it: a single one,
/// or with the fallback those that its graphemes fill.
pub proof fn wide_words_have_rows_of_their_own(
    before: Seq<Seq<char>>,
    word: Seq<char>,
    after: Seq<Seq<char>>,
    width: nat,
)
    requires
        columns(word) > width,
    ensures
        word_rows(before.push(word) + after, width, false) == word_rows(before, width, false).push(
            word,
        ) + word_rows(after, width, false),
        word_rows(before.push(word) + after, width, true) == word_rows(before, width, true)
            + glyph_rows(word, width) + word_rows(after, width, true),
{
    let first = before.push(word);
    assert(first.drop_last() =~= before);
    assert(first.last() == word);
    lemma_fill_after(first, after, width, false);
    lemma_fill_after(first, after, width, true);
    assert(word_rows(first + after, width, false) =~= word_rows(before, width, false).push(word)
        + word_rows(after, width, false));
    assert(word_rows(first + after, width, true) =~= word_rows(before, width, true) + glyph_rows(
        word,
        width,
    ) + word_rows(after, width, true));
}

/// As many graphemes as fit, counted on from `n`.
proof fn lemma_row_glyphs(gs: Seq<Seq<char>>, width: nat, n: nat)
    requires
        1 <= n <= gs.len(),
        n > 1 ==> columns(concat(gs.take(n as int))) <= width,
    ensures
        ({
            let k = row_glyphs(gs, width, n);
            &&& n <= k <= gs.len()
            &&& k > 1 ==> columns(concat(gs.take(k as int))) <= width
            &&& k < gs.len() ==> columns(concat(gs.take(k as int + 1))) > width
        }),
    decreases gs.len() - n,
{
    if n < gs.len() && columns(concat(gs.take(n as int + 1))) <= width {
        lemma_row_glyphs(gs, width, n + 1);
    }
}

/// Whether a row is made of as many of the graphemes `gs` as fit, and at least one.
pub open spec fn is_fullest_row(row: Seq<char>, gs: Seq<Seq<char>>, width: nat) -> bool {
    exists|k: int|
        1 <= k <= gs.len() && row == concat(#[trigger] gs.take(k)) && (k > 1 ==> columns(row)
            <= width) && (k < gs.len() ==> columns(row) + columns(gs[k]) > width)
}

/// Between graphemes rows are filled greedily: each row holds as many of the graphemes that are left
/// as fit, and at least one, and the rows follow each other.
pub proof fn glyph_rows_hold_what_fits(s: Seq<char>, width: nat, i: int)
    requires
        0 <= i < glyph_rows(s, width).len(),
    ensures
        ({
            let rows = glyph_rows(s, width);
            let done = concat(rows.take(i));
            let left = grapheme_pieces(s.skip(done.len() as int));
            &&& done.len() < s.len()
            &&& rows[i].len() > 0
            &&& left.len() > 0 ==> is_fullest_row(rows[i], left, width)
        }),
    decreases i,
{
    let rows = glyph_rows(s, width);
    let row = first_glyph_row(s, width);
    let rest = s.skip(row.len() as int);
    assert(rows.take(0) =~= seq![]);
    if i == 0 {
        let gs = grapheme_pieces(s);
        assert(s.skip(0) =~= s);
        if gs.len() > 0 {
            lemma_row_glyphs(gs, width, 1);
            let k = row_glyphs(gs, width, 1);
            assert(row == concat(gs.take(k as int)));
            if k < gs.len() {
                lemma_concat_step(gs, k as int);
            }
        }
    } else {
        glyph_rows_hold_what_fits(rest, width, i - 1);
        let others = glyph_rows(rest, width);
        assert(rows =~= seq![row] + others);
        assert(rows[i] == others[i - 1]);
        let done = concat(rows.take(i));
        assert(rows.take(i) =~= seq![row] + others.take(i - 1));
        lemma_concat_add(seq![row], others.take(i - 1));
        lemma_concat_one(row);
        let further = concat(others.take(i - 1)).len() as int;
        assert(rest.skip(further) =~= s.skip(done.len() as int));
    }
}

/// Graphemes that fit on one row all go there.
proof fn lemma_one_glyph_row(gs: Seq<Seq<char>>, width: nat, n: nat)
    requires
        1 <= n <= gs.len(),
        columns(concat(gs)) <= width,
    ensures
        row_glyphs(gs, width, n) == gs.len(),
    decreases gs.len() - n,
{
    if n < gs.len() {
        lemma_concat_take(gs, n as int + 1);
        lemma_columns_add(concat(gs.take(n as int + 1)), concat(gs.skip(n as int + 1)));
        lemma_one_glyph_row(gs, width, n + 1);
    }
}

/// The columns of a text are those of its characters: they add up over parts of it, and a single
/// character takes as many as its width, or none where it is a control character.
pub proof fn columns_add_up(a: Seq<char>, b: Seq<char>, c: char)
    ensures
        columns(a + b) == columns(a) + columns(b),
        columns(seq![c]) == match char_columns(c) {
            Some(w) => w as nat,
            None => 0,
        },
        columns(Seq::empty()) == 0,
{
    lemma_columns_add(a, b);
    let one = seq![c];
    assert(one.drop_last() =~= seq![]);
    assert(columns(one.drop_last()) == 0);
    assert(one.last() == c);
}

/// A line has at least one row; a width of none counts as a width of one; and a line that is not to
/// be broken is one row, whatever its width.
pub proof fn lines_have_a_row(line: Seq<char>, mode: WrapMode, width: nat)
    ensures
        line_rows(line, mode, width).len() >= 1,
        line_rows(line, mode, 0) == line_rows(line, mode, 1),
        line_rows(line, WrapMode::Unbroken, width) == seq![line],
        filled_rows(line, mode, if width == 0 { 1 } else { width }).len() >= 1 ==> line_rows(
            line,
            mode,
            width,
        ) == filled_rows(line, mode, if width == 0 { 1 } else { width }),
{
}

/// Lines are broken as their mode says: between graphemes, between words, or between words with the
/// wide ones broken between graphemes.
pub proof fn modes_say_where_lines_break(line: Seq<char>, width: nat)
    ensures
        filled_rows(line, WrapMode::Glyph, width) == glyph_rows(line, width),
        filled_rows(line, WrapMode::Word, width) == word_rows(word_pieces(line), width, false),
        filled_rows(line, WrapMode::WordOrGlyph, width) == word_rows(
            word_pieces(line),
            width,
            true,
        ),
        filled_rows(line, WrapMode::Unbroken, width) == seq![line],
{
}

/// The ranges of rows follow each other without a gap, from the first byte of the line to its last, and
/// each is as long as its row.
pub proof fn ranges_follow_each_other(r: Seq<(usize, usize)>, rows: Seq<Seq<char>>, i: int)
    requires
        ranges_of(r, rows),
        0 <= i < rows.len(),
    ensures
        r.len() == rows.len(),
        r[0].0 == 0,
        r.last().1 == byte_len(concat(rows)),
        i + 1 < rows.len() ==> r[i].1 == r[i + 1].0,
        r[i].1 - r[i].0 == byte_len(rows[i]),
{
    let none: Seq<char> = seq![];
    lemma_byte_len_bound(none);
    assert(rows.take(0) =~= seq![]);
    assert(concat(rows.take(0)) =~= none);
    assert(rows.take(rows.len() as int) =~= rows);
    let last = rows.len() - 1;
    assert(r[last].1 == byte_len(concat(rows.take(last + 1))));
    lemma_concat_step(rows, i);
    assert(r[i].0 == byte_len(concat(rows.take(i))));
}

/// The lengths of rows are theirs in bytes, one for each row.
pub proof fn lengths_are_those_of_the_rows(r: Seq<usize>, rows: Seq<Seq<char>>, i: int)
    requires
        lengths_of(r, rows),
        0 <= i < rows.len(),
    ensures
        r.len() == rows.len(),
        r[i] == byte_len(rows[i]),
{
}

/// Rows are no wider than the width, but for what the mode does not break: a single word, or a single
/// grapheme.
pub proof fn only_what_cannot_be_broken_is_wider(
    rows: Seq<Seq<char>>,
    width: nat,
    mode: WrapMode,
    i: int,
)
    requires
        rows_fit(rows, width, mode),
        0 <= i < rows.len(),
        columns(rows[i]) > width,
    ensures
        mode == WrapMode::Word ==> exists|line: Seq<char>| #[trigger]
            word_pieces(line).contains(rows[i]),
        mode == WrapMode::Glyph || mode == WrapMode::WordOrGlyph ==> exists|text: Seq<char>|
            #[trigger]
            grapheme_pieces(text).contains(rows[i]),
{
}

} // verus!
