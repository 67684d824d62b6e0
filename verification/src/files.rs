//! File tools: what is read of a file, and how it is edited.

use crate::helpers::{truncated_quoted, TruncatedDisplay};
use crate::text::{
    byte_len, decimal, decimal_signed, find_from, from_chars, is_part_of, join, joins_continue,
    occurs_at, push_decimal, push_signed, split_on, split_then_join, str_byte_len,
    texts_contain_their_parts, to_chars,
};
use vstd::prelude::*;
use vstd::view::View as _;

verus! {

/// Read a file, in whole or in part
#[derive(Debug)]
pub struct ViewParams {
    /// Filename to read
    pub filename: String,
    /// Range of lines to read (inclusive): First line and last line. Full file if not specified.
    pub range: Option<(usize, usize)>,
}

/// Result of reading a range from a file
#[derive(Debug)]
pub struct ViewResult {
    /// Filename from which data was read
    pub filename: String,
    /// Requested content
    pub content: String,
}

/// Overwrite a file in full
#[derive(Debug)]
pub struct WriteParams {
    /// Filename to overwrite
    pub filename: String,
    /// Full content to write into the file
    pub content: String,
}

/// Result of overwriting a file in full
#[derive(Debug)]
pub struct WriteResult {
    /// Filename into which the data was written
    pub filename: String,
    /// How much data was written
    pub bytes_written: usize,
}

/// Substitute a string in a file
#[derive(Debug)]
pub struct EditParams {
    /// File to edit
    pub filename: String,
    /// Old string, the one to replace
    pub old_content: String,
    /// New string to replace the old one
    pub new_content: String,
}

/// Result of editing a file
#[derive(Debug)]
pub struct EditResult {
    /// Filename into which the data was written
    pub filename: String,
    /// Size difference from before and after
    pub byte_size_changed: isize,
}

/// Write a full markdown file
#[derive(Debug)]
pub struct WriteMarkdownParams {
    /// Filename for the file (no path components, just plain filename)
    pub filename: String,
    /// What to write into the file (full content)
    pub content: String,
}

/// Result of writing the markdown file
#[derive(Debug)]
pub struct WriteMarkdownResult {
    /// Filename of the file written
    pub filename: String,
    /// How many bytes were written
    pub bytes_written: usize,
}

/// Allow reading files (unrestricted), in whole or in part
#[derive(Clone, Copy, Debug)]
pub struct View {}

/// Overwrite files (unrestricted) in whole
#[derive(Clone, Copy, Debug)]
pub struct Write {}

/// Substitute strings in files (unrestricted)
#[derive(Clone, Copy, Debug)]
pub struct Edit {}

/// Write markdown files into a directory; `P` is its path
#[derive(Debug)]
pub struct WriteMarkdown<P> {
    /// Directory where to store markdown output files
    dir: P,
}

/// Which lines are read: how many are passed over, and how many are read at most
#[derive(Clone, Copy, Debug, PartialEq, Eq, Structural)]
pub struct LineRange {
    /// How many are passed over
    pub skip: usize,
    /// How many are read at most
    pub take: usize,
}

/// The first and the last line to read.
pub open spec fn asked_range(range: Option<(usize, usize)>) -> (usize, usize) {
    match range {
        Some(range) => range,
        None => (0, usize::MAX),
    }
}

/// The number of lines from the first to the last, as far as it can be counted.
pub open spec fn line_count(range: (usize, usize)) -> int {
    (if range.1 == usize::MAX {
        usize::MAX as int
    } else {
        range.1 + 1
    }) - range.0
}

/// What is said of a range that ends before it starts.
pub open spec fn range_error(range: (usize, usize)) -> Seq<char> {
    "Range end\n                must be strictly greater than range start: "@ + decimal(
        range.1 as nat,
    ) + " > "@ + decimal(range.0 as nat)
}

/// The error of the first line that cannot be read.
pub open spec fn first_error(lines: Seq<Result<String, String>>) -> Option<Seq<char>>
    decreases lines.len(),
{
    if lines.len() == 0 {
        None
    } else {
        match first_error(lines.drop_last()) {
            Some(error) => Some(error),
            None => match lines.last() {
                Err(error) => Some(error@),
                Ok(_) => None,
            },
        }
    }
}

/// The texts of lines that can be read.
pub open spec fn line_texts(lines: Seq<Result<String, String>>) -> Seq<Seq<char>> {
    Seq::new(lines.len(), |i: int| lines[i]->Ok_0@)
}

/// Lines put together, with line breaks between them, or the error of the first that cannot be
/// read.
pub open spec fn put_together(lines: Seq<Result<String, String>>) -> Result<
    Seq<char>,
    Seq<char>,
> {
    match first_error(lines) {
        Some(error) => Err(error),
        None => Ok(join(line_texts(lines), "\n"@)),
    }
}

/// The lines of a range.
pub open spec fn in_range<A>(lines: Seq<A>, skip: nat, take: nat) -> Seq<A> {
    let rest = if skip >= lines.len() {
        seq![]
    } else {
        lines.skip(skip as int)
    };
    if take >= rest.len() {
        rest
    } else {
        rest.take(take as int)
    }
}

/// What is viewed of a file with the given lines: those of the range, or the full file, with the
/// line break at its end where it has one.
pub open spec fn viewed(
    range: Option<(usize, usize)>,
    lines: Seq<Result<String, String>>,
    ends_in_line_break: bool,
) -> Result<Seq<char>, Seq<char>> {
    let asked = asked_range(range);
    match put_together(in_range(lines, asked.0 as nat, line_count(asked) as nat)) {
        Ok(text) => Ok(
            if range is None && ends_in_line_break {
                text + "\n"@
            } else {
                text
            },
        ),
        Err(error) => Err(error),
    }
}

/// What is said of a file that something failed with.
pub open spec fn file_error_text(failed: Seq<char>, filename: Seq<char>, error: Seq<char>) -> Seq<
    char,
> {
    "Failed to "@ + failed + " "@ + filename + ": "@ + error
}

/// What is said of a file that something failed with.
pub fn file_error(failed: &str, filename: &str, error: &str) -> (r: String)
    ensures
        r@ == file_error_text(failed@, filename@, error@),
{
    let mut out = String::new();
    out.append("Failed to ");
    out.append(failed);
    out.append(" ");
    out.append(filename);
    out.append(": ");
    out.append(error);
    assert(out@ =~= file_error_text(failed@, filename@, error@));
    out
}

impl View {
    /// Allow viewing files (anywhere)
    pub fn new() -> (r: Self)
        ensures
            r == (View {  }),
    {
        View {  }
    }

    /// Which lines are read. A range that ends before it starts is an error.
    pub fn range(params: &ViewParams) -> (r: Result<LineRange, String>)
        ensures
            ({
                let range = asked_range(params.range);
                if line_count(range) < 0 {
                    r matches Err(error) && error@ == range_error(range)
                } else {
                    r == Ok::<LineRange, String>(
                        LineRange { skip: range.0, take: line_count(range) as usize },
                    )
                }
            }),
    {
        let range = match params.range {
            Some(range) => range,
            None => (0, usize::MAX),
        };
        let end: usize = range.1.saturating_add(1);
        if end < range.0 {
            let mut error = String::new();
            error.append(
                "Range end\n                must be strictly greater than range start: ",
            );
            push_decimal(&mut error, range.1);
            error.append(" > ");
            push_decimal(&mut error, range.0);
            assert(error@ =~= range_error(range));
            return Err(error);
        }
        Ok(LineRange { skip: range.0, take: end - range.0 })
    }

    /// What is read of a file, given its lines, or the errors in their places, and whether there is
    /// a line break after the last.
    #[verifier::spinoff_prover]
    pub fn execute(
        &self,
        params: ViewParams,
        lines: &Vec<Result<String, String>>,
        ends_in_line_break: bool,
    ) -> (r: Result<ViewResult, String>)
        ensures
            ({
                let range = asked_range(params.range);
                if line_count(range) < 0 {
                    r matches Err(error) && error@ == range_error(range)
                } else {
                    match viewed(params.range, lines@, ends_in_line_break) {
                        Ok(text) => r matches Ok(result) && result.filename == params.filename
                            && result.content@ == text,
                        Err(why) => r matches Err(error) && error@ == file_error_text(
                            "read"@,
                            params.filename@,
                            why,
                        ),
                    }
                }
            }),
    {
        let range = match Self::range(&params) {
            Ok(range) => range,
            Err(error) => {
                return Err(error);
            },
        };
        let start: usize = if range.skip < lines.len() {
            range.skip
        } else {
            lines.len()
        };
        let end: usize = if range.take < lines.len() - start {
            start + range.take
        } else {
            lines.len()
        };
        let ghost part = lines@.subrange(start as int, end as int);
        let mut content = String::new();
        proof {
            reveal_strlit("\n");
            assert(part =~= in_range(lines@, range.skip as nat, range.take as nat));
            assert(part.take(0) =~= seq![]);
            assert(content@ =~= join(line_texts(part.take(0)), "\n"@));
        }
        for i in start..end
            invariant
                start <= end <= lines@.len(),
                part == lines@.subrange(start as int, end as int),
                "\n"@ == seq!['\n'],
                put_together(part.take(i - start)) == Ok::<Seq<char>, Seq<char>>(content@),
                part == in_range(
                    lines@,
                    asked_range(params.range).0 as nat,
                    line_count(asked_range(params.range)) as nat,
                ),
                line_count(asked_range(params.range)) >= 0,
        {
            let ghost read = part.take(i - start);
            let ghost next = part.take(i - start + 1);
            proof {
                assert(next.drop_last() =~= read);
                assert(next.last() == lines@[i as int]);
            }
            match &lines[i] {
                Ok(line) => {
                    let ghost before = content@;
                    if i > start {
                        content.push('\n');
                    }
                    content.append(line.as_str());
                    proof {
                        assert(line_texts(next).drop_last() =~= line_texts(read));
                        assert(line_texts(next).last() == line@);
                        if i > start {
                            assert(content@ =~= before + "\n"@ + line@);
                        } else {
                            assert(content@ =~= line@);
                        }
                    }
                },
                Err(why) => {
                    proof {
                        lemma_first_error(part, i - start + 1);
                    }
                    return Err(file_error("read", params.filename.as_str(), why.as_str()));
                },
            }
        }
        assert(part.take(part.len() as int) =~= part);
        if params.range.is_none() && ends_in_line_break {
            let ghost before = content@;
            content.push('\n');
            assert(content@ =~= before + "\n"@);
        }
        Ok(ViewResult { filename: params.filename, content })
    }
}

/// The first line that cannot be read is so among more lines too.
proof fn lemma_first_error(lines: Seq<Result<String, String>>, k: int)
    requires
        0 <= k <= lines.len(),
        first_error(lines.take(k)) is Some,
    ensures
        first_error(lines) == first_error(lines.take(k)),
    decreases lines.len() - k,
{
    if k < lines.len() {
        assert(lines.take(k + 1).drop_last() =~= lines.take(k));
        lemma_first_error(lines, k + 1);
    } else {
        assert(lines.take(k) =~= lines);
    }
}

/// The lines of a text: what stands between its line breaks. There is no line after a line break at
/// the end.
pub open spec fn lines_of(text: Seq<char>) -> Seq<Seq<char>> {
    let pieces = split_on(text, '\n');
    if pieces.last().len() == 0 {
        pieces.drop_last()
    } else {
        pieces
    }
}

/// A view without a range gives the full file: from its lines, and whether it ends in a line break,
/// all of its text.
pub proof fn full_views_give_the_text(text: Seq<char>, lines: Seq<Result<String, String>>)
    requires
        lines.len() <= usize::MAX,
        first_error(lines) is None,
        line_texts(lines) == lines_of(text),
    ensures
        viewed(None, lines, text.len() > 0 && text.last() == '\n') == Ok::<Seq<char>, Seq<char>>(
            text,
        ),
{
    let pieces = split_on(text, '\n');
    split_then_join(text, '\n');
    reveal_strlit("\n");
    assert("\n"@ =~= seq!['\n']);
    assert(in_range(lines, 0, usize::MAX as nat) =~= lines);
    if text.len() == 0 {
        assert(pieces =~= seq![seq![]]);
        assert(lines_of(text) =~= seq![]);
        assert(join(line_texts(lines), "\n"@) =~= text);
    } else if text.last() == '\n' {
        assert(pieces.len() >= 2);
        assert(join(pieces, "\n"@) =~= join(pieces.drop_last(), "\n"@) + "\n"@);
    } else {
        assert(pieces.last().len() > 0);
    }
}

impl Write {
    /// Overwrite files (anywhere) in whole
    pub fn new() -> (r: Self)
        ensures
            r == (Write {  }),
    {
        Write {  }
    }

    /// The result, once all of the content is written.
    pub fn execute(&self, params: WriteParams) -> (r: WriteResult)
        ensures
            r.filename == params.filename,
            r.bytes_written == byte_len(params.content@),
    {
        let bytes_written: usize = str_byte_len(params.content.as_str());
        WriteResult { filename: params.filename, bytes_written }
    }
}

impl<P> WriteMarkdown<P> {
    /// Where markdown files are put.
    pub closed spec fn place(&self) -> P {
        self.dir
    }

    /// Create a new `write_markdown` tool, allowing to put markdown files into `dir`.
    pub fn new(dir: P) -> (r: Self)
        ensures
            r.place() == dir,
    {
        WriteMarkdown { dir }
    }

    /// Where markdown files are put.
    pub fn dir(&self) -> (r: &P)
        ensures
            *r == self.place(),
    {
        &self.dir
    }

    /// The result, once all of the content is written.
    pub fn execute(&self, params: WriteMarkdownParams) -> (r: WriteMarkdownResult)
        ensures
            r.filename == params.filename,
            r.bytes_written == byte_len(params.content@),
    {
        let bytes_written: usize = str_byte_len(params.content.as_str());
        WriteMarkdownResult { filename: params.filename, bytes_written }
    }
}

/// Whether `old` stands in a text first at a place.
pub open spec fn first_at(text: Seq<char>, old: Seq<char>, i: int) -> bool {
    &&& occurs_at(text, old, i)
    &&& forall|j: int| 0 <= j < i ==> !occurs_at(text, old, j)
}

/// Whether `old` stands in a text again, after the place where it stands.
pub open spec fn again_after(text: Seq<char>, old: Seq<char>, i: int) -> bool {
    exists|j: int| i + old.len() <= j && #[trigger] occurs_at(text, old, j)
}

impl Edit {
    /// Substitute strings in files (unrestricted)
    pub fn new() -> (r: Self)
        ensures
            r == (Edit {  }),
    {
        Edit {  }
    }

    /// The content of a file after the edit, and the result. The old string must stand in the file
    /// exactly once: the new one takes its place.
    pub fn execute(&self, params: EditParams, content: &str) -> (r: Result<
        (String, EditResult),
        String,
    >)
        requires
            byte_len(params.old_content@) <= isize::MAX,
            byte_len(params.new_content@) <= isize::MAX,
        ensures
            match r {
                Ok((edited, result)) => {
                    &&& exists|i: int| #[trigger]
                        first_at(content@, params.old_content@, i) && !again_after(
                            content@,
                            params.old_content@,
                            i,
                        ) && edited@ == content@.take(i) + params.new_content@ + content@.skip(
                            i + params.old_content@.len(),
                        )
                    &&& result.filename == params.filename
                    &&& result.byte_size_changed == byte_len(params.new_content@) - byte_len(
                        params.old_content@,
                    )
                },
                Err(error) => if exists|i: int| occurs_at(content@, params.old_content@, i) {
                    &&& error@ == "Multiple old_content matches in "@ + params.filename@
                    &&& exists|i: int| #[trigger]
                        first_at(content@, params.old_content@, i) && again_after(
                            content@,
                            params.old_content@,
                            i,
                        )
                } else {
                    error@ == "Did not find old_content string in "@ + params.filename@
                },
            },
    {
        let chars = to_chars(content);
        let old = to_chars(params.old_content.as_str());
        let len: usize = chars.len();
        let first: usize = match find_from(&chars, &old, 0) {
            Some(i) => i,
            None => {
                let mut error = String::new();
                error.append("Did not find old_content string in ");
                error.append(params.filename.as_str());
                assert(error@ =~= "Did not find old_content string in "@ + params.filename@);
                return Err(error);
            },
        };
        assert(first_at(content@, params.old_content@, first as int));
        let end: usize = first + old.len();
        if find_from(&chars, &old, end).is_some() {
            let mut error = String::new();
            error.append("Multiple old_content matches in ");
            error.append(params.filename.as_str());
            proof {
                assert(error@ =~= "Multiple old_content matches in "@ + params.filename@);
                assert(again_after(content@, params.old_content@, first as int));
            }
            return Err(error);
        }
        let mut edited = from_chars(&chars, 0, first);
        edited.append(params.new_content.as_str());
        let tail = from_chars(&chars, end, len);
        edited.append(tail.as_str());
        proof {
            assert(edited@ =~= content@.take(first as int) + params.new_content@ + content@.skip(
                first + params.old_content@.len(),
            ));
        }
        let new_len: isize = str_byte_len(params.new_content.as_str()) as isize;
        let old_len: isize = str_byte_len(params.old_content.as_str()) as isize;
        let byte_size_changed: isize = new_len - old_len;
        Ok((edited, EditResult { filename: params.filename, byte_size_changed }))
    }
}

/// An edit changes the size of a file by the number of bytes that it says.
pub proof fn edits_change_the_size_as_they_say(
    content: Seq<char>,
    old: Seq<char>,
    new: Seq<char>,
    i: int,
)
    requires
        occurs_at(content, old, i),
    ensures
        byte_len(content.take(i) + new + content.skip(i + old.len())) - byte_len(content)
            == byte_len(new) - byte_len(old),
{
    let head = content.take(i);
    let tail = content.skip(i + old.len());
    assert(content =~= head + old + tail);
    crate::text::lemma_encode_concat(head + old, tail);
    crate::text::lemma_encode_concat(head, old);
    crate::text::lemma_encode_concat(head + new, tail);
    crate::text::lemma_encode_concat(head, new);
}

/// A file name and a number in a form for display.
fn name_and_bytes(filename: &str, bytes: usize) -> (r: String)
    ensures
        r@ == "filename="@ + filename@ + " bytes_written="@ + decimal(bytes as nat),
{
    let mut out = String::new();
    out.append("filename=");
    out.append(filename);
    out.append(" bytes_written=");
    push_decimal(&mut out, bytes);
    assert(out@ =~= "filename="@ + filename@ + " bytes_written="@ + decimal(bytes as nat));
    out
}

/// A file name and the beginning of a content in a form for display.
fn name_and_content(filename: &str, content: &str) -> (r: String)
    ensures
        r@ == "filename="@ + filename@ + " content="@ + truncated_quoted(content@, 100),
{
    let mut out = String::new();
    out.append("filename=");
    out.append(filename);
    out.append(" content=");
    let shown = content.truncated_debug(100);
    out.append(shown.as_str());
    assert(out@ =~= "filename="@ + filename@ + " content="@ + truncated_quoted(content@, 100));
    out
}

impl ViewParams {
    /// The parameters in a form for display.
    pub fn display(&self) -> (r: String)
        ensures
            r@ == "filename="@ + self.filename@ + (match self.range {
                Some((start, end)) => " range=["@ + decimal(start as nat) + ", "@ + decimal(
                    end as nat,
                ) + "]"@,
                None => seq![],
            }),
    {
        let mut out = String::new();
        out.append("filename=");
        out.append(self.filename.as_str());
        match self.range {
            Some((start, end)) => {
                out.append(" range=[");
                push_decimal(&mut out, start);
                out.append(", ");
                push_decimal(&mut out, end);
                out.append("]");
            },
            None => {},
        }
        assert(out@ =~= "filename="@ + self.filename@ + (match self.range {
            Some((start, end)) => " range=["@ + decimal(start as nat) + ", "@ + decimal(
                end as nat,
            ) + "]"@,
            None => seq![],
        }));
        out
    }
}

impl ViewResult {
    /// The result in a form for display.
    pub fn display(&self) -> (r: String)
        ensures
            r@ == "filename="@ + self.filename@ + " content="@ + truncated_quoted(
                self.content@,
                100,
            ),
    {
        name_and_content(self.filename.as_str(), self.content.as_str())
    }
}

impl WriteParams {
    /// The parameters in a form for display.
    pub fn display(&self) -> (r: String)
        ensures
            r@ == "filename="@ + self.filename@ + " content="@ + truncated_quoted(
                self.content@,
                100,
            ),
    {
        name_and_content(self.filename.as_str(), self.content.as_str())
    }
}

impl WriteResult {
    /// The result in a form for display.
    pub fn display(&self) -> (r: String)
        ensures
            r@ == "filename="@ + self.filename@ + " bytes_written="@ + decimal(
                self.bytes_written as nat,
            ),
    {
        name_and_bytes(self.filename.as_str(), self.bytes_written)
    }
}

impl EditParams {
    /// The parameters in a form for display.
    pub fn display(&self) -> (r: String)
        ensures
            r@ == "filename="@ + self.filename@ + " "@ + truncated_quoted(self.old_content@, 100)
                + " -> "@ + truncated_quoted(self.new_content@, 100),
    {
        let mut out = String::new();
        out.append("filename=");
        out.append(self.filename.as_str());
        out.append(" ");
        let old = self.old_content.truncated_debug(100);
        out.append(old.as_str());
        out.append(" -> ");
        let new = self.new_content.truncated_debug(100);
        out.append(new.as_str());
        assert(out@ =~= "filename="@ + self.filename@ + " "@ + truncated_quoted(
            self.old_content@,
            100,
        ) + " -> "@ + truncated_quoted(self.new_content@, 100));
        out
    }
}

impl EditResult {
    /// The result in a form for display.
    pub fn display(&self) -> (r: String)
        ensures
            r@ == "filename="@ + self.filename@ + " byte_size_changed="@ + decimal_signed(
                self.byte_size_changed as int,
            ),
    {
        let mut out = String::new();
        out.append("filename=");
        out.append(self.filename.as_str());
        out.append(" byte_size_changed=");
        push_signed(&mut out, self.byte_size_changed);
        assert(out@ =~= "filename="@ + self.filename@ + " byte_size_changed="@ + decimal_signed(
            self.byte_size_changed as int,
        ));
        out
    }
}

impl WriteMarkdownParams {
    /// The parameters in a form for display.
    pub fn display(&self) -> (r: String)
        ensures
            r@ == "filename="@ + self.filename@ + " content="@ + truncated_quoted(
                self.content@,
                100,
            ),
    {
        name_and_content(self.filename.as_str(), self.content.as_str())
    }
}

impl WriteMarkdownResult {
    /// The result in a form for display.
    pub fn display(&self) -> (r: String)
        ensures
            r@ == "filename="@ + self.filename@ + " bytes_written="@ + decimal(
                self.bytes_written as nat,
            ),
    {
        name_and_bytes(self.filename.as_str(), self.bytes_written)
    }
}

/// What the first error among lines is: that of the first line that cannot be read.
proof fn lemma_where_it_fails(lines: Seq<Result<String, String>>)
    ensures
        match first_error(lines) {
            Some(error) => exists|i: int|
                0 <= i < lines.len() && (#[trigger] lines[i]) is Err && lines[i]->Err_0@ == error && (
                forall|j: int| 0 <= j < i ==> (#[trigger] lines[j]) is Ok),
            None => forall|i: int| 0 <= i < lines.len() ==> (#[trigger] lines[i]) is Ok,
        },
    decreases lines.len(),
{
    if lines.len() > 0 {
        let fewer = lines.drop_last();
        lemma_where_it_fails(fewer);
        match first_error(fewer) {
            Some(error) => {
                let i = choose|i: int|
                    0 <= i < fewer.len() && (#[trigger] fewer[i]) is Err && fewer[i]->Err_0@
                        == error && (forall|j: int| 0 <= j < i ==> (#[trigger] fewer[j]) is Ok);
                assert(lines[i] == fewer[i]);
                assert forall|j: int| 0 <= j < i implies (#[trigger] lines[j]) is Ok by {
                    assert(lines[j] == fewer[j]);
                }
            },
            None => {
                assert forall|j: int| 0 <= j < lines.len() - 1 implies (
                #[trigger] lines[j]) is Ok by {
                    assert(lines[j] == fewer[j]);
                }
                assert(lines.last() == lines[lines.len() - 1]);
            },
        }
    }
}

/// A view of a range of lines gives the lines from the first to the last of the range, both of them
/// counted in, as far as the file has them, with line breaks between them. It fails exactly if one
/// of these lines cannot be read, with the error of the first such line.
pub proof fn views_give_the_lines_of_their_range(
    first: usize,
    last: usize,
    lines: Seq<Result<String, String>>,
    ends_in_line_break: bool,
)
    requires
        first <= last < usize::MAX,
    ensures
        ({
            let start = if first < lines.len() {
                first as int
            } else {
                lines.len() as int
            };
            let end = if last < lines.len() {
                last + 1
            } else {
                lines.len() as int
            };
            let seen = viewed(Some((first, last)), lines, ends_in_line_break);
            &&& seen is Ok <==> forall|i: int| start <= i < end ==> (#[trigger] lines[i]) is Ok
            &&& seen is Ok ==> seen->Ok_0 == join(
                Seq::new((end - start) as nat, |i: int| lines[start + i]->Ok_0@),
                "\n"@,
            )
            &&& seen is Err ==> exists|i: int|
                start <= i < end && (#[trigger] lines[i]) is Err && lines[i]->Err_0@ == seen->Err_0
                    && (forall|j: int| start <= j < i ==> (#[trigger] lines[j]) is Ok)
        }),
{
    let start = if first < lines.len() {
        first as int
    } else {
        lines.len() as int
    };
    let end = if last < lines.len() {
        last + 1
    } else {
        lines.len() as int
    };
    let part = lines.subrange(start, end);
    assert(line_count((first, last)) == last + 1 - first);
    assert(in_range(lines, first as nat, (last + 1 - first) as nat) =~= part);
    lemma_where_it_fails(part);
    match first_error(part) {
        Some(error) => {
            let i = choose|i: int|
                0 <= i < part.len() && (#[trigger] part[i]) is Err && part[i]->Err_0@ == error && (
                forall|j: int| 0 <= j < i ==> (#[trigger] part[j]) is Ok);
            assert(lines[start + i] == part[i]);
            assert forall|j: int| start <= j < start + i implies (#[trigger] lines[j]) is Ok by {
                assert(part[j - start] == lines[j]);
            }
        },
        None => {
            assert forall|i: int| start <= i < end implies (#[trigger] lines[i]) is Ok by {
                assert(part[i - start] == lines[i]);
            }
            assert(line_texts(part) =~= Seq::new(
                (end - start) as nat,
                |i: int| lines[start + i]->Ok_0@,
            ));
        },
    }
}

/// A range is refused exactly if it ends more than one line before it starts.
pub proof fn ranges_may_not_end_before_they_start(first: usize, last: usize)
    ensures
        last < usize::MAX ==> (line_count((first, last)) < 0 <==> last + 1 < first),
        last == usize::MAX ==> line_count((first, last)) >= 0,
        last < usize::MAX && first <= last ==> line_count((first, last)) == last - first + 1,
{
}

/// Two views of ranges that follow each other make up the view of both together.
pub proof fn views_of_neighbouring_ranges_add_up(
    first: usize,
    middle: usize,
    last: usize,
    lines: Seq<Result<String, String>>,
    ends_in_line_break: bool,
)
    requires
        first <= middle < last < lines.len(),
        last < usize::MAX,
        forall|i: int| 0 <= i < lines.len() ==> (#[trigger] lines[i]) is Ok,
    ensures
        ({
            let next = (middle + 1) as usize;
            let a = viewed(Some((first, middle)), lines, ends_in_line_break);
            let b = viewed(Some((next, last)), lines, ends_in_line_break);
            let both = viewed(Some((first, last)), lines, ends_in_line_break);
            a is Ok && b is Ok && both is Ok && both->Ok_0 == a->Ok_0 + "\n"@ + b->Ok_0
        }),
{
    let next = (middle + 1) as usize;
    views_give_the_lines_of_their_range(first, middle, lines, ends_in_line_break);
    views_give_the_lines_of_their_range(next, last, lines, ends_in_line_break);
    views_give_the_lines_of_their_range(first, last, lines, ends_in_line_break);
    let x = Seq::new((middle + 1 - first) as nat, |i: int| lines[first + i]->Ok_0@);
    let y = Seq::new((last + 1 - next) as nat, |i: int| lines[next + i]->Ok_0@);
    let z = Seq::new((last + 1 - first) as nat, |i: int| lines[first + i]->Ok_0@);
    assert(z =~= x + y);
    joins_continue(x, y, "\n"@);
}

/// Where an old text stands first in a file, everything up to there and everything behind it stay
/// what they are when a new text takes its place; no occurrence starts earlier, and it stands there
/// again exactly if it stands in what is behind it.
pub proof fn edits_keep_what_is_around(content: Seq<char>, old: Seq<char>, i: int)
    requires
        first_at(content, old, i),
    ensures
        ({
            let before = content.take(i);
            let after = content.skip(i + old.len());
            &&& content == before + old + after
            &&& forall|a: Seq<char>, b: Seq<char>| content == #[trigger] (a + old + b) ==> a.len()
                >= before.len()
            &&& again_after(content, old, i) <==> is_part_of(old, after)
        }),
{
    let before = content.take(i);
    let after = content.skip(i + old.len());
    assert(content =~= before + old + after);
    assert forall|a: Seq<char>, b: Seq<char>| content == #[trigger] (a + old + b) implies a.len()
        >= before.len() by {
        let j = a.len() as int;
        assert(content.subrange(j, j + old.len()) =~= old);
        assert(occurs_at(content, old, j));
    }
    if again_after(content, old, i) {
        let j = choose|j: int| i + old.len() <= j && #[trigger] occurs_at(content, old, j);
        let k = j - i - old.len();
        assert(after.subrange(k, k + old.len()) =~= old);
        assert(occurs_at(after, old, k));
        texts_contain_their_parts(after, old);
    }
    if is_part_of(old, after) {
        texts_contain_their_parts(after, old);
        let k = choose|k: int| occurs_at(after, old, k);
        let j = i + old.len() + k;
        assert(content.subrange(j, j + old.len()) =~= old);
        assert(occurs_at(content, old, j));
    }
}

} // verus!
