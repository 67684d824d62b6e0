//! Splitting of a stream of bytes into lines, whatever the pieces in which the bytes arrive.

use vstd::prelude::*;
use vstd::utf8::{decode_utf8, encode_utf8, valid_utf8};

verus! {

/// What `String::from_utf8` says of bytes that are not UTF-8.
pub uninterp spec fn utf8_error(bytes: Seq<u8>) -> Seq<char>;

/// `String::from_utf8`: the text that the bytes encode, where they are UTF-8; else its error in
/// words.
#[verifier::external_body]
fn string_from_utf8(bytes: Vec<u8>) -> (r: Result<String, String>)
    ensures
        match r {
            Ok(text) => valid_utf8(bytes@) && encode_utf8(text@) == bytes@,
            Err(error) => !valid_utf8(bytes@) && error@ == utf8_error(bytes@),
        },
{
    String::from_utf8(bytes).map_err(|err| err.to_string())
}

/// Bytes that arrive in pieces, to be read line by line
#[derive(Debug)]
pub struct NewlineSplit {
    /// End of source stream reached
    eof: bool,
    /// Data that came in and was not yet read
    buffer: Vec<u8>,
}

/// What comes of asking for a line
#[derive(Debug)]
pub enum LineStep {
    /// A line, with its newline where it has one
    Line(String),
    /// A line that is not UTF-8, and why not
    Unreadable(String),
    /// There are no more lines
    Ended,
    /// More bytes are needed
    NeedBytes,
}

/// The position of the first newline in `bytes`, their number where there is none.
pub open spec fn newline_at(bytes: Seq<u8>) -> nat
    decreases bytes.len(),
{
    if bytes.len() == 0 || bytes[0] == 10 {
        0
    } else {
        1 + newline_at(bytes.skip(1))
    }
}

/// The first line of what is left, with its newline, and what follows it. Once the source has
/// ended, what has no newline is a line too.
pub open spec fn first_line(bytes: Seq<u8>, eof: bool) -> Option<(Seq<u8>, Seq<u8>)> {
    let end = newline_at(bytes);
    if end < bytes.len() {
        Some((bytes.take(end as int + 1), bytes.skip(end as int + 1)))
    } else if eof && bytes.len() > 0 {
        Some((bytes, seq![]))
    } else {
        None
    }
}

/// The complete lines of `bytes`, each with its newline.
pub open spec fn complete_lines(bytes: Seq<u8>) -> Seq<Seq<u8>>
    decreases bytes.len(),
{
    let end = newline_at(bytes);
    if end < bytes.len() {
        seq![bytes.take(end as int + 1)] + complete_lines(bytes.skip(end as int + 1))
    } else {
        seq![]
    }
}

/// What follows the last newline of `bytes`.
pub open spec fn open_line(bytes: Seq<u8>) -> Seq<u8>
    decreases bytes.len(),
{
    let end = newline_at(bytes);
    if end < bytes.len() {
        open_line(bytes.skip(end as int + 1))
    } else {
        bytes
    }
}

/// All lines, one after the other.
pub open spec fn all_bytes(lines: Seq<Seq<u8>>) -> Seq<u8>
    decreases lines.len(),
{
    if lines.len() == 0 {
        seq![]
    } else {
        lines[0] + all_bytes(lines.skip(1))
    }
}

/// Where the first newline stands.
pub proof fn lemma_newline_at(bytes: Seq<u8>, i: int)
    requires
        0 <= i <= bytes.len(),
        forall|j: int| 0 <= j < i ==> bytes[j] != 10,
        i < bytes.len() ==> bytes[i] == 10,
    ensures
        newline_at(bytes) == i,
    decreases i,
{
    if i > 0 {
        assert(bytes.skip(1).len() == bytes.len() - 1);
        assert forall|j: int| 0 <= j < i - 1 implies bytes.skip(1)[j] != 10 by {
            assert(bytes.skip(1)[j] == bytes[j + 1]);
        }
        lemma_newline_at(bytes.skip(1), i - 1);
    }
}

/// What the position of the first newline says.
pub proof fn lemma_newline_found(bytes: Seq<u8>)
    ensures
        newline_at(bytes) <= bytes.len(),
        newline_at(bytes) < bytes.len() ==> bytes[newline_at(bytes) as int] == 10,
        forall|j: int| 0 <= j < newline_at(bytes) ==> bytes[j] != 10,
    decreases bytes.len(),
{
    if bytes.len() > 0 && bytes[0] != 10 {
        lemma_newline_found(bytes.skip(1));
        assert forall|j: int| 0 <= j < newline_at(bytes) implies bytes[j] != 10 by {
            if j > 0 {
                assert(bytes.skip(1)[j - 1] == bytes[j]);
            }
        }
    }
}

/// Splitting into lines loses nothing: the lines and the rest make up the bytes.
pub proof fn lines_make_up_the_bytes(bytes: Seq<u8>)
    ensures
        all_bytes(complete_lines(bytes)) + open_line(bytes) == bytes,
    decreases bytes.len(),
{
    let end = newline_at(bytes);
    if end < bytes.len() {
        let line = bytes.take(end as int + 1);
        let rest = bytes.skip(end as int + 1);
        lines_make_up_the_bytes(rest);
        let lines = complete_lines(bytes);
        assert(lines.skip(1) =~= complete_lines(rest));
        assert(all_bytes(lines) + open_line(bytes) =~= line + (all_bytes(complete_lines(rest))
            + open_line(rest)));
        assert(line + rest =~= bytes);
    } else {
        assert(all_bytes(complete_lines(bytes)) + open_line(bytes) =~= bytes);
    }
}

/// Each line holds one newline, which stands at its end.
pub proof fn lines_end_at_their_newline(bytes: Seq<u8>, i: int)
    requires
        0 <= i < complete_lines(bytes).len(),
    ensures
        complete_lines(bytes)[i].len() > 0,
        complete_lines(bytes)[i].last() == 10,
        !complete_lines(bytes)[i].drop_last().contains(10),
    decreases bytes.len(),
{
    let end = newline_at(bytes);
    lemma_newline_found(bytes);
    if i > 0 {
        lines_end_at_their_newline(bytes.skip(end as int + 1), i - 1);
    }
}

/// The lines do not depend on the pieces in which the bytes arrive: the lines of `a` and then those
/// of what is left of it with `b` are the lines of all of it.
pub proof fn lines_do_not_depend_on_pieces(a: Seq<u8>, b: Seq<u8>)
    ensures
        complete_lines(a + b) == complete_lines(a) + complete_lines(open_line(a) + b),
        open_line(a + b) == open_line(open_line(a) + b),
    decreases a.len(),
{
    let end = newline_at(a);
    lemma_newline_found(a);
    if end < a.len() {
        let n = end as int + 1;
        lemma_newline_at(a + b, end as int);
        assert((a + b).take(n) =~= a.take(n));
        assert((a + b).skip(n) =~= a.skip(n) + b);
        lines_do_not_depend_on_pieces(a.skip(n), b);
        assert(complete_lines(a + b) =~= complete_lines(a) + complete_lines(open_line(a) + b));
    } else {
        assert(complete_lines(a) + complete_lines(open_line(a) + b) =~= complete_lines(a + b));
    }
}

impl NewlineSplit {
    /// What came in and was not yet read.
    pub closed spec fn unread(&self) -> Seq<u8> {
        self.buffer@
    }

    /// Whether the source has ended.
    pub closed spec fn ended(&self) -> bool {
        self.eof
    }

    /// Nothing has come in yet.
    pub fn new() -> (r: Self)
        ensures
            r.unread() == Seq::<u8>::empty(),
            !r.ended(),
    {
        NewlineSplit { eof: false, buffer: Vec::new() }
    }

    /// More bytes came in.
    pub fn feed(&mut self, bytes: &[u8])
        ensures
            final(self).unread() == old(self).unread() + bytes@,
            final(self).ended() == old(self).ended(),
    {
        self.buffer.extend_from_slice(bytes);
        proof {
            assert(self.buffer@ =~= old(self).buffer@ + bytes@);
        }
    }

    /// The source has ended.
    pub fn finish(&mut self)
        ensures
            final(self).unread() == old(self).unread(),
            final(self).ended(),
    {
        self.eof = true;
    }

    /// Mark as terminated (in case of error).
    pub fn terminate(&mut self)
        ensures
            final(self).unread() == Seq::<u8>::empty(),
            final(self).ended(),
    {
        self.eof = true;
        self.buffer.clear();
        assert(self.buffer@ =~= seq![]);
    }

    /// Whether there is nothing left, and nothing to come.
    pub fn is_terminated(&self) -> (r: bool)
        ensures
            r == (self.unread().len() == 0 && self.ended()),
    {
        self.buffer.len() == 0 && self.eof
    }

    /// Split the first line off, if there is a complete one.
    fn split_line_from_buffer(&mut self) -> (r: Option<Vec<u8>>)
        ensures
            final(self).ended() == old(self).ended(),
            match r {
                Some(line) => first_line(old(self).unread(), false) == Some(
                    (line@, final(self).unread()),
                ),
                None => first_line(old(self).unread(), false) is None && final(self).unread()
                    == old(self).unread(),
            },
    {
        let mut i: usize = 0;
        while i < self.buffer.len() && self.buffer[i] != 10
            invariant
                *self == *old(self),
                i <= self.buffer@.len(),
                forall|j: int| 0 <= j < i ==> self.buffer@[j] != 10,
            decreases self.buffer@.len() - i,
        {
            i = i + 1;
        }
        proof {
            lemma_newline_at(self.buffer@, i as int);
        }
        if i == self.buffer.len() {
            return None;
        }
        let tail = self.buffer.split_off(i + 1);
        let mut line = tail;
        std::mem::swap(&mut line, &mut self.buffer);
        proof {
            assert(line@ =~= old(self).buffer@.take(i + 1));
            assert(self.buffer@ =~= old(self).buffer@.skip(i + 1));
        }
        Some(line)
    }

    /// The next line. One that is not UTF-8 ends it all.
    pub fn next_line(&mut self) -> (r: LineStep)
        ensures
            match first_line(old(self).unread(), old(self).ended()) {
                Some((line, rest)) => if valid_utf8(line) {
                    &&& r matches LineStep::Line(text) && text@ == decode_utf8(line)
                    &&& final(self).unread() == rest
                    &&& final(self).ended() == old(self).ended()
                } else {
                    &&& r matches LineStep::Unreadable(error) && error@ == utf8_error(line)
                    &&& final(self).unread().len() == 0
                    &&& final(self).ended()
                },
                None => {
                    &&& if old(self).ended() {
                        r is Ended
                    } else {
                        r is NeedBytes
                    }
                    &&& final(self).unread() == old(self).unread()
                    &&& final(self).ended() == old(self).ended()
                },
            },
    {
        proof {
            lemma_newline_found(self.buffer@);
        }
        let line = match self.split_line_from_buffer() {
            Some(line) => line,
            None => {
                if !self.eof {
                    return LineStep::NeedBytes;
                }
                if self.buffer.len() == 0 {
                    return LineStep::Ended;
                }
                let mut line: Vec<u8> = Vec::new();
                std::mem::swap(&mut line, &mut self.buffer);
                assert(self.buffer@ =~= seq![]);
                line
            },
        };
        let ghost bytes = line@;
        match string_from_utf8(line) {
            Ok(text) => {
                proof {
                    vstd::utf8::encode_utf8_decode_utf8(text@);
                }
                LineStep::Line(text)
            },
            Err(error) => {
                self.terminate();
                LineStep::Unreadable(error)
            },
        }
    }
}

/// What is read first: everything up to the first newline, with it; where there is none, everything
/// once no more is to come, and nothing before that. What is not read stays.
pub proof fn lines_are_read_up_to_the_first_newline(bytes: Seq<u8>, eof: bool)
    ensures
        bytes.contains(10) ==> (first_line(bytes, eof) matches Some((line, rest)) && line + rest
            == bytes && line.len() > 0 && line.last() == 10 && !line.drop_last().contains(10)),
        !bytes.contains(10) && eof && bytes.len() > 0 ==> first_line(bytes, eof) == Some(
            (bytes, Seq::<u8>::empty()),
        ),
        !bytes.contains(10) && (!eof || bytes.len() == 0) ==> first_line(bytes, eof) is None,
{
    let end = newline_at(bytes) as int;
    lemma_newline_found(bytes);
    if bytes.contains(10) {
        let i = bytes.index_of(10);
        assert(bytes[i] == 10);
        let line = bytes.take(end + 1);
        let rest = bytes.skip(end + 1);
        assert(line + rest =~= bytes);
        assert(!line.drop_last().contains(10)) by {
            if line.drop_last().contains(10) {
                let j = line.drop_last().index_of(10);
                assert(line.drop_last()[j] == 10);
                assert(bytes[j] == 10);
            }
        }
    } else if end < bytes.len() {
        assert(bytes[end] == 10);
    }
}

} // verus!
