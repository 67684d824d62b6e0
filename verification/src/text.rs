//! Text as sequences of characters: the vocabulary that the contracts of this library share, and
//! the string operations they are proved about.

use vstd::prelude::*;
use vstd::utf8::{encode_scalar, encode_utf8, is_char_boundary};

verus! {

/// `String::push` appends one character to the end of the string.
pub assume_specification[ String::push ](s: &mut String, c: char)
    ensures
        final(s)@ == old(s)@.push(c),
;

/// What `format!("{:?}", _)` writes for a string: quotes around it, special characters escaped.
pub uninterp spec fn debug_quoted(s: Seq<char>) -> Seq<char>;

/// `<str as Debug>::fmt`, through `format!`: the quoted and escaped form of `s`.
#[verifier::external_body]
pub(crate) fn debug_text(s: &str) -> (r: String)
    ensures
        r@ == debug_quoted(s@),
{
    format!("{:?}", s)
}

/// Number of bytes of `s` in UTF-8.
pub open spec fn byte_len(s: Seq<char>) -> nat {
    encode_utf8(s).len()
}

/// The views of a list of strings.
pub open spec fn texts(v: Seq<String>) -> Seq<Seq<char>> {
    Seq::new(v.len(), |i: int| v[i]@)
}

/// All parts, one after the other.
pub open spec fn concat(parts: Seq<Seq<char>>) -> Seq<char>
    decreases parts.len(),
{
    if parts.len() == 0 {
        seq![]
    } else {
        concat(parts.drop_last()) + parts.last()
    }
}

/// All parts, with `sep` between any two.
pub open spec fn join(parts: Seq<Seq<char>>, sep: Seq<char>) -> Seq<char>
    decreases parts.len(),
{
    if parts.len() == 0 {
        seq![]
    } else if parts.len() == 1 {
        parts[0]
    } else {
        join(parts.drop_last(), sep) + sep + parts.last()
    }
}

/// The pieces of `s` between the occurrences of `c`; there is always one more than there are
/// occurrences.
pub open spec fn split_on(s: Seq<char>, c: char) -> Seq<Seq<char>>
    decreases s.len(),
{
    if s.len() == 0 {
        seq![seq![]]
    } else {
        let before = split_on(s.drop_last(), c);
        if s.last() == c {
            before.push(seq![])
        } else {
            before.drop_last().push(before.last().push(s.last()))
        }
    }
}

/// `n` in decimal digits.
pub open spec fn decimal(n: nat) -> Seq<char>
    decreases n,
{
    if n < 10 {
        seq![digit(n)]
    } else {
        decimal(n / 10).push(digit(n % 10))
    }
}

/// The decimal digit of value `n`.
pub open spec fn digit(n: nat) -> char {
    (48 + n) as char
}

/// `i` in decimal digits, with a minus sign where it is negative.
pub open spec fn decimal_signed(i: int) -> Seq<char> {
    if i < 0 {
        seq!['-'] + decimal((-i) as nat)
    } else {
        decimal(i as nat)
    }
}

/// Unicode's `White_Space` property.
pub open spec fn is_white_space(c: char) -> bool {
    let n = c as u32;
    ||| 0x9 <= n <= 0xd
    ||| n == 0x20
    ||| n == 0x85
    ||| n == 0xa0
    ||| n == 0x1680
    ||| 0x2000 <= n <= 0x200a
    ||| n == 0x2028
    ||| n == 0x2029
    ||| n == 0x202f
    ||| n == 0x205f
    ||| n == 0x3000
}

/// `s` without its leading white space.
pub open spec fn trim_start(s: Seq<char>) -> Seq<char>
    decreases s.len(),
{
    if s.len() > 0 && is_white_space(s[0]) {
        trim_start(s.drop_first())
    } else {
        s
    }
}

/// `s` without its trailing white space.
pub open spec fn trim_end(s: Seq<char>) -> Seq<char>
    decreases s.len(),
{
    if s.len() > 0 && is_white_space(s.last()) {
        trim_end(s.drop_last())
    } else {
        s
    }
}

/// `s` without leading and trailing white space.
pub open spec fn trim(s: Seq<char>) -> Seq<char> {
    trim_end(trim_start(s))
}

/// `s` without the run of `c` at its end.
pub open spec fn trim_end_char(s: Seq<char>, c: char) -> Seq<char>
    decreases s.len(),
{
    if s.len() > 0 && s.last() == c {
        trim_end_char(s.drop_last(), c)
    } else {
        s
    }
}

/// What follows `prefix` in `s`, where `s` starts with it.
pub open spec fn strip_prefix(s: Seq<char>, prefix: Seq<char>) -> Option<Seq<char>> {
    if prefix.is_prefix_of(s) {
        Some(s.skip(prefix.len() as int))
    } else {
        None
    }
}

/// Whether `needle` stands in `s` at character `i`.
pub open spec fn occurs_at(s: Seq<char>, needle: Seq<char>, i: int) -> bool {
    &&& 0 <= i
    &&& i + needle.len() <= s.len()
    &&& s.subrange(i, i + needle.len()) == needle
}

/// Whether `needle` stands anywhere in `s`.
pub open spec fn contains_text(s: Seq<char>, needle: Seq<char>) -> bool {
    exists|i: int| occurs_at(s, needle, i)
}

/// `s` with every `"\r\n"` and every other `'\r'` turned into `'\n'`.
pub open spec fn with_unix_newlines(s: Seq<char>) -> Seq<char>
    decreases s.len(),
{
    if s.len() == 0 {
        seq![]
    } else if s.len() >= 2 && s[0] == '\r' && s[1] == '\n' {
        seq!['\n'] + with_unix_newlines(s.skip(2))
    } else if s[0] == '\r' {
        seq!['\n'] + with_unix_newlines(s.skip(1))
    } else {
        seq![s[0]] + with_unix_newlines(s.skip(1))
    }
}

/// At most the first `n` characters of `s`.
pub open spec fn first_chars(s: Seq<char>, n: nat) -> Seq<char> {
    if s.len() <= n {
        s
    } else {
        s.take(n as int)
    }
}

/// `s` where it has at most 50 bytes; else its first 49 characters and an ellipsis.
pub open spec fn shortened(s: Seq<char>) -> Seq<char> {
    if byte_len(s) <= 50 {
        s
    } else {
        first_chars(s, 49) + "…"@
    }
}

/// `s` in quotes: in debug form where it has at most 50 bytes; else its first 49 characters and
/// an ellipsis between plain quotes.
pub open spec fn shortened_quoted(s: Seq<char>) -> Seq<char> {
    if byte_len(s) <= 50 {
        debug_quoted(s)
    } else {
        "\""@ + first_chars(s, 49) + "…\""@
    }
}

/// A list of already formatted items in debug form.
pub open spec fn debug_list(items: Seq<Seq<char>>) -> Seq<char> {
    "["@ + join(items, ", "@) + "]"@
}

/// The debug forms of the strings of a list.
pub open spec fn quoted_all(items: Seq<Seq<char>>) -> Seq<Seq<char>> {
    items.map_values(|s: Seq<char>| debug_quoted(s))
}

/// The characters of `s`, in order.
pub fn to_chars(s: &str) -> (r: Vec<char>)
    ensures
        r@ == s@,
{
    let mut out: Vec<char> = Vec::new();
    for c in it: s.chars()
        invariant
            out@ == s@.take(it.index() as int),
            it.seq() == s@,
    {
        out.push(c);
    }
    out
}

/// The characters `from..to` of `chars` as a string.
pub fn from_chars(chars: &Vec<char>, from: usize, to: usize) -> (r: String)
    requires
        from <= to <= chars@.len(),
    ensures
        r@ == chars@.subrange(from as int, to as int),
{
    let mut out = String::new();
    for i in from..to
        invariant
            from <= to <= chars@.len(),
            out@ == chars@.subrange(from as int, i as int),
    {
        out.push(chars[i]);
    }
    out
}

/// Number of bytes of `s`.
pub fn str_byte_len(s: &str) -> (r: usize)
    ensures
        r == byte_len(s@),
{
    s.as_bytes().len()
}

/// Whether two strings are the same.
pub fn same_text(a: &str, b: &str) -> (r: bool)
    ensures
        r == (a@ == b@),
{
    let x = a.as_bytes();
    let y = b.as_bytes();
    proof {
        vstd::utf8::encode_utf8_decode_utf8(a@);
        vstd::utf8::encode_utf8_decode_utf8(b@);
    }
    if x.len() != y.len() {
        return false;
    }
    for i in 0..x.len()
        invariant
            x@.len() == y@.len(),
            x@ == encode_utf8(a@),
            y@ == encode_utf8(b@),
            forall|j: int| 0 <= j < i ==> x@[j] == y@[j],
    {
        if x[i] != y[i] {
            return false;
        }
    }
    assert(x@ =~= y@);
    true
}

/// Whether `c` is white space.
pub fn white_space(c: char) -> (r: bool)
    ensures
        r == is_white_space(c),
{
    let n = c as u32;
    (0x9 <= n && n <= 0xd) || n == 0x20 || n == 0x85 || n == 0xa0 || n == 0x1680 || (0x2000 <= n
        && n <= 0x200a) || n == 0x2028 || n == 0x2029 || n == 0x202f || n == 0x205f || n == 0x3000
}

/// Appends `n` in decimal.
pub fn push_decimal(out: &mut String, n: usize)
    ensures
        final(out)@ == old(out)@ + decimal(n as nat),
    decreases n,
{
    if n >= 10 {
        push_decimal(out, n / 10);
    }
    let d: u8 = 48 + (n % 10) as u8;
    out.push(d as char);
    assert(final(out)@ =~= old(out)@ + decimal(n as nat));
}

/// Appends `i` in decimal, with its sign where it is negative.
pub fn push_signed(out: &mut String, i: isize)
    ensures
        final(out)@ == old(out)@ + decimal_signed(i as int),
{
    if i < 0 {
        out.push('-');
        let n: usize = (-(i + 1)) as usize + 1;
        push_decimal(out, n);
        assert(final(out)@ =~= old(out)@ + decimal_signed(i as int));
    } else {
        push_decimal(out, i as usize);
    }
}

/// Appends at most the first `n` characters of `s`.
pub fn push_first_chars(out: &mut String, s: &str, n: usize)
    ensures
        final(out)@ == old(out)@ + first_chars(s@, n as nat),
{
    let ghost start = out@;
    let chars = to_chars(s);
    let end: usize = if chars.len() <= n {
        chars.len()
    } else {
        n
    };
    let head = from_chars(&chars, 0, end);
    out.append(head.as_str());
    assert(out@ =~= start + first_chars(s@, n as nat));
}

/// Appends the shortened form of `s`.
pub fn push_shortened(out: &mut String, s: &str)
    ensures
        final(out)@ == old(out)@ + shortened(s@),
{
    let ghost start = out@;
    if str_byte_len(s) <= 50 {
        out.append(s);
    } else {
        push_first_chars(out, s, 49);
        out.append("…");
    }
    assert(out@ =~= start + shortened(s@));
}

/// Appends the shortened form of `s` in quotes.
pub fn push_shortened_quoted(out: &mut String, s: &str)
    ensures
        final(out)@ == old(out)@ + shortened_quoted(s@),
{
    let ghost start = out@;
    if str_byte_len(s) <= 50 {
        let quoted = debug_text(s);
        out.append(quoted.as_str());
    } else {
        out.append("\"");
        push_first_chars(out, s, 49);
        out.append("…\"");
    }
    assert(out@ =~= start + shortened_quoted(s@));
}

/// Appends the items of `list` with `sep` between them.
pub fn push_joined(out: &mut String, list: &Vec<String>, sep: &str)
    ensures
        final(out)@ == old(out)@ + join(texts(list@), sep@),
{
    let ghost start = out@;
    for i in 0..list.len()
        invariant
            out@ == start + join(texts(list@).take(i as int), sep@),
    {
        let ghost before = out@;
        if i != 0 {
            out.append(sep);
        }
        out.append(list[i].as_str());
        proof {
            let now = texts(list@).take(i + 1);
            assert(now.drop_last() =~= texts(list@).take(i as int));
            assert(now.last() == list@[i as int]@);
            assert(out@ =~= start + join(now, sep@));
        }
    }
    assert(texts(list@).take(list@.len() as int) =~= texts(list@));
}

/// Appends a list of strings in debug form.
pub fn push_debug_strings(out: &mut String, list: &Vec<String>)
    ensures
        final(out)@ == old(out)@ + debug_list(quoted_all(texts(list@))),
{
    let ghost start = out@;
    let mut quoted: Vec<String> = Vec::new();
    for i in 0..list.len()
        invariant
            texts(quoted@) == quoted_all(texts(list@)).take(i as int),
    {
        let ghost before = quoted@;
        let q = debug_text(list[i].as_str());
        quoted.push(q);
        assert(texts(quoted@) =~= texts(before).push(q@));
        assert(texts(quoted@) =~= quoted_all(texts(list@)).take(i + 1));
    }
    assert(quoted_all(texts(list@)).take(list@.len() as int) =~= quoted_all(texts(list@)));
    out.append("[");
    push_joined(out, &quoted, ", ");
    out.append("]");
    assert(out@ =~= start + debug_list(quoted_all(texts(list@))));
}

/// `s` without white space at either end.
pub fn trimmed(s: &str) -> (r: String)
    ensures
        r@ == trim(s@),
{
    let chars = to_chars(s);
    let mut from: usize = 0;
    assert(chars@.skip(0) =~= chars@);
    while from < chars.len() && white_space(chars[from])
        invariant
            from <= chars@.len(),
            trim_start(chars@.skip(from as int)) == trim_start(s@),
        decreases chars@.len() - from,
    {
        assert(chars@.skip(from as int).drop_first() =~= chars@.skip(from + 1));
        from = from + 1;
    }
    assert(trim_start(s@) == chars@.skip(from as int));
    let mut to: usize = chars.len();
    assert(chars@.subrange(from as int, to as int) =~= chars@.skip(from as int));
    while from < to && white_space(chars[to - 1])
        invariant
            from <= to <= chars@.len(),
            trim_end(chars@.subrange(from as int, to as int)) == trim(s@),
        decreases to,
    {
        assert(chars@.subrange(from as int, to as int).drop_last() =~= chars@.subrange(
            from as int,
            to - 1,
        ));
        to = to - 1;
    }
    from_chars(&chars, from, to)
}

/// `s` without leading white space.
pub fn trimmed_start(s: &str) -> (r: String)
    ensures
        r@ == trim_start(s@),
{
    let chars = to_chars(s);
    let mut from: usize = 0;
    assert(chars@.skip(0) =~= chars@);
    while from < chars.len() && white_space(chars[from])
        invariant
            from <= chars@.len(),
            trim_start(chars@.skip(from as int)) == trim_start(s@),
        decreases chars@.len() - from,
    {
        assert(chars@.skip(from as int).drop_first() =~= chars@.skip(from + 1));
        from = from + 1;
    }
    assert(chars@.subrange(from as int, chars@.len() as int) =~= chars@.skip(from as int));
    from_chars(&chars, from, chars.len())
}

/// `s` without the run of `c` at its end.
pub fn without_trailing(s: &str, c: char) -> (r: String)
    ensures
        r@ == trim_end_char(s@, c),
{
    let chars = to_chars(s);
    let mut to: usize = chars.len();
    assert(chars@.take(to as int) =~= chars@);
    while to > 0 && chars[to - 1] == c
        invariant
            to <= chars@.len(),
            trim_end_char(chars@.take(to as int), c) == trim_end_char(s@, c),
        decreases to,
    {
        assert(chars@.take(to as int).drop_last() =~= chars@.take(to - 1));
        to = to - 1;
    }
    assert(chars@.subrange(0, to as int) =~= chars@.take(to as int));
    from_chars(&chars, 0, to)
}

/// What follows `prefix` in `s`, if `s` starts with it.
pub fn after_prefix(s: &str, prefix: &str) -> (r: Option<String>)
    ensures
        match r {
            Some(rest) => strip_prefix(s@, prefix@) == Some(rest@),
            None => strip_prefix(s@, prefix@) is None,
        },
{
    let chars = to_chars(s);
    let head = to_chars(prefix);
    if chars.len() < head.len() {
        return None;
    }
    for i in 0..head.len()
        invariant
            chars@ == s@,
            head@ == prefix@,
            head@.len() <= chars@.len(),
            forall|j: int| 0 <= j < i ==> chars@[j] == head@[j],
    {
        if chars[i] != head[i] {
            assert(s@.subrange(0, prefix@.len() as int)[i as int] != prefix@[i as int]);
            return None;
        }
    }
    assert(prefix@ =~= s@.subrange(0, prefix@.len() as int));
    let rest = from_chars(&chars, head.len(), chars.len());
    assert(rest@ =~= s@.skip(prefix@.len() as int));
    Some(rest)
}

/// Whether `needle` stands in `chars` at `i`.
fn stands_at(chars: &Vec<char>, needle: &Vec<char>, i: usize) -> (r: bool)
    requires
        i + needle@.len() <= chars@.len(),
    ensures
        r == occurs_at(chars@, needle@, i as int),
{
    let end: usize = chars.len();
    for j in 0..needle.len()
        invariant
            end == chars@.len(),
            i + needle@.len() <= end,
            forall|k: int| 0 <= k < j ==> chars@[i + k] == needle@[k],
    {
        if chars[i + j] != needle[j] {
            assert(chars@.subrange(i as int, i + needle@.len())[j as int] != needle@[j as int]);
            return false;
        }
    }
    assert(chars@.subrange(i as int, i + needle@.len()) =~= needle@);
    true
}

/// The first character position at or after `from` at which `needle` stands.
pub fn find_from(chars: &Vec<char>, needle: &Vec<char>, from: usize) -> (r: Option<usize>)
    requires
        from <= chars@.len(),
    ensures
        match r {
            Some(i) => {
                &&& from <= i
                &&& occurs_at(chars@, needle@, i as int)
                &&& forall|j: int| from <= j < i ==> !occurs_at(chars@, needle@, j)
            },
            None => forall|j: int| from <= j ==> !occurs_at(chars@, needle@, j),
        },
{
    if chars.len() < needle.len() {
        return None;
    }
    let last: usize = chars.len() - needle.len();
    let mut i: usize = from;
    while i <= last
        invariant
            from <= i,
            last == chars@.len() - needle@.len(),
            forall|j: int| from <= j < i ==> !occurs_at(chars@, needle@, j),
        decreases last + 1 - i,
    {
        if stands_at(chars, needle, i) {
            return Some(i);
        }
        if i == last {
            return None;
        }
        i = i + 1;
    }
    None
}

/// Whether `needle` stands anywhere in `s`.
pub fn has_text(s: &str, needle: &str) -> (r: bool)
    ensures
        r == contains_text(s@, needle@),
{
    let chars = to_chars(s);
    let needle_chars = to_chars(needle);
    find_from(&chars, &needle_chars, 0).is_some()
}

/// A text with an ID in it.
pub fn with_id(before: &str, id: &str, after: &str) -> (r: String)
    ensures
        r@ == before@ + id@ + after@,
{
    let mut out = String::new();
    out.append(before);
    out.append(id);
    out.append(after);
    assert(out@ =~= before@ + id@ + after@);
    out
}

/// Whether a list of texts has a text.
pub fn has_string(list: &Vec<String>, text: &str) -> (r: bool)
    ensures
        r == texts(list@).contains(text@),
{
    for i in 0..list.len()
        invariant
            forall|j: int| 0 <= j < i ==> texts(list@)[j] != text@,
    {
        if same_text(list[i].as_str(), text) {
            assert(texts(list@)[i as int] == text@);
            return true;
        }
    }
    false
}

/// The pieces of `s` between the occurrences of `c`.
pub fn split_at_char(s: &str, c: char) -> (r: Vec<String>)
    ensures
        texts(r@) == split_on(s@, c),
{
    let chars = to_chars(s);
    let mut done: Vec<String> = Vec::new();
    let mut current = String::new();
    assert(s@.take(0) =~= seq![]);
    assert(texts(done@).push(current@) =~= seq![seq![]]);
    for i in 0..chars.len()
        invariant
            chars@ == s@,
            texts(done@).push(current@) == split_on(s@.take(i as int), c),
    {
        let ghost before = split_on(s@.take(i as int), c);
        assert(s@.take(i + 1).drop_last() =~= s@.take(i as int));
        if chars[i] == c {
            let mut fresh = String::new();
            std::mem::swap(&mut fresh, &mut current);
            done.push(fresh);
            assert(texts(done@).push(current@) =~= before.push(seq![]));
        } else {
            current.push(chars[i]);
            assert(texts(done@).push(current@) =~= before.drop_last().push(
                before.last().push(chars@[i as int]),
            ));
        }
    }
    assert(s@.take(s@.len() as int) =~= s@);
    let ghost all = texts(done@).push(current@);
    done.push(current);
    assert(texts(done@) =~= all);
    done
}

/// `s` with all line endings turned into `'\n'`.
pub fn unix_newlines(s: &str) -> (r: String)
    ensures
        r@ == with_unix_newlines(s@),
{
    let chars = to_chars(s);
    let mut out = String::new();
    let mut i: usize = 0;
    assert(s@.skip(0) =~= s@);
    while i < chars.len()
        invariant
            chars@ == s@,
            i <= chars@.len(),
            with_unix_newlines(s@) == out@ + with_unix_newlines(s@.skip(i as int)),
        decreases chars@.len() - i,
    {
        let ghost rest = s@.skip(i as int);
        let ghost before = out@;
        let c = chars[i];
        assert(rest.skip(1) =~= s@.skip(i + 1));
        if c == '\r' {
            out.push('\n');
            if i + 1 < chars.len() && chars[i + 1] == '\n' {
                assert(rest.skip(2) =~= s@.skip(i + 2));
                assert(out@ + with_unix_newlines(s@.skip(i + 2)) =~= before + with_unix_newlines(rest));
                i = i + 2;
            } else {
                assert(out@ + with_unix_newlines(s@.skip(i + 1)) =~= before + with_unix_newlines(rest));
                i = i + 1;
            }
        } else {
            out.push(c);
            assert(out@ + with_unix_newlines(s@.skip(i + 1)) =~= before + with_unix_newlines(rest));
            i = i + 1;
        }
    }
    assert(out@ + with_unix_newlines(s@.skip(i as int)) =~= out@);
    out
}

/// Text with its line endings normalised holds no carriage return.
pub proof fn unix_newlines_hold_no_carriage_return(s: Seq<char>)
    ensures
        !with_unix_newlines(s).contains('\r'),
    decreases s.len(),
{
    if s.len() > 0 {
        unix_newlines_hold_no_carriage_return(s.skip(1));
        if s.len() >= 2 {
            unix_newlines_hold_no_carriage_return(s.skip(2));
        }
    }
}

/// Joining the pieces of a split text with the character they were split at gives the text back,
/// and no piece holds that character.
pub proof fn split_then_join(s: Seq<char>, c: char)
    ensures
        split_on(s, c).len() >= 1,
        join(split_on(s, c), seq![c]) == s,
        forall|i: int| 0 <= i < split_on(s, c).len() ==> !(#[trigger] split_on(s, c)[i]).contains(c),
    decreases s.len(),
{
    if s.len() > 0 {
        let before = split_on(s.drop_last(), c);
        let parts = split_on(s, c);
        split_then_join(s.drop_last(), c);
        if s.last() == c {
            assert(parts.drop_last() =~= before);
            assert(join(parts, seq![c]) =~= s);
        } else {
            assert(parts.drop_last() =~= before.drop_last());
            assert(parts.last() =~= before.last() + seq![s.last()]);
            assert(join(parts, seq![c]) =~= join(before, seq![c]) + seq![s.last()]);
            assert(join(parts, seq![c]) =~= s);
            assert forall|i: int| 0 <= i < parts.len() implies !(#[trigger] parts[i]).contains(c) by {
                if i < before.len() - 1 {
                    assert(parts[i] == before[i]);
                } else {
                    assert(!before[i].contains(c));
                }
            }
        }
    } else {
        assert(join(split_on(s, c), seq![c]) =~= s);
    }
}

/// Encoding a concatenation encodes the parts one after the other.
pub proof fn lemma_encode_concat(a: Seq<char>, b: Seq<char>)
    ensures
        encode_utf8(a + b) == encode_utf8(a) + encode_utf8(b),
        byte_len(a + b) == byte_len(a) + byte_len(b),
    decreases a.len(),
{
    if a.len() == 0 {
        assert(a + b =~= b);
        assert(encode_utf8(a + b) =~= encode_utf8(a) + encode_utf8(b));
    } else {
        lemma_encode_concat(a.drop_first(), b);
        assert((a + b).drop_first() =~= a.drop_first() + b);
        assert((a + b)[0] == a[0]);
        assert(encode_utf8(a + b) =~= encode_utf8(a) + encode_utf8(b));
    }
}

/// The bytes of a text grow by those of each character appended.
pub proof fn lemma_byte_len_push(a: Seq<char>, c: char)
    ensures
        byte_len(a.push(c)) == byte_len(a) + encode_scalar(c as u32).len(),
        1 <= encode_scalar(c as u32).len() <= 4,
{
    lemma_encode_concat(a, seq![c]);
    assert(a.push(c) =~= a + seq![c]);
    reveal_with_fuel(encode_utf8, 2);
    assert(seq![c].drop_first() =~= seq![]);
}

/// A text has no more characters than bytes, and none of either only where it has none of both.
pub proof fn lemma_byte_len_bound(a: Seq<char>)
    ensures
        a.len() <= byte_len(a),
        byte_len(a) == 0 <==> a.len() == 0,
    decreases a.len(),
{
    if a.len() > 0 {
        lemma_byte_len_bound(a.drop_last());
        lemma_byte_len_push(a.drop_last(), a.last());
        assert(a.drop_last().push(a.last()) =~= a);
    }
}

/// The part of a text before a character position has no more bytes than the whole.
pub proof fn lemma_byte_len_take(a: Seq<char>, i: int)
    requires
        0 <= i <= a.len(),
    ensures
        byte_len(a) == byte_len(a.take(i)) + byte_len(a.skip(i)),
{
    lemma_encode_concat(a.take(i), a.skip(i));
    assert(a.take(i) + a.skip(i) =~= a);
}

/// Two texts with the same bytes are the same text.
pub proof fn lemma_encode_injective(a: Seq<char>, b: Seq<char>)
    requires
        encode_utf8(a) == encode_utf8(b),
    ensures
        a == b,
{
    vstd::utf8::encode_utf8_decode_utf8(a);
    vstd::utf8::encode_utf8_decode_utf8(b);
}

/// The end of a prefix is a character boundary of the whole.
pub proof fn lemma_prefix_is_boundary(a: Seq<char>, b: Seq<char>)
    ensures
        is_char_boundary(encode_utf8(a + b), byte_len(a) as int),
    decreases a.len(),
{
    let bytes = encode_utf8(a + b);
    vstd::utf8::encode_utf8_valid_utf8(a + b);
    lemma_encode_concat(a, b);
    if a.len() > 0 {
        vstd::utf8::encode_utf8_first_scalar(a + b);
        lemma_prefix_is_boundary(a.drop_first(), b);
        assert((a + b).drop_first() =~= a.drop_first() + b);
        assert((a + b)[0] == a[0]);
        assert(vstd::utf8::pop_first_scalar(bytes) =~= encode_utf8(a.drop_first() + b));
    }
}

/// The parts of `s` before and after byte `mid`, which ends a character prefix of `s`.
pub fn split_str<'a>(s: &'a str, mid: usize) -> (r: (&'a str, &'a str))
    requires
        exists|k: int| 0 <= k <= s@.len() && byte_len(#[trigger] s@.take(k)) == mid,
    ensures
        s@ == r.0@ + r.1@,
        byte_len(r.0@) == mid,
{
    proof {
        let k = choose|k: int| 0 <= k <= s@.len() && byte_len(#[trigger] s@.take(k)) == mid;
        lemma_prefix_is_boundary(s@.take(k), s@.skip(k));
        lemma_byte_len_take(s@, k);
        assert(s@.take(k) + s@.skip(k) =~= s@);
    }
    let (head, tail) = s.split_at(mid);
    proof {
        lemma_encode_concat(head@, tail@);
        let bytes = encode_utf8(s@);
        assert(bytes =~= bytes.subrange(0, mid as int) + bytes.subrange(
            mid as int,
            bytes.len() as int,
        ));
        lemma_encode_injective(s@, head@ + tail@);
    }
    (head, tail)
}

/// Appending a part to a list of parts appends it to their concatenation.
pub proof fn lemma_concat_push(parts: Seq<Seq<char>>, part: Seq<char>)
    ensures
        concat(parts.push(part)) == concat(parts) + part,
{
    assert(parts.push(part).drop_last() =~= parts);
}

/// Concatenation of a list of parts made of two lists.
pub proof fn lemma_concat_add(a: Seq<Seq<char>>, b: Seq<Seq<char>>)
    ensures
        concat(a + b) == concat(a) + concat(b),
    decreases b.len(),
{
    if b.len() == 0 {
        assert(a + b =~= a);
        assert(concat(a + b) =~= concat(a) + concat(b));
    } else {
        lemma_concat_add(a, b.drop_last());
        assert((a + b).drop_last() =~= a + b.drop_last());
        assert(concat(a + b) =~= concat(a) + concat(b));
    }
}

/// Whether a text is a part of another: something may stand before it, and something after it.
pub open spec fn is_part_of(part: Seq<char>, whole: Seq<char>) -> bool {
    exists|before: Seq<char>, after: Seq<char>| whole == #[trigger] (before + part + after)
}

/// A text contains its parts, and nothing else.
pub proof fn texts_contain_their_parts(whole: Seq<char>, part: Seq<char>)
    ensures
        contains_text(whole, part) <==> is_part_of(part, whole),
{
    if contains_text(whole, part) {
        let i = choose|i: int| occurs_at(whole, part, i);
        assert(whole =~= whole.take(i) + part + whole.skip(i + part.len()));
    }
    if is_part_of(part, whole) {
        let (before, after) = choose|before: Seq<char>, after: Seq<char>|
            whole == #[trigger] (before + part + after);
        let i = before.len() as int;
        assert(whole.subrange(i, i + part.len()) =~= part);
        assert(occurs_at(whole, part, i));
    }
}

/// What is left of a text without a prefix is what follows the prefix in it; a text has a prefix
/// exactly if it is that prefix followed by something.
pub proof fn stripping_undoes_prefixing(s: Seq<char>, prefix: Seq<char>, rest: Seq<char>)
    ensures
        strip_prefix(s, prefix) == Some(rest) <==> s == prefix + rest,
        strip_prefix(s, prefix) is None <==> forall|t: Seq<char>| s != #[trigger] (prefix + t),
{
    if s == prefix + rest {
        assert(prefix =~= s.take(prefix.len() as int));
        assert(s.skip(prefix.len() as int) =~= rest);
    }
    if prefix.is_prefix_of(s) {
        let t = s.skip(prefix.len() as int);
        assert(prefix + t =~= s);
    }
    assert forall|t: Seq<char>| strip_prefix(s, prefix) is None implies s != #[trigger] (prefix
        + t) by {
        if s == prefix + t {
            assert(prefix =~= s.take(prefix.len() as int));
        }
    }
}

/// The number that a text of decimal digits stands for.
pub open spec fn value_of(digits: Seq<char>) -> int
    decreases digits.len(),
{
    if digits.len() == 0 {
        0
    } else {
        10 * value_of(digits.drop_last()) + (digits.last() as int - '0' as int)
    }
}

/// A number in decimal has the value of the number, is made of digits only, and has no zero at its
/// front unless it is zero.
pub proof fn decimals_have_their_value(n: nat)
    ensures
        value_of(decimal(n)) == n,
        decimal(n).len() >= 1,
        forall|i: int| 0 <= i < decimal(n).len() ==> '0' <= #[trigger] decimal(n)[i] <= '9',
        decimal(n)[0] == '0' <==> n == 0,
    decreases n,
{
    if n < 10 {
        let one = decimal(n);
        assert(one.drop_last() =~= seq![]);
        assert(value_of(one.drop_last()) == 0);
    } else {
        decimals_have_their_value(n / 10);
        assert(decimal(n).drop_last() =~= decimal(n / 10));
    }
}

/// A number with a sign has the sign exactly if it is negative, and its digits have its value.
pub proof fn signed_decimals_have_their_value(i: int)
    ensures
        i >= 0 ==> value_of(decimal_signed(i)) == i && decimal_signed(i)[0] != '-',
        i < 0 ==> decimal_signed(i)[0] == '-' && value_of(decimal_signed(i).skip(1)) == -i,
{
    if i < 0 {
        decimals_have_their_value((-i) as nat);
        assert(decimal_signed(i).skip(1) =~= decimal((-i) as nat));
    } else {
        decimals_have_their_value(i as nat);
        assert('0' <= decimal(i as nat)[0]);
    }
}

/// Whether a text is white space only.
pub open spec fn is_blank(s: Seq<char>) -> bool {
    forall|i: int| 0 <= i < s.len() ==> is_white_space(#[trigger] s[i])
}

/// Trimming at the front takes away white space, all that there is.
pub proof fn trimmed_starts_are_white_space(s: Seq<char>)
    ensures
        trim_start(s).is_suffix_of(s),
        is_blank(s.take(s.len() - trim_start(s).len())),
        trim_start(s).len() > 0 ==> !is_white_space(trim_start(s)[0]),
    decreases s.len(),
{
    let left = trim_start(s);
    if s.len() > 0 && is_white_space(s[0]) {
        let rest = s.drop_first();
        trimmed_starts_are_white_space(rest);
        assert(left =~= s.skip(s.len() - left.len())) by {
            assert(left =~= rest.skip(rest.len() - left.len()));
        }
        let gone = s.take(s.len() - left.len());
        let others = rest.take(rest.len() - left.len());
        assert forall|i: int| 0 <= i < gone.len() implies is_white_space(#[trigger] gone[i]) by {
            if i > 0 {
                assert(gone[i] == others[i - 1]);
            }
        }
    } else {
        assert(left =~= s.skip(0));
    }
}

/// Trimming at the end takes away white space, all that there is.
pub proof fn trimmed_ends_are_white_space(s: Seq<char>)
    ensures
        trim_end(s).is_prefix_of(s),
        is_blank(s.skip(trim_end(s).len() as int)),
        trim_end(s).len() > 0 ==> !is_white_space(trim_end(s).last()),
    decreases s.len(),
{
    let left = trim_end(s);
    if s.len() > 0 && is_white_space(s.last()) {
        let rest = s.drop_last();
        trimmed_ends_are_white_space(rest);
        assert(left =~= s.take(left.len() as int)) by {
            assert(left =~= rest.take(left.len() as int));
        }
        let gone = s.skip(left.len() as int);
        let others = rest.skip(left.len() as int);
        assert forall|i: int| 0 <= i < gone.len() implies is_white_space(#[trigger] gone[i]) by {
            if i < others.len() {
                assert(gone[i] == others[i]);
            } else {
                assert(gone[i] == s.last());
            }
        }
    } else {
        assert(left =~= s.take(s.len() as int));
    }
}

/// Trimming takes away the white space around a text, all of it and nothing else.
pub proof fn trimming_takes_white_space_away(s: Seq<char>)
    ensures
        exists|before: Seq<char>, after: Seq<char>|
            is_blank(before) && is_blank(after) && s == #[trigger] (before + trim(s) + after),
        trim(s).len() > 0 ==> !is_white_space(trim(s)[0]) && !is_white_space(trim(s).last()),
{
    let middle = trim_start(s);
    let before = s.take(s.len() - middle.len());
    let after = middle.skip(trim(s).len() as int);
    trimmed_starts_are_white_space(s);
    trimmed_ends_are_white_space(middle);
    assert(middle =~= trim(s) + after);
    assert(middle == s.skip(s.len() - middle.len()));
    assert(s =~= before + trim(s) + after);
    if trim(s).len() > 0 {
        assert(trim(s)[0] == middle[0]);
    }
}

/// The white space among the characters below 128 is the space, the tab, the newline, and those
/// between tab and carriage return.
pub proof fn white_space_of_ascii(c: char)
    requires
        (c as u32) < 128,
    ensures
        is_white_space(c) <==> c == ' ' || '\t' <= c <= '\r',
{
}

/// Without its run of a character at the end, a text does not end with that character; and
/// only that character was taken away.
pub proof fn only_the_run_at_the_end_goes(s: Seq<char>, c: char)
    ensures
        trim_end_char(s, c).is_prefix_of(s),
        forall|i: int| trim_end_char(s, c).len() <= i < s.len() ==> #[trigger] s[i] == c,
        trim_end_char(s, c).len() > 0 ==> trim_end_char(s, c).last() != c,
    decreases s.len(),
{
    let left = trim_end_char(s, c);
    if s.len() > 0 && s.last() == c {
        let rest = s.drop_last();
        only_the_run_at_the_end_goes(rest, c);
        assert(left =~= s.take(left.len() as int)) by {
            assert(left =~= rest.take(left.len() as int));
        }
        assert forall|i: int| left.len() <= i < s.len() implies #[trigger] s[i] == c by {
            if i < rest.len() {
                assert(rest[i] == s[i]);
            }
        }
    } else {
        assert(left =~= s.take(s.len() as int));
    }
}

/// Splitting text that ends with a piece that holds no separator.
proof fn lemma_split_end(s: Seq<char>, piece: Seq<char>, c: char)
    requires
        !piece.contains(c),
    ensures
        split_on(s, c).len() >= 1,
        split_on(s + piece, c) == split_on(s, c).drop_last().push(split_on(s, c).last() + piece),
    decreases piece.len(),
{
    split_then_join(s, c);
    let before = split_on(s, c);
    if piece.len() == 0 {
        assert(s + piece =~= s);
        assert(before.last() + piece =~= before.last());
        assert(before.drop_last().push(before.last()) =~= before);
    } else {
        let rest = piece.drop_last();
        assert(!rest.contains(c)) by {
            if rest.contains(c) {
                let i = rest.index_of(c);
                assert(piece[i] == c);
            }
        }
        assert(piece.last() != c) by {
            assert(piece[piece.len() - 1] == piece.last());
        }
        lemma_split_end(s, rest, c);
        assert((s + piece).drop_last() =~= s + rest);
        assert((before.last() + rest).push(piece.last()) =~= before.last() + piece);
        assert(split_on(s + piece, c) =~= before.drop_last().push(before.last() + piece));
    }
}

/// Splitting what was joined gives the parts back, as long as none of them holds the separator.
pub proof fn join_then_split(parts: Seq<Seq<char>>, c: char)
    requires
        parts.len() > 0,
        forall|i: int| 0 <= i < parts.len() ==> !(#[trigger] parts[i]).contains(c),
    ensures
        split_on(join(parts, seq![c]), c) == parts,
    decreases parts.len(),
{
    let fewer = parts.drop_last();
    let last = parts.last();
    let none: Seq<char> = seq![];
    assert(!last.contains(c)) by {
        assert(parts[parts.len() - 1] == last);
    }
    if parts.len() == 1 {
        lemma_split_end(none, last, c);
        assert(none + last =~= last);
        assert(split_on(none, c) =~= seq![none]);
        assert(join(parts, seq![c]) =~= last);
        assert(split_on(last, c) =~= parts);
    } else {
        assert forall|i: int| 0 <= i < fewer.len() implies !(#[trigger] fewer[i]).contains(c) by {
            assert(fewer[i] == parts[i]);
        }
        join_then_split(fewer, c);
        let head = join(fewer, seq![c]) + seq![c];
        assert(head.drop_last() =~= join(fewer, seq![c]));
        assert(head.last() == c);
        assert(split_on(head, c) =~= fewer.push(none));
        lemma_split_end(head, last, c);
        assert(join(parts, seq![c]) =~= head + last);
        assert(none + last =~= last);
        assert(split_on(head + last, c) =~= parts);
    }
}

/// A joined list is its parts in their order with the separator between any two.
pub proof fn joins_continue(a: Seq<Seq<char>>, b: Seq<Seq<char>>, sep: Seq<char>)
    requires
        a.len() > 0,
        b.len() > 0,
    ensures
        join(a + b, sep) == join(a, sep) + sep + join(b, sep),
    decreases b.len(),
{
    let fewer = b.drop_last();
    assert((a + b).drop_last() =~= a + fewer);
    assert((a + b).last() == b.last());
    if b.len() == 1 {
        assert(a + fewer =~= a);
        assert(join(a + b, sep) =~= join(a, sep) + sep + join(b, sep));
    } else {
        joins_continue(a, fewer, sep);
        assert(join(a + b, sep) =~= join(a, sep) + sep + join(b, sep));
    }
}

/// A joined list of one is what it lists, and one of nothing is empty.
pub proof fn joins_begin(part: Seq<char>, sep: Seq<char>)
    ensures
        join(seq![part], sep) == part,
        join(seq![], sep) == Seq::<char>::empty(),
{
}

/// Text without carriage returns has the newlines that are wanted already.
pub proof fn unix_newlines_stay(s: Seq<char>)
    requires
        !s.contains('\r'),
    ensures
        with_unix_newlines(s) == s,
    decreases s.len(),
{
    if s.len() > 0 {
        let rest = s.skip(1);
        assert(s[0] != '\r') by {
            if s[0] == '\r' {
                assert(s.contains('\r'));
            }
        }
        assert(!rest.contains('\r')) by {
            if rest.contains('\r') {
                let i = rest.index_of('\r');
                assert(s[i + 1] == '\r');
            }
        }
        unix_newlines_stay(rest);
        assert(with_unix_newlines(s) =~= s);
    }
}

/// Newlines are turned one by one: a text is turned part by part, unless it is parted between a
/// carriage return and a newline.
pub proof fn newlines_turn_part_by_part(a: Seq<char>, b: Seq<char>)
    requires
        a.len() > 0 && b.len() > 0 ==> !(a.last() == '\r' && b[0] == '\n'),
    ensures
        with_unix_newlines(a + b) == with_unix_newlines(a) + with_unix_newlines(b),
    decreases a.len(),
{
    let all = a + b;
    if a.len() == 0 {
        assert(all =~= b);
        assert(with_unix_newlines(a) + with_unix_newlines(b) =~= with_unix_newlines(b));
    } else if a.len() >= 2 && a[0] == '\r' && a[1] == '\n' {
        assert(all.skip(2) =~= a.skip(2) + b);
        newlines_turn_part_by_part(a.skip(2), b);
        assert(with_unix_newlines(all) =~= with_unix_newlines(a) + with_unix_newlines(b));
    } else {
        assert(all.skip(1) =~= a.skip(1) + b);
        assert(a.skip(1).len() > 0 ==> a.skip(1).last() == a.last());
        newlines_turn_part_by_part(a.skip(1), b);
        if a.len() == 1 {
            assert(a.last() == a[0]);
        }
        assert(with_unix_newlines(all) =~= with_unix_newlines(a) + with_unix_newlines(b));
    }
}

/// Both forms of other newlines become one newline.
pub proof fn newlines_become_unix_newlines()
    ensures
        with_unix_newlines(seq!['\r', '\n']) == seq!['\n'],
        with_unix_newlines(seq!['\r']) == seq!['\n'],
{
    let two: Seq<char> = seq!['\r', '\n'];
    let one: Seq<char> = seq!['\r'];
    assert(two.skip(2) =~= seq![]);
    assert(one.skip(1) =~= seq![]);
    assert(with_unix_newlines(two.skip(2)) =~= seq![]);
    assert(with_unix_newlines(one.skip(1)) =~= seq![]);
    assert(with_unix_newlines(two) =~= seq!['\n']);
    assert(with_unix_newlines(one) =~= seq!['\n']);
}

/// The first characters of a text are a prefix of it: all of it, or as many as were asked for.
pub proof fn first_characters_are_a_prefix(s: Seq<char>, n: nat)
    ensures
        first_chars(s, n).is_prefix_of(s),
        s.len() <= n ==> first_chars(s, n).len() == s.len(),
        s.len() > n ==> first_chars(s, n).len() == n,
{
    assert(first_chars(s, n) =~= s.take(first_chars(s, n).len() as int));
}

/// A text of at most 50 bytes is not shortened. A longer one is cut to at most 50 characters, the
/// last of which is an ellipsis after as much of the text as goes before it.
pub proof fn shortened_texts_are_short(s: Seq<char>)
    ensures
        byte_len(s) <= 50 ==> shortened(s) == s,
        shortened(s).len() <= 50,
        byte_len(s) > 50 ==> {
            &&& shortened(s).last() == '…'
            &&& shortened(s).drop_last().is_prefix_of(s)
            &&& shortened(s).len() == 50 || shortened(s).drop_last() == s
        },
{
    reveal_strlit("…");
    lemma_byte_len_bound(s);
    if byte_len(s) > 50 {
        assert(shortened(s).drop_last() =~= first_chars(s, 49));
        first_characters_are_a_prefix(s, 49);
        if s.len() <= 49 {
            assert(first_chars(s, 49) == s);
        }
    }
}

/// A text is a part of what it stands in.
pub proof fn lemma_part(before: Seq<char>, part: Seq<char>, after: Seq<char>)
    ensures
        is_part_of(part, before + part + after),
{
}

/// A part of a part is a part.
pub proof fn lemma_part_of_part(inner: Seq<char>, middle: Seq<char>, outer: Seq<char>)
    requires
        is_part_of(inner, middle),
        is_part_of(middle, outer),
    ensures
        is_part_of(inner, outer),
{
    let (a, b) = choose|a: Seq<char>, b: Seq<char>| middle == #[trigger] (a + inner + b);
    let (c, d) = choose|c: Seq<char>, d: Seq<char>| outer == #[trigger] (c + middle + d);
    assert(outer =~= (c + a) + inner + (b + d));
}

/// What stands in one of two texts stands in both together.
pub proof fn lemma_part_of_sum(part: Seq<char>, a: Seq<char>, b: Seq<char>)
    requires
        is_part_of(part, a) || is_part_of(part, b),
    ensures
        is_part_of(part, a + b),
{
    let none: Seq<char> = seq![];
    if is_part_of(part, a) {
        assert(a + b =~= none + a + b);
        lemma_part(none, a, b);
        lemma_part_of_part(part, a, a + b);
    } else {
        assert(a + b =~= a + b + none);
        lemma_part(a, b, none);
        lemma_part_of_part(part, b, a + b);
    }
}

/// A text is a part of itself.
pub proof fn lemma_part_of_itself(s: Seq<char>)
    ensures
        is_part_of(s, s),
{
    let none: Seq<char> = seq![];
    assert(s =~= none + s + none);
}

/// Each part of a list stands in the joined list.
pub proof fn joins_hold_their_parts(parts: Seq<Seq<char>>, sep: Seq<char>, i: int)
    requires
        0 <= i < parts.len(),
    ensures
        is_part_of(parts[i], join(parts, sep)),
    decreases parts.len(),
{
    if parts.len() == 1 {
        lemma_part_of_itself(parts[0]);
    } else if i == parts.len() - 1 {
        lemma_part_of_itself(parts.last());
        lemma_part_of_sum(parts.last(), join(parts.drop_last(), sep) + sep, parts.last());
    } else {
        let fewer = parts.drop_last();
        joins_hold_their_parts(fewer, sep, i);
        lemma_part_of_sum(parts[i], join(fewer, sep), sep);
        lemma_part_of_sum(parts[i], join(fewer, sep) + sep, parts.last());
    }
}

/// A text of at most 50 bytes is quoted in full. Of a longer one the beginning is quoted, up to 49
/// characters, and an ellipsis.
pub proof fn shortened_quotes_are_short(s: Seq<char>)
    ensures
        byte_len(s) <= 50 ==> shortened_quoted(s) == debug_quoted(s),
        byte_len(s) > 50 ==> {
            let quoted = shortened_quoted(s);
            &&& quoted.len() <= 52
            &&& quoted[0] == '"' && quoted.last() == '"' && quoted[quoted.len() - 2] == '…'
            &&& quoted.subrange(1, quoted.len() - 2).is_prefix_of(s)
            &&& quoted.len() == 52 || quoted.subrange(1, quoted.len() - 2) == s
        },
{
    reveal_strlit("\"");
    reveal_strlit("…\"");
    if byte_len(s) > 50 {
        let quoted = shortened_quoted(s);
        first_characters_are_a_prefix(s, 49);
        assert(quoted.subrange(1, quoted.len() - 2) =~= first_chars(s, 49));
        if s.len() <= 49 {
            assert(first_chars(s, 49) == s);
        }
    }
}

/// White space in front makes no difference to trimming at the front.
proof fn lemma_trim_start(before: Seq<char>, s: Seq<char>)
    requires
        is_blank(before),
    ensures
        trim_start(before + s) == trim_start(s),
    decreases before.len(),
{
    if before.len() == 0 {
        assert(before + s =~= s);
    } else {
        let rest = before.drop_first();
        assert(is_blank(rest)) by {
            assert forall|i: int| 0 <= i < rest.len() implies is_white_space(#[trigger] rest[i]) by {
                assert(rest[i] == before[i + 1]);
            }
        }
        lemma_trim_start(rest, s);
        assert(is_white_space(before[0]));
        assert((before + s)[0] == before[0]);
        assert((before + s).drop_first() =~= rest + s);
    }
}

/// White space behind makes no difference to trimming at the end.
proof fn lemma_trim_end(s: Seq<char>, after: Seq<char>)
    requires
        is_blank(after),
    ensures
        trim_end(s + after) == trim_end(s),
    decreases after.len(),
{
    if after.len() == 0 {
        assert(s + after =~= s);
    } else {
        let rest = after.drop_last();
        assert(is_blank(rest)) by {
            assert forall|i: int| 0 <= i < rest.len() implies is_white_space(#[trigger] rest[i]) by {
                assert(rest[i] == after[i]);
            }
        }
        lemma_trim_end(s, rest);
        assert(is_white_space(after[after.len() - 1]));
        assert((s + after).last() == after.last());
        assert((s + after).drop_last() =~= s + rest);
    }
}

/// Trimming gives back what white space was put around, whatever white space that was.
pub proof fn trimming_leaves_what_is_between(before: Seq<char>, s: Seq<char>, after: Seq<char>)
    requires
        is_blank(before),
        is_blank(after),
        s.len() > 0 ==> !is_white_space(s[0]) && !is_white_space(s.last()),
    ensures
        trim(before + s + after) == s,
        trim_start(before + s) == s,
{
    lemma_trim_start(before, s);
    assert(before + s + after =~= before + (s + after));
    lemma_trim_start(before, s + after);
    if s.len() > 0 {
        assert((s + after)[0] == s[0]);
        lemma_trim_end(s, after);
    } else {
        let none: Seq<char> = seq![];
        assert(s + after =~= after + none);
        lemma_trim_start(after, none);
    }
}

/// Each part stands in all parts together.
pub proof fn all_parts_hold_each(parts: Seq<Seq<char>>, i: int)
    requires
        0 <= i < parts.len(),
    ensures
        is_part_of(parts[i], concat(parts)),
    decreases parts.len(),
{
    let fewer = parts.drop_last();
    if i == parts.len() - 1 {
        lemma_part_of_itself(parts.last());
    } else {
        all_parts_hold_each(fewer, i);
    }
    lemma_part_of_sum(parts[i], concat(fewer), parts.last());
}

} // verus!
