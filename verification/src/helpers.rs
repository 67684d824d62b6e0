//! Common simple helpers.

use crate::text::{debug_quoted, debug_text, from_chars, to_chars};
use vstd::prelude::*;

verus! {

/// Allow merging two objects of the same type into one.
pub trait Mergeable: Sized {
    /// Both as one, with `other` taking precedence.
    spec fn merged(self, other: Self) -> Self;

    /// Merge `other` into `self`, with `other` taking precedence.
    fn merge(&mut self, other: Self)
        ensures
            *final(self) == old(self).merged(other),
    ;

    /// Merge `other` into `self`, with `self` taking precedence.
    fn merge_weak(&mut self, other: Self)
        ensures
            *final(self) == other.merged(*old(self)),
    ;
}

impl<T> Mergeable for Option<T> {
    /// The other one if it is there.
    open spec fn merged(self, other: Self) -> Self {
        if other is Some {
            other
        } else {
            self
        }
    }

    fn merge(&mut self, other: Self) {
        if other.is_some() {
            *self = other;
        }
    }

    fn merge_weak(&mut self, other: Self) {
        if self.is_none() {
            *self = other;
        }
    }
}

impl Mergeable for bool {
    /// Whether either is set.
    open spec fn merged(self, other: Self) -> Self {
        self || other
    }

    fn merge(&mut self, other: Self) {
        *self = *self || other;
    }

    fn merge_weak(&mut self, other: Self) {
        *self = *self || other;
    }
}

/// Of three that are merged the last that is there takes precedence, in whatever order they are
/// merged.
pub proof fn merging_options_is_associative<T>(a: Option<T>, b: Option<T>, c: Option<T>)
    ensures
        a.merged(b).merged(c) == a.merged(b.merged(c)),
{
}

/// A text of at most `max_length` characters, the last of which is an ellipsis where it was cut.
pub open spec fn truncated(text: Seq<char>, max_length: nat) -> Seq<char> {
    if max_length == 0 {
        seq![]
    } else if text.len() <= max_length {
        text
    } else {
        text.take(max_length - 1) + "…"@
    }
}

/// The debug form of a text that is cut to at most `max_length` characters, followed by an ellipsis
/// where it was cut.
pub open spec fn truncated_quoted(text: Seq<char>, max_length: nat) -> Seq<char> {
    if max_length == 0 {
        seq![]
    } else if text.len() <= max_length {
        debug_quoted(text)
    } else {
        debug_quoted(text.take(max_length - 1)) + "…"@
    }
}

/// Auto-truncate objects at a given length for displaying
pub trait TruncatedDisplay {
    /// The text to display.
    spec fn text(&self) -> Seq<char>;

    /// Display `self` with at most `max_length` `char`s, including a trailing '…' in case of
    /// truncation.
    fn truncated_display(&self, max_length: usize) -> (r: String)
        ensures
            r@ == truncated(self.text(), max_length as nat),
    ;

    /// Display the debug form of `self`, of which at most `max_length` `char`s are shown, including
    /// a trailing '…' in case of truncation.
    fn truncated_debug(&self, max_length: usize) -> (r: String)
        ensures
            r@ == truncated_quoted(self.text(), max_length as nat),
    ;
}

impl TruncatedDisplay for &str {
    open spec fn text(&self) -> Seq<char> {
        self@
    }

    fn truncated_display(&self, max_length: usize) -> (r: String) {
        if max_length == 0 {
            let none = String::new();
            assert(none@ =~= seq![]);
            return none;
        }
        let chars = to_chars(self);
        if chars.len() <= max_length {
            return (*self).to_string();
        }
        let mut out = from_chars(&chars, 0, max_length - 1);
        out.append("…");
        assert(out@ =~= truncated(self@, max_length as nat));
        out
    }

    fn truncated_debug(&self, max_length: usize) -> (r: String) {
        if max_length == 0 {
            let none = String::new();
            assert(none@ =~= seq![]);
            return none;
        }
        let chars = to_chars(self);
        if chars.len() <= max_length {
            return debug_text(self);
        }
        let head = from_chars(&chars, 0, max_length - 1);
        let mut out = debug_text(head.as_str());
        out.append("…");
        assert(head@ =~= self@.take(max_length - 1));
        out
    }
}

impl TruncatedDisplay for String {
    open spec fn text(&self) -> Seq<char> {
        self@
    }

    fn truncated_display(&self, max_length: usize) -> (r: String) {
        self.as_str().truncated_display(max_length)
    }

    fn truncated_debug(&self, max_length: usize) -> (r: String) {
        self.as_str().truncated_debug(max_length)
    }
}

/// Truncation keeps to the length that is asked for, and leaves short texts alone.
pub proof fn truncation_keeps_to_its_length(text: Seq<char>, max_length: nat)
    ensures
        truncated(text, max_length).len() <= max_length,
        max_length > 0 && text.len() <= max_length ==> truncated(text, max_length) == text,
{
    reveal_strlit("…");
}

/// What is merged in takes precedence where it is there; where it is not, nothing changes. Flags stay
/// set.
pub proof fn what_is_merged_in_takes_precedence<T>(a: Option<T>, b: Option<T>, x: bool, y: bool)
    ensures
        b is Some ==> a.merged(b) == b,
        b is None ==> a.merged(b) == a,
        x.merged(y) <==> x || y,
{
}

/// A text that is truncated is shown from its beginning: as many characters as fit before an ellipsis,
/// which together make up the length that is asked for.
pub proof fn truncation_keeps_the_beginning(text: Seq<char>, max_length: nat)
    requires
        0 < max_length < text.len(),
    ensures
        ({
            let shown = truncated(text, max_length);
            &&& shown.len() == max_length
            &&& shown.last() == '…'
            &&& shown.drop_last().is_prefix_of(text)
        }),
        ({
            let quoted = truncated_quoted(text, max_length);
            let kept = text.take(max_length - 1);
            quoted == debug_quoted(kept).push('…')
        }),
{
    reveal_strlit("…");
    let shown = truncated(text, max_length);
    assert(shown.drop_last() =~= text.take(max_length - 1));
    assert(text.take(max_length - 1) =~= text.take(shown.drop_last().len() as int));
    assert(truncated_quoted(text, max_length) =~= debug_quoted(text.take(max_length - 1)).push(
        '…',
    ));
}

/// Short texts are quoted in full, and nothing is shown where nothing may be.
pub proof fn short_texts_are_quoted_in_full(text: Seq<char>, max_length: nat)
    ensures
        0 < max_length && text.len() <= max_length ==> truncated_quoted(text, max_length)
            == debug_quoted(text),
        truncated(text, 0).len() == 0,
        truncated_quoted(text, 0).len() == 0,
{
}

} // verus!
