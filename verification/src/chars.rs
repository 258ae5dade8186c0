//! Character classes of the expression language, and the text helpers the
//! parser is built on.

use vstd::prelude::*;

verus! {

/// An ASCII decimal digit.
pub open spec fn is_digit(c: char) -> bool {
    '0' <= c <= '9'
}

/// A character that may stand in a numeric literal: a digit or the point.
pub open spec fn is_number_char(c: char) -> bool {
    is_digit(c) || c == '.'
}

/// Whether `c` has the Unicode `Alphabetic` property, as `char::is_alphabetic`
/// decides it.
pub uninterp spec fn is_alphabetic_char(c: char) -> bool;

/// The lowercase mapping of `c`, as `char::to_lowercase` yields it: one or
/// more characters.
pub uninterp spec fn lowercase_chars(c: char) -> Seq<char>;

/// `char::is_alphabetic` depends on the character alone; its answer is the
/// one that [`is_alphabetic_char`] names. Nothing is claimed about which
/// characters are alphabetic.
pub assume_specification[ char::is_alphabetic ](c: char) -> (r: bool)
    ensures
        r == is_alphabetic_char(c),
;

/// `String::push` appends the character to the end of the string.
pub assume_specification[ String::push ](s: &mut String, ch: char)
    ensures
        final(s)@ == old(s)@.push(ch),
;

/// Calls `char::to_lowercase` and collects what the iterator yields. The
/// mapping depends on the character alone; the result is the one that
/// [`lowercase_chars`] names. Nothing is claimed about the mapping itself.
#[verifier::external_body]
pub(crate) fn lowercase(c: char) -> (r: String)
    ensures
        r@ == lowercase_chars(c),
{
    c.to_lowercase().to_string()
}

/// Whether `c` may stand in a numeric literal.
pub fn number_char(c: char) -> (r: bool)
    ensures
        r == is_number_char(c),
{
    (c >= '0' && c <= '9') || c == '.'
}

/// The lowercase mappings of the characters of `run`, one after the other.
pub open spec fn fold_case(run: Seq<char>) -> Seq<char>
    decreases run.len(),
{
    if run.len() == 0 {
        Seq::empty()
    } else {
        fold_case(run.drop_last()) + lowercase_chars(run.last())
    }
}

/// `text` without its space characters; everything else stays, in order.
pub open spec fn delete_spaces(text: Seq<char>) -> Seq<char> {
    text.filter(|c: char| c != ' ')
}

/// Deletes every space character of `text`, wherever it stands.
pub fn strip_spaces(text: &str) -> (r: String)
    ensures
        r@ == delete_spaces(text@),
{
    let mut out = String::new();
    proof {
        reveal(Seq::filter);
        assert(text@.take(0) =~= Seq::<char>::empty());
    }
    for c in it: text.chars()
        invariant
            it.seq() == text@,
            out@ == delete_spaces(text@.take(it.index())),
    {
        proof {
            let i = it.index();
            reveal(Seq::filter);
            assert(text@.take(i + 1).drop_last() =~= text@.take(i));
            assert(text@.take(i + 1).last() == c);
        }
        if c != ' ' {
            out.push(c);
        }
    }
    proof {
        assert(text@.take(text@.len() as int) =~= text@);
    }
    out
}

/// The characters of `text`, in order.
pub fn chars_of(text: &str) -> (r: Vec<char>)
    ensures
        r@ == text@,
{
    let mut out: Vec<char> = Vec::new();
    for c in it: text.chars()
        invariant
            it.seq() == text@,
            out@ == text@.take(it.index()),
    {
        out.push(c);
    }
    out
}

} // verus!
