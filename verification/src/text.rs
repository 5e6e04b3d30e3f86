//! Small operations on texts that the components share.

use vstd::prelude::*;
use vstd::string::StrSliceExecFns;
use vstd::string::StringExecFns;

verus! {

/// The text that `str::to_lowercase` returns for a text.
pub uninterp spec fn lowercase_of(text: Seq<char>) -> Seq<char>;

/// The text that `str::to_uppercase` returns for a text.
pub uninterp spec fn uppercase_of(text: Seq<char>) -> Seq<char>;

/// `str::to_lowercase` returns the lowercase equivalent of the text, as
/// Unicode defines it; the result is named [`lowercase_of`].
pub assume_specification[ str::to_lowercase ](s: &str) -> (r: String)
    ensures
        r@ == lowercase_of(s@),
;

/// `str::to_uppercase` returns the uppercase equivalent of the text, as
/// Unicode defines it; the result is named [`uppercase_of`].
pub assume_specification[ str::to_uppercase ](s: &str) -> (r: String)
    ensures
        r@ == uppercase_of(s@),
;

/// `String::push` appends the character to the end of the text.
pub assume_specification[ String::push ](s: &mut String, ch: char)
    ensures
        final(s)@ == old(s)@.push(ch),
;

/// The characters of the text.
pub fn chars_of(text: &str) -> (out: Vec<char>)
    ensures
        out@ == text@,
{
    broadcast use vstd::string::group_string_axioms;

    let mut out: Vec<char> = Vec::new();
    for c in it: text.chars()
        invariant
            it.seq() == text@,
            out@.len() == it.index(),
            forall|j: int| 0 <= j < out@.len() ==> out@[j] == it.seq()[j],
    {
        out.push(c);
    }
    assert(out@ =~= text@);
    out
}

/// The text that the characters spell.
pub fn text_of(chars: &Vec<char>) -> (text: String)
    ensures
        text@ == chars@,
{
    let mut text = String::new();
    let mut i: usize = 0;
    while i < chars.len()
        invariant
            i <= chars@.len(),
            text@ == chars@.take(i as int),
        decreases chars@.len() - i,
    {
        text.push(chars[i]);
        assert(chars@.take(i + 1) =~= chars@.take(i as int).push(chars@[i as int]));
        i += 1;
    }
    assert(chars@.take(chars@.len() as int) =~= chars@);
    text
}

/// `text` begins with `prefix`.
pub open spec fn starts_with(text: Seq<char>, prefix: Seq<char>) -> bool {
    prefix.len() <= text.len() && text.subrange(0, prefix.len() as int) == prefix
}

/// `text` ends with `suffix`.
pub open spec fn ends_with(text: Seq<char>, suffix: Seq<char>) -> bool {
    suffix.len() <= text.len() && text.subrange(text.len() - suffix.len(), text.len() as int)
        == suffix
}

/// Whether the two texts are the same.
pub fn same_text(a: &str, b: &str) -> (r: bool)
    ensures
        r == (a@ == b@),
{
    let x = a.to_owned();
    let y = b.to_owned();
    x == y
}

/// The two texts, one after the other.
pub fn joined(a: &str, b: &str) -> (r: String)
    ensures
        r@ == a@ + b@,
{
    a.to_owned().concat(b)
}

/// What is left of `text` once `prefix` is taken from its front, or `None`
/// where it does not begin with `prefix`.
pub fn without_prefix(text: &str, prefix: &str) -> (r: Option<String>)
    ensures
        r is Some <==> starts_with(text@, prefix@),
        r is Some ==> r.unwrap()@ == text@.subrange(prefix@.len() as int, text@.len() as int),
{
    let n = text.unicode_len();
    let k = prefix.unicode_len();
    if k > n {
        return None;
    }
    if same_text(text.substring_char(0, k), prefix) {
        Some(text.substring_char(k, n).to_owned())
    } else {
        None
    }
}

/// What is left of `text` once `suffix` is taken from its end, or `None`
/// where it does not end with `suffix`.
pub fn without_suffix(text: &str, suffix: &str) -> (r: Option<String>)
    ensures
        r is Some <==> ends_with(text@, suffix@),
        r is Some ==> r.unwrap()@ == text@.subrange(0, text@.len() - suffix@.len()),
{
    let n = text.unicode_len();
    let k = suffix.unicode_len();
    if k > n {
        return None;
    }
    if same_text(text.substring_char(n - k, n), suffix) {
        Some(text.substring_char(0, n - k).to_owned())
    } else {
        None
    }
}

/// Whether `needle` is one of `items`.
pub fn contains_text(items: &Vec<String>, needle: &str) -> (r: bool)
    ensures
        r == exists|i: int| 0 <= i < items@.len() && (#[trigger] items@[i])@ == needle@,
{
    let mut i: usize = 0;
    while i < items.len()
        invariant
            i <= items@.len(),
            forall|j: int| 0 <= j < i ==> (#[trigger] items@[j])@ != needle@,
        decreases items@.len() - i,
    {
        if same_text(items[i].as_str(), needle) {
            return true;
        }
        i += 1;
    }
    false
}

} // verus!
