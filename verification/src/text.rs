//! Conversions between strings and character sequences, and helpers for text
//! that is either borrowed or owned.

use std::borrow::Cow;
use vstd::prelude::*;

verus! {

/// Collects characters into a `String`, through `FromIterator<&char>` of
/// `String`: the string holds exactly the given characters, in order.
#[verifier::external_body]
pub(crate) fn collect_chars(chars: &[char]) -> (s: String)
    ensures
        s@ == chars@,
{
    String::from_iter(chars)
}

/// The string that holds the given characters, in order.
pub fn string_from_chars(chars: &[char]) -> (s: String)
    ensures
        s@ == chars@,
{
    collect_chars(chars)
}

/// The characters of a string, in order.
pub fn to_chars(s: &str) -> (v: Vec<char>)
    ensures
        v@ == s@,
{
    let mut v: Vec<char> = Vec::new();
    let it = s.chars();
    for c in iter: it
        invariant
            v@ == iter.seq().take(iter.index() as int),
    {
        v.push(c);
    }
    v
}

/// Whether two strings hold the same characters.
pub fn text_eq(a: &str, b: &str) -> (r: bool)
    ensures
        r == (a@ == b@),
{
    let x = a.to_owned();
    let y = b.to_owned();
    x == y
}

/// A borrowed view of `c`, whatever `c` itself is.
pub fn borrow_text<'a>(c: &'a Cow<'a, str>) -> (r: Cow<'a, str>)
    ensures
        r@ == c@,
        r is Borrowed,
{
    match c {
        Cow::Borrowed(b) => Cow::Borrowed(*b),
        Cow::Owned(o) => Cow::Borrowed(o.as_str()),
    }
}

/// An owned copy of `c`.
pub fn own_text<'a>(c: Cow<'a, str>) -> (r: Cow<'static, str>)
    ensures
        r@ == c@,
        r is Owned,
{
    match c {
        Cow::Borrowed(b) => Cow::Owned(b.to_owned()),
        Cow::Owned(o) => Cow::Owned(o),
    }
}

/// A copy of `c` of the same kind: borrowed stays borrowed.
pub fn clone_text<'a>(c: &Cow<'a, str>) -> (r: Cow<'a, str>)
    ensures
        r@ == c@,
{
    match c {
        Cow::Borrowed(b) => Cow::Borrowed(*b),
        Cow::Owned(o) => Cow::Owned(o.clone()),
    }
}

/// The string slice that `c` holds.
pub fn text_str<'b, 'a>(c: &'b Cow<'a, str>) -> (r: &'b str)
    ensures
        r@ == c@,
{
    match c {
        Cow::Borrowed(b) => *b,
        Cow::Owned(o) => o.as_str(),
    }
}

/// The texts of a list of strings.
pub open spec fn texts_view<'a>(v: Seq<Cow<'a, str>>) -> Seq<Seq<char>> {
    v.map_values(|c: Cow<'a, str>| c@)
}

/// Whether every string of the list is borrowed.
pub open spec fn texts_borrowed<'a>(v: Seq<Cow<'a, str>>) -> bool {
    forall|i: int| 0 <= i < v.len() ==> (#[trigger] v[i]) is Borrowed
}

/// Whether every string of the list is owned.
pub open spec fn texts_owned<'a>(v: Seq<Cow<'a, str>>) -> bool {
    forall|i: int| 0 <= i < v.len() ==> (#[trigger] v[i]) is Owned
}

/// Borrowed views of all strings of `v`, in order.
pub fn borrow_texts<'a>(v: &'a Vec<Cow<'a, str>>) -> (r: Vec<Cow<'a, str>>)
    ensures
        texts_view(r@) == texts_view(v@),
        texts_borrowed(r@),
{
    let mut out: Vec<Cow<'a, str>> = Vec::new();
    let mut i: usize = 0;
    while i < v.len()
        invariant
            i <= v@.len(),
            out@.len() == i,
            forall|k: int| 0 <= k < i ==> (#[trigger] out@[k])@ == v@[k]@,
            texts_borrowed(out@),
        decreases v@.len() - i,
    {
        out.push(borrow_text(&v[i]));
        i += 1;
    }
    assert(texts_view(out@) =~= texts_view(v@));
    out
}

/// Owned copies of all strings of `v`, in order.
pub fn own_texts<'a>(v: Vec<Cow<'a, str>>) -> (r: Vec<Cow<'static, str>>)
    ensures
        texts_view(r@) == texts_view(v@),
        texts_owned(r@),
{
    let mut out: Vec<Cow<'static, str>> = Vec::new();
    let mut i: usize = 0;
    while i < v.len()
        invariant
            i <= v@.len(),
            out@.len() == i,
            forall|k: int| 0 <= k < i ==> (#[trigger] out@[k])@ == v@[k]@,
            texts_owned(out@),
        decreases v@.len() - i,
    {
        out.push(own_text(clone_text(&v[i])));
        i += 1;
    }
    assert(texts_view(out@) =~= texts_view(v@));
    out
}

/// Copies of all strings of `v`, in order.
pub fn clone_texts<'a>(v: &Vec<Cow<'a, str>>) -> (r: Vec<Cow<'a, str>>)
    ensures
        texts_view(r@) == texts_view(v@),
{
    let mut out: Vec<Cow<'a, str>> = Vec::new();
    let mut i: usize = 0;
    while i < v.len()
        invariant
            i <= v@.len(),
            out@.len() == i,
            forall|k: int| 0 <= k < i ==> (#[trigger] out@[k])@ == v@[k]@,
        decreases v@.len() - i,
    {
        out.push(clone_text(&v[i]));
        i += 1;
    }
    assert(texts_view(out@) =~= texts_view(v@));
    out
}

/// Whether two lists hold the same texts in the same order.
pub fn texts_eq<'a, 'b>(a: &Vec<Cow<'a, str>>, b: &Vec<Cow<'b, str>>) -> (r: bool)
    ensures
        r == (texts_view(a@) == texts_view(b@)),
{
    if a.len() != b.len() {
        assert(texts_view(a@).len() != texts_view(b@).len());
        return false;
    }
    let mut i: usize = 0;
    while i < a.len()
        invariant
            i <= a@.len(),
            a@.len() == b@.len(),
            forall|k: int| 0 <= k < i ==> (#[trigger] a@[k])@ == b@[k]@,
        decreases a@.len() - i,
    {
        if !text_eq(text_str(&a[i]), text_str(&b[i])) {
            assert(texts_view(a@)[i as int] != texts_view(b@)[i as int]);
            return false;
        }
        i += 1;
    }
    assert(texts_view(a@) =~= texts_view(b@));
    true
}

} // verus!
