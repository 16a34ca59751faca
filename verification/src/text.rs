//! Small helpers on ASCII text.
use vstd::prelude::*;
use vstd::string::*;

verus! {

/// `String::push`: appends one character to the end of the string.
#[verifier::external_body]
pub(crate) fn push_char(s: &mut String, c: char)
    ensures
        final(s)@ == old(s)@.push(c),
{
    s.push(c);
}

/// The number of characters of an ASCII text.
pub(crate) fn text_len(s: &str) -> (r: usize)
    requires
        s.is_ascii(),
    ensures
        r == s@.len(),
{
    proof {
        is_ascii_spec_bytes(s);
    }
    s.as_bytes().len()
}

/// Whether two ASCII texts hold the same characters.
pub(crate) fn same_text(a: &str, b: &str) -> (r: bool)
    requires
        a.is_ascii(),
        b.is_ascii(),
    ensures
        r == (a@ == b@),
{
    proof {
        is_ascii_spec_bytes(a);
        is_ascii_spec_bytes(b);
    }
    let n = a.as_bytes().len();
    if n != b.as_bytes().len() {
        return false;
    }
    let mut i: usize = 0;
    while i < n
        invariant
            a.is_ascii(),
            b.is_ascii(),
            n == a@.len(),
            n == b@.len(),
            i <= n,
            forall|j: int| 0 <= j < i ==> a@[j] == b@[j],
        decreases n - i,
    {
        if a.get_ascii(i) != b.get_ascii(i) {
            return false;
        }
        i += 1;
    }
    assert(a@ =~= b@);
    true
}

/// A copy of the characters of `s` from `from` up to `to`.
pub(crate) fn slice_text(s: &str, from: usize, to: usize) -> (r: String)
    requires
        s.is_ascii(),
        from <= to <= s@.len(),
    ensures
        r@ == s@.subrange(from as int, to as int),
        r.is_ascii(),
{
    let piece = s.substring_ascii(from, to);
    let r = piece.to_owned();
    r
}

} // verus!
