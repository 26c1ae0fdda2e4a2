//! Text: comparing names and cutting them out of the input.
use vstd::prelude::*;
use vstd::utf8::encode_utf8_decode_utf8;

verus! {

/// The characters that the bytes from `start` up to `end` stand for, where
/// each of them is an ASCII byte.
pub open spec fn text(bytes: Seq<u8>, start: int, end: int) -> Seq<char> {
    Seq::new((end - start) as nat, |i: int| bytes[start + i] as char)
}

/// `0` to `9`.
pub open spec fn is_digit_char(c: char) -> bool {
    '0' <= c <= '9'
}

/// What a name starts with: a letter of the English alphabet or an
/// underscore.
pub open spec fn is_name_start_char(c: char) -> bool {
    'a' <= c <= 'z' || 'A' <= c <= 'Z' || c == '_'
}

/// Whether the characters from `from` up to `to` are digits, and at least
/// one.
pub open spec fn digits(t: Seq<char>, from: int, to: int) -> bool {
    &&& 0 <= from < to <= t.len()
    &&& forall|i: int| from <= i < to ==> is_digit_char(#[trigger] t[i])
}

/// Whether a text is a name: a letter or an underscore, followed by
/// letters, digits and underscores.
pub open spec fn is_name_text(t: Seq<char>) -> bool {
    &&& t.len() > 0
    &&& is_name_start_char(t[0])
    &&& forall|i: int|
        1 <= i < t.len() ==> is_name_start_char(#[trigger] t[i]) || is_digit_char(t[i])
}

/// Whether a text is a numeric literal with its whole part up to `a` and
/// its fraction, if it has one, up to `b`: digits, then optionally a point
/// and digits, then optionally `e` or `E`, an optional sign, and digits.
pub open spec fn is_number_split(t: Seq<char>, a: int, b: int) -> bool {
    &&& digits(t, 0, a)
    &&& b == a || (t[a] == '.' && digits(t, a + 1, b))
    &&& b == t.len() || ((t[b] == 'e' || t[b] == 'E') && (digits(t, b + 1, t.len() as int) || ((
    t[b + 1] == '+' || t[b + 1] == '-') && digits(t, b + 2, t.len() as int))))
}

/// Whether a text is a numeric literal.
pub open spec fn is_number_text(t: Seq<char>) -> bool {
    exists|a: int, b: int| is_number_split(t, a, b)
}

/// Whether two byte strings are the same.
pub(crate) fn bytes_equal(a: &[u8], b: &[u8]) -> (r: bool)
    ensures
        r == (a@ == b@),
{
    if a.len() != b.len() {
        return false;
    }
    let mut i: usize = 0;
    while i < a.len()
        invariant
            a@.len() == b@.len(),
            i <= a@.len(),
            forall|k: int| 0 <= k < i ==> a@[k] == b@[k],
        decreases a@.len() - i,
    {
        if a[i] != b[i] {
            return false;
        }
        i += 1;
    }
    assert(a@ =~= b@);
    true
}

/// Whether two texts are the same, character by character.
pub(crate) fn texts_equal(a: &str, b: &str) -> (r: bool)
    ensures
        r == (a@ == b@),
{
    proof {
        encode_utf8_decode_utf8(a@);
        encode_utf8_decode_utf8(b@);
    }
    bytes_equal(a.as_bytes(), b.as_bytes())
}

/// `String::push` of the standard library: the text grows by the one
/// character at its end, and nothing else changes.
#[verifier::external_body]
fn push_char(s: &mut String, c: char)
    ensures
        final(s)@ == old(s)@.push(c),
{
    s.push(c)
}

/// Cuts the text between two positions out of the input.
pub(crate) fn cut(bytes: &[u8], start: usize, end: usize) -> (r: String)
    requires
        start <= end <= bytes@.len(),
    ensures
        r@ == text(bytes@, start as int, end as int),
{
    let mut s = String::new();
    let mut i: usize = start;
    while i < end
        invariant
            start <= i <= end <= bytes@.len(),
            s@ == text(bytes@, start as int, i as int),
        decreases end - i,
    {
        push_char(&mut s, bytes[i] as char);
        i += 1;
        assert(s@ =~= text(bytes@, start as int, i as int));
    }
    s
}

} // verus!
