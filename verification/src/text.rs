//! Text and byte plumbing shared by the rest of the crate: growing a `String`, decimal
//! numbers, and the few places where the standard library decodes or quotes text.
use vstd::prelude::*;
use vstd::utf8::{decode_utf8, valid_utf8};

verus! {

/// `String::push` appends one character at the end.
pub assume_specification[ String::push ](s: &mut String, c: char)
    ensures
        final(s)@ == old(s)@.push(c),
;

/// `String::push_str` appends the whole of the other text at the end.
pub assume_specification[ String::push_str ](s: &mut String, t: &str)
    ensures
        final(s)@ == old(s)@ + t@,
;

/// `String::pop` takes the last character off, if there is one.
pub assume_specification[ String::pop ](s: &mut String) -> (r: Option<char>)
    ensures
        old(s)@.len() == 0 ==> r is None && final(s)@ == old(s)@,
        old(s)@.len() > 0 ==> r == Some(old(s)@.last()) && final(s)@ == old(s)@.drop_last(),
;

/// `char::from_u32` gives the scalar with that number, and nothing where the number is a
/// surrogate or past the last scalar.
pub assume_specification[ char::from_u32 ](v: u32) -> (r: Option<char>)
    ensures
        v <= 0xd7ff || 0xe000 <= v <= 0x10ffff ==> r == Some(v as char),
        !(v <= 0xd7ff || 0xe000 <= v <= 0x10ffff) ==> r is None,
;

/// What `String::from_utf8_lossy` reads out of a run of bytes.
pub uninterp spec fn lossy_text(bytes: Seq<u8>) -> Seq<char>;

/// `String::from_utf8_lossy`: the text of well-formed UTF-8 is its decoding; a malformed
/// run reads as some fixed text with replacement characters in it.
#[verifier::external_body]
pub(crate) fn text_lossy(bytes: &[u8]) -> (s: String)
    ensures
        s@ == lossy_text(bytes@),
        valid_utf8(bytes@) ==> s@ == decode_utf8(bytes@),
{
    String::from_utf8_lossy(bytes).into_owned()
}

/// `std::str::from_utf8`: the decoded text when the bytes are well-formed UTF-8, and
/// nothing otherwise.
#[verifier::external_body]
pub(crate) fn text_strict(bytes: &[u8]) -> (s: Option<String>)
    ensures
        s is Some <==> valid_utf8(bytes@),
        s is Some ==> s->0@ == decode_utf8(bytes@),
{
    match std::str::from_utf8(bytes) {
        Ok(text) => Some(String::from(text)),
        Err(_) => None,
    }
}

/// A text as the `{:?}` formatting of `str` quotes it.
pub uninterp spec fn quoted_text(text: Seq<char>) -> Seq<char>;

/// The `{:?}` formatting of a `str`: the text in double quotes, specials escaped.
#[verifier::external_body]
pub(crate) fn quote_text(text: &str) -> (s: String)
    ensures
        s@ == quoted_text(text@),
{
    format!("{:?}", text)
}

/// A character as the `{:?}` formatting of `char` quotes it.
pub uninterp spec fn quoted_char(c: char) -> Seq<char>;

/// The `{:?}` formatting of a `char`: the character in single quotes, specials escaped.
#[verifier::external_body]
pub(crate) fn quote_char(c: char) -> (s: String)
    ensures
        s@ == quoted_char(c),
{
    format!("{:?}", c)
}

/// The bytes of a text.
pub open spec fn utf8(text: Seq<char>) -> Seq<u8> {
    vstd::utf8::encode_utf8(text)
}

/// Append the bytes of a text.
pub fn write_text(out: &mut Vec<u8>, text: &str)
    ensures
        final(out)@ == old(out)@ + utf8(text@),
{
    out.extend_from_slice(text.as_bytes());
    assert(out@ =~= old(out)@ + utf8(text@));
}

/// The decimal digits of `n`, most significant first, as ASCII bytes.
pub open spec fn decimal(n: nat) -> Seq<u8>
    decreases n,
{
    if n < 10 {
        seq![(48 + n) as u8]
    } else {
        decimal(n / 10).push((48 + n % 10) as u8)
    }
}

/// The decimal digits of `n` as text.
pub open spec fn decimal_text(n: nat) -> Seq<char> {
    bytes_text(decimal(n))
}

/// ASCII bytes read as the characters they stand for.
pub open spec fn bytes_text(bytes: Seq<u8>) -> Seq<char> {
    Seq::new(bytes.len(), |i: int| bytes[i] as char)
}

/// Append `n` as decimal ASCII.
pub fn push_decimal(out: &mut Vec<u8>, n: u32)
    ensures
        final(out)@ == old(out)@ + decimal(n as nat),
    decreases n,
{
    if n >= 10 {
        push_decimal(out, n / 10);
    }
    out.push(48 + (n % 10) as u8);
    assert(out@ =~= old(out)@ + decimal(n as nat));
}

/// Append `n` as decimal text.
pub fn push_number(out: &mut String, n: usize)
    ensures
        final(out)@ == old(out)@ + decimal_text(n as nat),
    decreases n,
{
    if n >= 10 {
        push_number(out, n / 10);
    }
    out.push((48 + (n % 10) as u8) as char);
    assert(out@ =~= old(out)@ + decimal_text(n as nat));
}

/// The value a run of ASCII digits spells, most significant first.
pub open spec fn digits_value(digits: Seq<u8>) -> int
    decreases digits.len(),
{
    if digits.len() == 0 {
        0
    } else {
        digits_value(digits.drop_last()) * 10 + (digits.last() - 48)
    }
}

/// Every byte of the run is an ASCII digit.
pub open spec fn all_digits(digits: Seq<u8>) -> bool {
    forall|i: int| 0 <= i < digits.len() ==> 48 <= #[trigger] digits[i] <= 57
}

/// A printed number reads back as itself: `decimal` writes digits only, and their value is
/// the number.
pub proof fn lemma_decimal_reads_back(n: nat)
    ensures
        all_digits(decimal(n)),
        digits_value(decimal(n)) == n,
        decimal(n).len() > 0,
    decreases n,
{
    if n >= 10 {
        lemma_decimal_reads_back(n / 10);
        assert(decimal(n).drop_last() =~= decimal(n / 10));
    } else {
        assert(decimal(n).drop_last() =~= Seq::<u8>::empty());
        assert(digits_value(Seq::<u8>::empty()) == 0);
    }
}

} // verus!
