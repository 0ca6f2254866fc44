//! The small encodings that ride inside escape sequences: percent-escapes, hexadecimal,
//! base64, decimal fields, and the readable form of a reply.
use vstd::prelude::*;
use crate::color::{hex_byte, hex_char, hex_digit, hex_value, lemma_hex_char};
use crate::fields::{copy_range, fields_view};
use crate::text::{all_digits, digits_value, text_lossy, text_strict};

verus! {

/// The two hexadecimal digits at `i`, as the byte they spell.
pub open spec fn hex_pair(s: Seq<u8>, i: int) -> Option<u8> {
    if i + 1 < s.len() && hex_value(s[i]) is Some && hex_value(s[i + 1]) is Some {
        Some((hex_value(s[i])->0 * 16 + hex_value(s[i + 1])->0) as u8)
    } else {
        None
    }
}

fn hex_pair_at(s: &[u8], i: usize) -> (r: Option<u8>)
    requires
        i <= s@.len(),
    ensures
        r == hex_pair(s@, i as int),
{
    if s.len() - i < 2 {
        return None;
    }
    match (hex_digit(s[i]), hex_digit(s[i + 1])) {
        (Some(hi), Some(lo)) => Some(hi * 16 + lo),
        _ => None,
    }
}

/// What percent-encoded bytes stand for. A `%` that two hexadecimal digits do not follow is
/// a literal `%`.
pub open spec fn percent_decoded(s: Seq<u8>) -> Seq<u8>
    decreases s.len(),
{
    if s.len() == 0 {
        Seq::empty()
    } else if s[0] == 37 && hex_pair(s, 1) is Some {
        seq![hex_pair(s, 1)->0] + percent_decoded(s.skip(3))
    } else {
        seq![s[0]] + percent_decoded(s.skip(1))
    }
}

/// The bytes a percent-encoded path stands for.
pub fn percent_bytes(input: &[u8]) -> (r: Vec<u8>)
    ensures
        r@ == percent_decoded(input@),
{
    let mut bytes: Vec<u8> = Vec::new();
    let mut i: usize = 0;
    assert(input@.skip(0) =~= input@);
    assert(bytes@ + percent_decoded(input@) =~= percent_decoded(input@));
    while i < input.len()
        invariant
            i <= input@.len(),
            bytes@ + percent_decoded(input@.skip(i as int)) == percent_decoded(input@),
        decreases input.len() - i,
    {
        let ghost rest = input@.skip(i as int);
        let ghost before = bytes@;
        let escaped: Option<u8> = if input[i] == 37 {
            hex_pair_at(input, i + 1)
        } else {
            None
        };
        assert(rest[0] == input@[i as int]);
        assert(hex_pair(rest, 1) == hex_pair(input@, i + 1));
        match escaped {
            Some(b) => {
                assert(rest.skip(3) =~= input@.skip(i + 3));
                bytes.push(b);
                assert(bytes@ + percent_decoded(rest.skip(3)) =~= before + (seq![b]
                    + percent_decoded(rest.skip(3))));
                i = i + 3;
            },
            None => {
                assert(rest.skip(1) =~= input@.skip(i + 1));
                bytes.push(input[i]);
                assert(bytes@ + percent_decoded(rest.skip(1)) =~= before + (seq![rest[0]]
                    + percent_decoded(rest.skip(1))));
                i = i + 1;
            },
        }
    }
    assert(input@.skip(i as int) =~= Seq::empty());
    assert(bytes@ + Seq::empty() =~= bytes@);
    bytes
}

/// Percent-decode a URL path into text. Bytes that are not UTF-8 are replaced rather than
/// refused: a path that cannot be shown exactly is still a path to show something for.
pub fn percent_decode(input: &[u8]) -> (r: String)
    ensures
        r@ == crate::text::lossy_text(percent_decoded(input@)),
        vstd::utf8::valid_utf8(percent_decoded(input@)) ==> r@ == vstd::utf8::decode_utf8(
            percent_decoded(input@),
        ),
{
    let bytes = percent_bytes(input);
    text_lossy(bytes.as_slice())
}

/// The bytes an even run of hexadecimal digits spells.
pub open spec fn hex_decoded(s: Seq<u8>) -> Option<Seq<u8>> {
    if s.len() > 0 && s.len() % 2 == 0 && crate::color::all_hex(s) {
        Some(Seq::new(s.len() / 2, |i: int| hex_pair(s, 2 * i)->0))
    } else {
        None
    }
}

/// Decode hexadecimal. `None` on anything that is not an even, non-empty run of digits.
pub fn hex_decode(input: &[u8]) -> (r: Option<Vec<u8>>)
    ensures
        r is Some <==> hex_decoded(input@) is Some,
        r matches Some(v) ==> hex_decoded(input@) == Some(v@),
{
    if input.len() == 0 || input.len() % 2 != 0 {
        return None;
    }
    let mut out: Vec<u8> = Vec::new();
    let mut i: usize = 0;
    while i < input.len()
        invariant
            i <= input@.len(),
            i % 2 == 0,
            input@.len() % 2 == 0,
            out@.len() == i / 2,
            forall|j: int| 0 <= j < i ==> hex_value(#[trigger] input@[j]) is Some,
            forall|j: int| 0 <= j < out@.len() ==> #[trigger] out@[j] == hex_pair(input@, 2 * j)->0,
        decreases input.len() - i,
    {
        match hex_pair_at(input, i) {
            Some(b) => out.push(b),
            None => {
                assert(hex_value(input@[i as int]) is None || hex_value(input@[i + 1]) is None);
                return None;
            },
        }
        i = i + 2;
    }
    assert(out@ =~= hex_decoded(input@)->0);
    Some(out)
}

/// Bytes as hexadecimal digits, two to a byte.
pub open spec fn hex_encoded(s: Seq<u8>) -> Seq<u8> {
    Seq::new(
        s.len() * 2,
        |i: int|
            hex_char(
                if i % 2 == 0 {
                    s[i / 2] as int / 16
                } else {
                    s[i / 2] as int % 16
                },
            ),
    )
}

/// Append bytes as hexadecimal digits.
pub fn hex_encode(input: &[u8], out: &mut Vec<u8>)
    ensures
        final(out)@ == old(out)@ + hex_encoded(input@),
{
    let mut i: usize = 0;
    assert(out@ =~= old(out)@ + hex_encoded(input@.take(0)));
    while i < input.len()
        invariant
            i <= input@.len(),
            out@ == old(out)@ + hex_encoded(input@.take(i as int)),
        decreases input.len() - i,
    {
        out.push(hex_byte(input[i] / 16));
        out.push(hex_byte(input[i] % 16));
        assert(out@ =~= old(out)@ + hex_encoded(input@.take(i + 1)));
        i = i + 1;
    }
    assert(input@.take(i as int) =~= input@);
}

/// What was written in hexadecimal reads back.
pub proof fn lemma_hex_round_trip(s: Seq<u8>)
    requires
        s.len() > 0,
    ensures
        hex_decoded(hex_encoded(s)) == Some(s),
{
    let e = hex_encoded(s);
    assert forall|i: int| 0 <= i < e.len() implies hex_value(#[trigger] e[i]) is Some by {
        lemma_hex_char(s[i / 2] as int / 16);
        lemma_hex_char(s[i / 2] as int % 16);
    }
    assert forall|i: int| 0 <= i < s.len() implies #[trigger] hex_pair(e, 2 * i)->0 == s[i] by {
        lemma_hex_char(s[i] as int / 16);
        lemma_hex_char(s[i] as int % 16);
        assert((2 * i) / 2 == i && (2 * i + 1) / 2 == i && (2 * i) % 2 == 0 && (2 * i + 1) % 2
            == 1);
        assert(e[2 * i] == hex_char(s[i] as int / 16));
        assert(e[2 * i + 1] == hex_char(s[i] as int % 16));
    }
    assert(hex_decoded(e)->0 =~= s);
}

/// ASCII whitespace.
pub open spec fn ascii_space(b: u8) -> bool {
    b == 32 || b == 9 || b == 10 || b == 12 || b == 13
}

/// What base64 skips: the bytes of `s` that are not whitespace.
pub open spec fn packed(s: Seq<u8>) -> Seq<u8>
    decreases s.len(),
{
    if s.len() == 0 {
        Seq::empty()
    } else if ascii_space(s.last()) {
        packed(s.drop_last())
    } else {
        packed(s.drop_last()).push(s.last())
    }
}

/// The six bits a base64 digit carries; padding carries none.
pub open spec fn sextet(b: u8) -> Option<int> {
    if 65 <= b <= 90 {
        Some(b - 65)
    } else if 97 <= b <= 122 {
        Some(b - 71)
    } else if 48 <= b <= 57 {
        Some(b + 4)
    } else if b == 43 {
        Some(62int)
    } else if b == 47 {
        Some(63int)
    } else if b == 61 {
        Some(0int)
    } else {
        None
    }
}

/// How many padding marks there are.
pub open spec fn pads(s: Seq<u8>) -> int
    decreases s.len(),
{
    if s.len() == 0 {
        0
    } else {
        pads(s.drop_last()) + if s.last() == 61 {
            1int
        } else {
            0
        }
    }
}

/// Well-formed base64: digits, then either all the padding marks that fill up the last group
/// or none at all, and no single digit left over.
pub open spec fn base64_ok(s: Seq<u8>) -> bool {
    &&& forall|i: int| 0 <= i < s.len() ==> sextet(#[trigger] s[i]) is Some
    &&& forall|i: int, j: int|
        0 <= i < j < s.len() && #[trigger] s[i] == 61 ==> #[trigger] s[j] == 61
    &&& pads(s) <= 2
    &&& pads(s) > 0 ==> s.len() % 4 == 0
    &&& s.len() % 4 != 1
}

/// The first `n` of the three bytes four digits carry.
pub open spec fn quad_bytes(a: int, b: int, c: int, d: int, n: int) -> Seq<u8> {
    seq![
        (a * 4 + b / 16) as u8,
        (b % 16 * 16 + c / 4) as u8,
        (c % 4 * 64 + d) as u8,
    ].take(n)
}

/// The bytes of well-formed base64, four digits at a time. A padded group is short by as
/// many bytes as it has marks, and an unpadded partial one carries a byte less than it has
/// digits.
pub open spec fn base64_bytes(s: Seq<u8>) -> Seq<u8>
    decreases s.len(),
{
    if s.len() >= 4 {
        quad_bytes(
            sextet(s[0])->0,
            sextet(s[1])->0,
            sextet(s[2])->0,
            sextet(s[3])->0,
            3 - pads(s.take(4)),
        ) + base64_bytes(s.skip(4))
    } else if s.len() >= 2 {
        quad_bytes(
            sextet(s[0])->0,
            sextet(s[1])->0,
            if s.len() == 3 {
                sextet(s[2])->0
            } else {
                0
            },
            0,
            s.len() - 1,
        )
    } else {
        Seq::empty()
    }
}

/// What base64 decodes to, `None` where it is malformed.
pub open spec fn base64_decoded(s: Seq<u8>) -> Option<Seq<u8>> {
    if base64_ok(packed(s)) {
        Some(base64_bytes(packed(s)))
    } else {
        None
    }
}

fn digit_value(b: u8) -> (r: Option<u8>)
    ensures
        r is Some <==> sextet(b) is Some,
        r matches Some(v) ==> sextet(b) == Some(v as int) && v < 64,
{
    if 65 <= b && b <= 90 {
        Some(b - 65)
    } else if 97 <= b && b <= 122 {
        Some(b - 71)
    } else if 48 <= b && b <= 57 {
        Some(b + 4)
    } else if b == 43 {
        Some(62)
    } else if b == 47 {
        Some(63)
    } else if b == 61 {
        Some(0)
    } else {
        None
    }
}

/// The digits and padding of base64 text, `None` at the first byte that is out of place.
fn base64_digits(input: &[u8]) -> (r: Option<Vec<u8>>)
    ensures
        r is Some ==> r->0@ == packed(input@) && (forall|i: int|
            0 <= i < packed(input@).len() ==> sextet(#[trigger] packed(input@)[i]) is Some) && (
        forall|i: int, j: int|
            0 <= i < j < packed(input@).len() && #[trigger] packed(input@)[i] == 61
                ==> #[trigger] packed(input@)[j] == 61) && pads(packed(input@)) <= 2,
        r is None ==> !base64_ok(packed(input@)),
{
    let mut out: Vec<u8> = Vec::new();
    let mut padding: u8 = 0;
    let mut i: usize = 0;
    assert(input@.take(0) =~= Seq::empty());
    while i < input.len()
        invariant
            i <= input@.len(),
            out@ == packed(input@.take(i as int)),
            padding == pads(out@),
            padding <= 2,
            padding == 0 ==> forall|k: int| 0 <= k < out@.len() ==> #[trigger] out@[k] != 61,
            padding > 0 ==> out@.len() > 0 && out@.last() == 61,
            forall|k: int| 0 <= k < out@.len() ==> sextet(#[trigger] out@[k]) is Some,
            forall|k: int, l: int|
                0 <= k < l < out@.len() && #[trigger] out@[k] == 61 ==> #[trigger] out@[l] == 61,
        decreases input.len() - i,
    {
        let byte: u8 = input[i];
        let ghost next = input@.take(i + 1);
        assert(next.drop_last() =~= input@.take(i as int));
        if !(byte == 32 || byte == 9 || byte == 10 || byte == 12 || byte == 13) {
            let ghost grown = out@.push(byte);
            assert(grown.drop_last() =~= out@);
            assert(packed(next) == grown);
            proof {
                lemma_packed_prefix(input@, i + 1);
            }
            let ghost whole = packed(input@);
            if digit_value(byte).is_none() {
                assert(sextet(whole[out@.len() as int]) is None);
                return None;
            }
            if byte == 61 {
                if padding == 2 {
                    proof {
                        lemma_pads_prefix(whole, grown.len() as int);
                        assert(whole.take(grown.len() as int) =~= grown);
                    }
                    return None;
                }
                padding = padding + 1;
            } else if padding > 0 {
                proof {
                    let k = out@.len() - 1;
                    assert(whole[k] == 61 && whole[k + 1] != 61);
                }
                return None;
            }
            out.push(byte);
        }
        i = i + 1;
    }
    assert(input@.take(i as int) =~= input@);
    Some(out)
}

/// The bytes so far are a prefix of all of them.
proof fn lemma_packed_prefix(s: Seq<u8>, k: int)
    requires
        0 <= k <= s.len(),
    ensures
        packed(s.take(k)).len() <= packed(s).len(),
        packed(s).take(packed(s.take(k)).len() as int) == packed(s.take(k)),
        forall|i: int|
            0 <= i < packed(s.take(k)).len() ==> #[trigger] packed(s)[i] == packed(s.take(k))[i],
    decreases s.len(),
{
    if k == s.len() {
        assert(s.take(k) =~= s);
    } else {
        let t = s.drop_last();
        assert(t.take(k) =~= s.take(k));
        lemma_packed_prefix(t, k);
        assert(packed(s).take(packed(s.take(k)).len() as int) =~= packed(s.take(k)));
    }
}

proof fn lemma_pads_prefix(s: Seq<u8>, k: int)
    requires
        0 <= k <= s.len(),
    ensures
        0 <= pads(s.take(k)) <= pads(s),
        pads(s.take(k)) <= k,
    decreases s.len(),
{
    if k == s.len() {
        assert(s.take(k) =~= s);
        if k > 0 {
            lemma_pads_prefix(s.drop_last(), k - 1);
            assert(s.drop_last().take(k - 1) =~= s.drop_last());
        }
    } else {
        assert(s.drop_last().take(k) =~= s.take(k));
        lemma_pads_prefix(s.drop_last(), k);
    }
}

/// Decode base64, the encoding clipboard text is wrapped in. `None` for anything malformed.
///
/// Whitespace is skipped, padding is complete or absent, and anything else is a refusal rather
/// than a guess.
pub fn base64_decode(input: &[u8]) -> (r: Option<Vec<u8>>)
    ensures
        r is Some <==> base64_decoded(input@) is Some,
        r matches Some(v) ==> base64_decoded(input@) == Some(v@),
{
    let digits = match base64_digits(input) {
        Some(d) => d,
        None => {
            return None;
        },
    };
    if digits.len() % 4 == 1 {
        return None;
    }
    let ghost s = digits@;
    proof {
        lemma_pads_last(s);
    }
    if digits.len() % 4 != 0 && digits[digits.len() - 1] == 61 {
        return None;
    }
    let mut out: Vec<u8> = Vec::new();
    let mut i: usize = 0;
    assert(s.skip(0) =~= s);
    assert(out@ + base64_bytes(s) =~= base64_bytes(s));
    while digits.len() - i >= 4
        invariant
            i <= digits@.len(),
            i % 4 == 0,
            digits@ == s,
            s.len() <= usize::MAX,
            pads(s) <= 2,
            forall|k: int| 0 <= k < s.len() ==> sextet(#[trigger] s[k]) is Some,
            out@ + base64_bytes(s.skip(i as int)) == base64_bytes(s),
        decreases digits.len() - i,
    {
        let ghost before = out@;
        let (a, b, c, d) = (
            value_of(digits[i]),
            value_of(digits[i + 1]),
            value_of(digits[i + 2]),
            value_of(digits[i + 3]),
        );
        let padding = pads_of(&digits, i);
        proof {
            lemma_base64_step(s, i as int);
        }
        push_quad(&mut out, a, b, c, d, 3 - padding);
        let ghost q = quad_bytes(a as int, b as int, c as int, d as int, 3 - padding);
        let ghost after = base64_bytes(s.skip(i + 4));
        assert(before + q + after =~= before + (q + after));
        i = i + 4;
    }
    let ghost rest = s.skip(i as int);
    let left: usize = digits.len() - i;
    if left >= 2 {
        let ghost before = out@;
        let c: u8 = if left == 3 {
            value_of(digits[i + 2])
        } else {
            0
        };
        push_quad(&mut out, value_of(digits[i]), value_of(digits[i + 1]), c, 0, (left - 1) as u8);
    } else {
        assert(left == 0);
        assert(out@ + base64_bytes(rest) =~= out@);
    }
    Some(out)
}

/// Trailing padding shows in the last mark.
proof fn lemma_pads_last(s: Seq<u8>)
    requires
        forall|i: int, j: int|
            0 <= i < j < s.len() && #[trigger] s[i] == 61 ==> #[trigger] s[j] == 61,
    ensures
        s.len() > 0 ==> (pads(s) > 0 <==> s.last() == 61),
{
    if s.len() > 0 {
        let n = s.len() as int;
        lemma_pads_prefix(s.drop_last(), n - 1);
        assert(s.drop_last().take(n - 1) =~= s.drop_last());
        if s.last() != 61 {
            assert forall|i: int| 0 <= i < n implies #[trigger] s[i] != 61 by {
                if s[i] == 61 && i < n - 1 {
                    assert(s[n - 1] == 61);
                }
            }
            lemma_no_pads(s);
        }
    }
}

proof fn lemma_no_pads(s: Seq<u8>)
    requires
        forall|i: int| 0 <= i < s.len() ==> #[trigger] s[i] != 61,
    ensures
        pads(s) == 0,
    decreases s.len(),
{
    if s.len() > 0 {
        lemma_no_pads(s.drop_last());
    }
}

proof fn lemma_base64_step(s: Seq<u8>, i: int)
    requires
        0 <= i,
        i + 4 <= s.len(),
        pads(s) <= 2,
    ensures
        0 <= pads(s.subrange(i, i + 4)) <= 2,
        base64_bytes(s.skip(i)) == quad_bytes(
            sextet(s[i])->0,
            sextet(s[i + 1])->0,
            sextet(s[i + 2])->0,
            sextet(s[i + 3])->0,
            3 - pads(s.subrange(i, i + 4)),
        ) + base64_bytes(s.skip(i + 4)),
{
    let rest = s.skip(i);
    lemma_pads_skip(s, i);
    lemma_pads_prefix(rest, 4);
    assert(rest.take(4) =~= s.subrange(i, i + 4));
    assert(rest.skip(4) =~= s.skip(i + 4));
}

fn value_of(b: u8) -> (v: u8)
    requires
        sextet(b) is Some,
    ensures
        v == sextet(b)->0,
        v < 64,
{
    match digit_value(b) {
        Some(v) => v,
        None => 0,
    }
}

/// The padding among the four digits at `i`.
fn pads_of(digits: &Vec<u8>, i: usize) -> (n: u8)
    requires
        i + 4 <= digits@.len() <= usize::MAX,
    ensures
        n == pads(digits@.subrange(i as int, i + 4)),
        n <= 4,
{
    let mut n: u8 = 0;
    let mut k: usize = 0;
    assert(digits@.subrange(i as int, i as int) =~= Seq::empty());
    while k < 4
        invariant
            k <= 4,
            n <= k,
            i + 4 <= digits@.len() <= usize::MAX,
            n == pads(digits@.subrange(i as int, i + k)),
        decreases 4 - k,
    {
        assert(digits@.subrange(i as int, i + k + 1).drop_last() =~= digits@.subrange(
            i as int,
            i + k,
        ));
        if digits[i + k] == 61 {
            n = n + 1;
        }
        k = k + 1;
    }
    n
}

fn push_quad(out: &mut Vec<u8>, a: u8, b: u8, c: u8, d: u8, n: u8)
    requires
        a < 64,
        b < 64,
        c < 64,
        d < 64,
        1 <= n <= 3,
    ensures
        final(out)@ == old(out)@ + quad_bytes(a as int, b as int, c as int, d as int, n as int),
{
    out.push(a * 4 + b / 16);
    if n >= 2 {
        out.push(b % 16 * 16 + c / 4);
    }
    if n >= 3 {
        out.push(c % 4 * 64 + d);
    }
    assert(out@ =~= old(out)@ + quad_bytes(a as int, b as int, c as int, d as int, n as int));
}

/// No more padding is left behind than there was.
proof fn lemma_pads_skip(s: Seq<u8>, k: int)
    requires
        0 <= k <= s.len(),
    ensures
        pads(s.skip(k)) <= pads(s),
    decreases s.len(),
{
    if k < s.len() {
        assert(s.skip(k).drop_last() =~= s.drop_last().skip(k));
        lemma_pads_skip(s.drop_last(), k);
    } else {
        assert(s.skip(k) =~= Seq::empty());
        lemma_pads_prefix(s, k);
        assert(s.take(k) =~= s);
    }
}

/// The base64 digit of a value below sixty-four.
pub open spec fn base64_char(v: int) -> u8 {
    if v < 26 {
        (65 + v) as u8
    } else if v < 52 {
        (71 + v) as u8
    } else if v < 62 {
        (v - 4) as u8
    } else if v == 62 {
        43
    } else {
        47
    }
}

/// Bytes in padded base64, as a program that fills the clipboard sends them.
pub open spec fn base64_encoded(s: Seq<u8>) -> Seq<u8>
    decreases s.len(),
{
    if s.len() == 0 {
        Seq::empty()
    } else {
        let a = s[0] as int;
        let b = if s.len() > 1 {
            s[1] as int
        } else {
            0
        };
        let c = if s.len() > 2 {
            s[2] as int
        } else {
            0
        };
        seq![
            base64_char(a / 4),
            base64_char(a % 4 * 16 + b / 16),
            if s.len() > 1 {
                base64_char(b % 16 * 4 + c / 64)
            } else {
                61
            },
            if s.len() > 2 {
                base64_char(c % 64)
            } else {
                61
            },
        ] + (if s.len() > 3 {
            base64_encoded(s.skip(3))
        } else {
            Seq::empty()
        })
    }
}

proof fn lemma_base64_char(v: int)
    requires
        0 <= v < 64,
    ensures
        sextet(base64_char(v)) == Some(v),
        base64_char(v) != 61,
        !ascii_space(base64_char(v)),
{
}

proof fn lemma_packed_solid(s: Seq<u8>)
    requires
        forall|i: int| 0 <= i < s.len() ==> !ascii_space(#[trigger] s[i]),
    ensures
        packed(s) == s,
    decreases s.len(),
{
    if s.len() > 0 {
        lemma_packed_solid(s.drop_last());
        assert(packed(s) =~= s);
    }
}

proof fn lemma_pads_join(a: Seq<u8>, b: Seq<u8>)
    ensures
        pads(a + b) == pads(a) + pads(b),
    decreases b.len(),
{
    if b.len() == 0 {
        assert(a + b =~= a);
    } else {
        assert((a + b).drop_last() =~= a + b.drop_last());
        lemma_pads_join(a, b.drop_last());
    }
}

/// The group the first one to three bytes make.
pub open spec fn first_quad(s: Seq<u8>) -> Seq<u8> {
    base64_encoded(s).take(4)
}

proof fn lemma_first_quad(s: Seq<u8>)
    requires
        s.len() > 0,
    ensures
        base64_encoded(s) == first_quad(s) + (if s.len() > 3 {
            base64_encoded(s.skip(3))
        } else {
            Seq::empty()
        }),
        first_quad(s).len() == 4,
        pads(first_quad(s)) == if s.len() == 1 {
            2int
        } else if s.len() == 2 {
            1
        } else {
            0
        },
        forall|i: int|
            0 <= i < 4 ==> sextet(#[trigger] first_quad(s)[i]) is Some && !ascii_space(
                first_quad(s)[i],
            ),
        first_quad(s)[0] != 61,
        first_quad(s)[1] != 61,
        first_quad(s)[2] == 61 <==> s.len() == 1,
        first_quad(s)[3] == 61 <==> s.len() <= 2,
        quad_bytes(
            sextet(first_quad(s)[0])->0,
            sextet(first_quad(s)[1])->0,
            sextet(first_quad(s)[2])->0,
            sextet(first_quad(s)[3])->0,
            3 - pads(first_quad(s)),
        ) == s.take(crate::buffer::least(s.len() as int, 3)),
{
    let e = base64_encoded(s);
    let a = s[0] as int;
    let b = if s.len() > 1 {
        s[1] as int
    } else {
        0
    };
    let c = if s.len() > 2 {
        s[2] as int
    } else {
        0
    };
    lemma_base64_char(a / 4);
    lemma_base64_char(a % 4 * 16 + b / 16);
    lemma_base64_char(b % 16 * 4 + c / 64);
    lemma_base64_char(c % 64);
    let q = first_quad(s);
    let rest = if s.len() > 3 {
        base64_encoded(s.skip(3))
    } else {
        Seq::empty()
    };
    assert(e =~= q + rest);
    let q3 = q.drop_last();
    let q2 = q3.drop_last();
    let q1 = q2.drop_last();
    assert(q1.drop_last() =~= Seq::empty());
    assert(pads(Seq::<u8>::empty()) == 0);
    assert(pads(q1) == 0);
    assert(pads(q2) == 0);
    assert(pads(q3) == if s.len() == 1 {
        1int
    } else {
        0
    });
    assert(quad_bytes(
        sextet(q[0])->0,
        sextet(q[1])->0,
        sextet(q[2])->0,
        sextet(q[3])->0,
        3 - pads(q),
    ) =~= s.take(crate::buffer::least(s.len() as int, 3)));
}

proof fn lemma_base64_encoded(s: Seq<u8>)
    ensures
        base64_ok(base64_encoded(s)),
        base64_encoded(s).len() % 4 == 0,
        forall|i: int|
            0 <= i < base64_encoded(s).len() ==> !ascii_space(#[trigger] base64_encoded(s)[i]),
        base64_bytes(base64_encoded(s)) == s,
    decreases s.len(),
{
    if s.len() > 0 {
        let e = base64_encoded(s);
        let q = first_quad(s);
        lemma_first_quad(s);
        let rest = if s.len() > 3 {
            base64_encoded(s.skip(3))
        } else {
            Seq::empty()
        };
        assert(e.take(4) =~= q);
        assert(e.skip(4) =~= rest);
        lemma_pads_join(q, rest);
        if s.len() > 3 {
            lemma_base64_encoded(s.skip(3));
            assert(s.take(3) + s.skip(3) =~= s);
        } else {
            assert(base64_bytes(rest) =~= Seq::empty());
            assert(pads(rest) == 0);
            assert(s.take(s.len() as int) + base64_bytes(rest) =~= s);
        }
        assert forall|i: int| 0 <= i < e.len() implies sextet(#[trigger] e[i]) is Some
            && !ascii_space(e[i]) by {
            if i >= 4 {
                assert(rest[i - 4] == e[i]);
            } else {
                assert(e[i] == q[i]);
            }
        }
        assert forall|i: int, j: int| 0 <= i < j < e.len() && #[trigger] e[i] == 61 implies
            #[trigger] e[j] == 61 by {
            if i < 4 {
                assert(e[i] == q[i]);
                assert(e.len() == 4);
                assert(e[j] == q[j]);
            } else {
                assert(rest[i - 4] == 61);
                assert(rest[j - 4] == e[j]);
            }
        }
    }
}

/// The encoding of some bytes without the marks that fill up its last group.
pub open spec fn base64_bare(s: Seq<u8>) -> Seq<u8> {
    base64_encoded(s).take(base64_encoded(s).len() - pads(base64_encoded(s)))
}

proof fn lemma_base64_bare(s: Seq<u8>)
    ensures
        base64_ok(base64_bare(s)),
        base64_bytes(base64_bare(s)) == s,
        forall|i: int| 0 <= i < base64_bare(s).len() ==> #[trigger] base64_bare(s)[i] != 61,
    decreases s.len(),
{
    let e = base64_encoded(s);
    let bare = base64_bare(s);
    lemma_base64_encoded(s);
    if s.len() > 0 {
        let q = first_quad(s);
        lemma_first_quad(s);
        let rest = if s.len() > 3 {
            base64_encoded(s.skip(3))
        } else {
            Seq::empty()
        };
        lemma_pads_join(q, rest);
        if s.len() > 3 {
            let more = base64_bare(s.skip(3));
            lemma_base64_bare(s.skip(3));
            lemma_pads_prefix(rest, rest.len() as int);
            assert(rest.take(rest.len() as int) =~= rest);
            assert(bare =~= q + more);
            assert(bare.take(4) =~= q);
            assert(bare.skip(4) =~= more);
            assert(s.take(3) + s.skip(3) =~= s);
            assert forall|i: int| 0 <= i < bare.len() implies sextet(#[trigger] bare[i]) is Some
                && bare[i] != 61 by {
                if i >= 4 {
                    assert(more[i - 4] == bare[i]);
                } else {
                    assert(bare[i] == q[i]);
                }
            }
        } else {
            assert(pads(rest) == 0);
            assert(e =~= q);
            assert(bare.len() == s.len() + 1);
            assert forall|i: int| 0 <= i < bare.len() implies sextet(#[trigger] bare[i]) is Some
                && bare[i] != 61 by {
                assert(bare[i] == q[i]);
            }
            if s.len() == 3 {
                assert(bare.take(4) =~= q);
                assert(bare.skip(4) =~= Seq::empty());
                assert(s.take(3) + Seq::<u8>::empty() =~= s);
            } else {
                assert(s.take(s.len() as int) =~= s);
            }
        }
        lemma_no_pads(bare);
    } else {
        assert(pads(e) == 0);
        assert(bare =~= Seq::empty());
    }
}

/// What a program encodes for the clipboard is what the decoder gives back, whether it fills
/// up the last group or not, and with whitespace put in anywhere.
pub proof fn lemma_base64_round_trip(s: Seq<u8>, text: Seq<u8>)
    requires
        packed(text) == base64_encoded(s) || packed(text) == base64_bare(s),
    ensures
        base64_decoded(text) == Some(s),
        packed(base64_encoded(s)) == base64_encoded(s),
        packed(base64_bare(s)) == base64_bare(s),
{
    lemma_base64_encoded(s);
    lemma_base64_bare(s);
    lemma_packed_solid(base64_encoded(s));
    let bare = base64_bare(s);
    lemma_pads_prefix(base64_encoded(s), base64_encoded(s).len() as int);
    assert forall|i: int| 0 <= i < bare.len() implies !ascii_space(#[trigger] bare[i]) by {
        assert(bare[i] == base64_encoded(s)[i]);
    }
    lemma_packed_solid(bare);
}

/// A decimal number of at most three digits that fits a byte.
pub open spec fn byte_field(s: Seq<u8>) -> Option<u8> {
    if 1 <= s.len() <= 3 && all_digits(s) && digits_value(s) <= 255 {
        Some(digits_value(s) as u8)
    } else {
        None
    }
}

/// A decimal palette index. `None` for anything that is not a plain number up to 255.
pub fn parse_u8(field: &[u8]) -> (r: Option<u8>)
    ensures
        r == byte_field(field@),
{
    if field.len() == 0 || field.len() > 3 {
        return None;
    }
    let mut n: u32 = 0;
    let mut i: usize = 0;
    assert(field@.take(0) =~= Seq::empty());
    while i < field.len()
        invariant
            i <= field@.len() <= 3,
            n == digits_value(field@.take(i as int)),
            n <= if i == 0 {
                0
            } else if i == 1 {
                9
            } else if i == 2 {
                99int
            } else {
                999
            },
            forall|j: int| 0 <= j < i ==> 48 <= #[trigger] field@[j] <= 57,
        decreases field.len() - i,
    {
        assert(field@.take(i + 1).drop_last() =~= field@.take(i as int));
        if field[i] < 48 || field[i] > 57 {
            return None;
        }
        n = n * 10 + (field[i] - 48) as u32;
        i = i + 1;
    }
    assert(field@.take(i as int) =~= field@);
    if n <= 255 {
        Some(n as u8)
    } else {
        None
    }
}

/// The characters with the Unicode White_Space property.
pub open spec fn space_char(c: char) -> bool {
    let n = c as u32;
    9 <= n <= 13 || n == 32 || n == 0x85 || n == 0xa0 || n == 0x1680 || 0x2000 <= n <= 0x200a || n
        == 0x2028 || n == 0x2029 || n == 0x202f || n == 0x205f || n == 0x3000
}

/// Whether a character is white space.
pub fn is_space(c: char) -> (r: bool)
    ensures
        r == space_char(c),
{
    let n = c as u32;
    (9 <= n && n <= 13) || n == 32 || n == 0x85 || n == 0xa0 || n == 0x1680 || (0x2000 <= n && n
        <= 0x200a) || n == 0x2028 || n == 0x2029 || n == 0x202f || n == 0x205f || n == 0x3000
}

/// How much of `s` is left once the white space at its end is cut off.
pub open spec fn trim_end(s: Seq<char>) -> int
    decreases s.len(),
{
    if s.len() > 0 && space_char(s.last()) {
        trim_end(s.drop_last())
    } else {
        s.len() as int
    }
}

/// How much white space `s` starts with.
pub open spec fn trim_start(s: Seq<char>) -> int
    decreases s.len(),
{
    if s.len() > 0 && space_char(s[0]) {
        1 + trim_start(s.skip(1))
    } else {
        0
    }
}

/// `s` without the white space around it.
pub open spec fn trimmed_text(s: Seq<char>) -> Seq<char> {
    let t = s.take(trim_end(s));
    t.skip(trim_start(t))
}

/// The value a run of decimal digits spells.
pub open spec fn number_of(s: Seq<char>) -> int
    decreases s.len(),
{
    if s.len() == 0 {
        0
    } else {
        number_of(s.drop_last()) * 10 + (s.last() as u32 - 48)
    }
}

/// Decimal digits only, and at least one.
pub open spec fn is_number(s: Seq<char>) -> bool {
    s.len() > 0 && forall|i: int| 0 <= i < s.len() ==> 48 <= #[trigger] s[i] as u32 <= 57
}

/// A decimal integer with an optional sign, where it fits 32 bits.
pub open spec fn signed_value(s: Seq<char>) -> Option<int> {
    let signed = s.len() > 0 && (s[0] == '-' || s[0] == '+');
    let digits = if signed {
        s.skip(1)
    } else {
        s
    };
    let n = if signed && s[0] == '-' {
        -number_of(digits)
    } else {
        number_of(digits)
    };
    if is_number(digits) && i32::MIN <= n <= i32::MAX {
        Some(n)
    } else {
        None
    }
}

/// A decimal integer in a field of bytes, white space around it allowed.
pub open spec fn signed_field(s: Seq<u8>) -> Option<int> {
    if vstd::utf8::valid_utf8(s) {
        signed_value(trimmed_text(vstd::utf8::decode_utf8(s)))
    } else {
        None
    }
}

/// The characters of a text.
pub fn text_chars(s: &str) -> (r: Vec<char>)
    ensures
        r@ == s@,
{
    let mut out: Vec<char> = Vec::new();
    for c in it: s.chars()
        invariant
            out@ == it.seq().take(it.index()),
            it.seq() == s@,
    {
        out.push(c);
    }
    out
}

proof fn lemma_number_grows(s: Seq<char>, k: int)
    requires
        is_number(s),
        0 <= k <= s.len(),
    ensures
        0 <= number_of(s.take(k)) <= number_of(s),
    decreases s.len(),
{
    let t = s.drop_last();
    assert(48 <= s[s.len() - 1] as u32 <= 57);
    assert(number_of(s) == number_of(t) * 10 + (s.last() as u32 - 48));
    if t.len() == 0 {
        assert(number_of(t) == 0);
        if k == 1 {
            assert(s.take(k) =~= s);
        } else {
            assert(number_of(s.take(k)) == 0);
        }
    } else {
        assert forall|i: int| 0 <= i < t.len() implies 48 <= #[trigger] t[i] as u32 <= 57 by {
            assert(t[i] == s[i]);
        }
        lemma_number_grows(t, t.len() as int);
        assert(t.take(t.len() as int) =~= t);
        if k == s.len() {
            assert(s.take(k) =~= s);
        } else {
            assert(t.take(k) =~= s.take(k));
            lemma_number_grows(t, k);
        }
    }
}

/// The digits of `s` from `from` up to `to`, where their value fits 32 bits.
fn number_at(s: &Vec<char>, from: usize, to: usize) -> (r: Option<u64>)
    requires
        from <= to <= s@.len(),
    ensures
        r is Some <==> is_number(s@.subrange(from as int, to as int)) && number_of(
            s@.subrange(from as int, to as int),
        ) <= 0x8000_0000,
        r matches Some(n) ==> n == number_of(s@.subrange(from as int, to as int)),
{
    let ghost d = s@.subrange(from as int, to as int);
    if from == to {
        return None;
    }
    let mut n: u64 = 0;
    let mut i: usize = from;
    assert(d.take(0) =~= Seq::empty());
    while i < to
        invariant
            from <= i <= to <= s@.len(),
            from < to,
            d == s@.subrange(from as int, to as int),
            n == number_of(d.take(i - from)),
            n <= 0x8000_0000,
            forall|j: int| 0 <= j < i - from ==> 48 <= #[trigger] d[j] as u32 <= 57,
        decreases to - i,
    {
        let ch: char = s[i];
        let c: u32 = ch as u32;
        assert(d[i - from] == s@[i as int]);
        assert(d.take(i - from + 1).drop_last() =~= d.take(i - from));
        if c < 48 || c > 57 {
            return None;
        }
        n = n * 10 + (c - 48) as u64;
        if n > 0x8000_0000 {
            proof {
                if is_number(d) {
                    lemma_number_grows(d, i - from + 1);
                }
            }
            return None;
        }
        i = i + 1;
    }
    assert(d.take(i - from) =~= d);
    Some(n)
}

pub proof fn lemma_trim_end(s: Seq<char>, k: int)
    requires
        0 <= k <= s.len(),
        forall|i: int| k <= i < s.len() ==> space_char(#[trigger] s[i]),
        k > 0 ==> !space_char(s[k - 1]),
    ensures
        trim_end(s) == k,
    decreases s.len(),
{
    if k < s.len() {
        lemma_trim_end(s.drop_last(), k);
    }
}

proof fn lemma_trim_start(s: Seq<char>, k: int)
    requires
        0 <= k <= s.len(),
        forall|i: int| 0 <= i < k ==> space_char(#[trigger] s[i]),
        k < s.len() ==> !space_char(s[k]),
    ensures
        trim_start(s) == k,
    decreases s.len(),
{
    if k > 0 {
        let t = s.skip(1);
        assert forall|i: int| 0 <= i < k - 1 implies space_char(#[trigger] t[i]) by {
            assert(t[i] == s[i + 1]);
        }
        lemma_trim_start(t, k - 1);
    }
}

/// A decimal integer in a field, `None` where there is none or it does not fit.
pub fn parse_i32(field: &[u8]) -> (r: Option<i32>)
    ensures
        r is Some <==> signed_field(field@) is Some,
        r matches Some(n) ==> signed_field(field@) == Some(n as int),
{
    let text = match text_strict(field) {
        Some(t) => t,
        None => {
            return None;
        },
    };
    let s = text_chars(text.as_str());
    let mut to: usize = s.len();
    while to > 0 && is_space(s[to - 1])
        invariant
            to <= s@.len(),
            forall|i: int| to <= i < s@.len() ==> space_char(#[trigger] s@[i]),
        decreases to,
    {
        to = to - 1;
    }
    let mut from: usize = 0;
    while from < to && is_space(s[from])
        invariant
            from <= to <= s@.len(),
            forall|i: int| 0 <= i < from ==> space_char(#[trigger] s@[i]),
        decreases to - from,
    {
        from = from + 1;
    }
    let ghost t = s@.take(to as int);
    let ghost u = trimmed_text(s@);
    proof {
        lemma_trim_end(s@, to as int);
        lemma_trim_start(t, from as int);
        assert(u =~= s@.subrange(from as int, to as int));
    }
    let signed: bool = from < to && (s[from] == '-' || s[from] == '+');
    if signed {
        assert(u.skip(1) =~= s@.subrange(from + 1, to as int));
        match number_at(&s, from + 1, to) {
            Some(n) => {
                if s[from] == '-' {
                    Some((-(n as i64)) as i32)
                } else if n <= 0x7fff_ffff {
                    Some(n as i32)
                } else {
                    None
                }
            },
            None => None,
        }
    } else {
        match number_at(&s, from, to) {
            Some(n) => if n <= 0x7fff_ffff {
                Some(n as i32)
            } else {
                None
            },
            None => None,
        }
    }
}

/// Whether a reply starts at `i`: every reply begins with an escape byte, and the one other
/// escape there is, in the `ESC \` that ends a device control string, opens nothing.
pub open spec fn reply_starts(s: Seq<u8>, i: int) -> bool {
    s[i] == 0x1b && !(i + 1 < s.len() && s[i + 1] == 92)
}

/// Where the reply at the front of `s` ends: at the next start, or at the end.
pub open spec fn reply_end(s: Seq<u8>, i: int) -> int
    decreases s.len() - i,
{
    if i >= s.len() || reply_starts(s, i) {
        i
    } else {
        reply_end(s, i + 1)
    }
}

/// A buffer of replies, one by one.
pub open spec fn replies(s: Seq<u8>) -> Seq<Seq<u8>>
    decreases s.len(),
    when true
    via replies_decreases
{
    if s.len() == 0 {
        Seq::empty()
    } else {
        let e = reply_end(s, 1);
        seq![s.take(e)] + replies(s.skip(e))
    }
}

#[via_fn]
proof fn replies_decreases(s: Seq<u8>) {
    if s.len() > 0 {
        lemma_reply_end(s, 1);
    }
}

proof fn lemma_reply_end(s: Seq<u8>, i: int)
    requires
        0 <= i <= s.len(),
    ensures
        i <= reply_end(s, i) <= s.len(),
    decreases s.len() - i,
{
    if i < s.len() && !reply_starts(s, i) {
        lemma_reply_end(s, i + 1);
    }
}

proof fn lemma_reply_end_is(s: Seq<u8>, i: int, e: int)
    requires
        0 <= i <= e <= s.len(),
        forall|k: int| i <= k < e ==> !#[trigger] reply_starts(s, k),
        e < s.len() ==> reply_starts(s, e),
    ensures
        reply_end(s, i) == e,
    decreases e - i,
{
    if i < e {
        assert(!reply_starts(s, i));
        lemma_reply_end_is(s, i + 1, e);
    }
}

/// The replies in a buffer, in order.
pub fn split_replies(responses: &[u8]) -> (r: Vec<Vec<u8>>)
    ensures
        fields_view(r@) == replies(responses@),
{
    let mut out: Vec<Vec<u8>> = Vec::new();
    let mut start: usize = 0;
    let ghost s = responses@;
    assert(s.skip(0) =~= s);
    assert(fields_view(out@) + replies(s) =~= replies(s));
    while start < responses.len()
        invariant
            start <= responses@.len(),
            s == responses@,
            fields_view(out@) + replies(s.skip(start as int)) == replies(s),
        decreases responses.len() - start,
    {
        let ghost rest = s.skip(start as int);
        let ghost before = fields_view(out@);
        let mut i: usize = start + 1;
        while i < responses.len() && !(responses[i] == 0x1b && !(i + 1 < responses.len()
            && responses[i + 1] == 92))
            invariant
                start < i <= responses@.len(),
                s == responses@,
                rest == s.skip(start as int),
                forall|k: int| 1 <= k < i - start ==> !#[trigger] reply_starts(rest, k),
            decreases responses.len() - i,
        {
            assert(!reply_starts(rest, i - start));
            i = i + 1;
        }
        proof {
            lemma_reply_end_is(rest, 1, i - start);
            assert(rest.take(i - start) =~= s.subrange(start as int, i as int));
            assert(rest.skip(i - start) =~= s.skip(i as int));
        }
        out.push(copy_range(responses, start, i));
        assert(fields_view(out@) =~= before + seq![rest.take(i - start)]);
        assert(fields_view(out@) + replies(s.skip(i as int)) =~= before + (seq![
            rest.take(i - start),
        ] + replies(s.skip(i as int))));
        start = i;
    }
    assert(s.skip(start as int) =~= Seq::empty());
    assert(fields_view(out@) + Seq::empty() =~= fields_view(out@));
    out
}

/// A byte of a reply, readable: printable ASCII as it is, the rest named.
pub open spec fn named_byte(b: u8) -> Seq<char> {
    if b == 0x1b {
        "<ESC>"@
    } else if b == 7 {
        "<BEL>"@
    } else if 0x20 <= b <= 0x7e {
        seq![b as char]
    } else {
        "<0x"@ + seq![hex_char(b as int / 16) as char, hex_char(b as int % 16) as char] + ">"@
    }
}

/// A reply with its control bytes named.
pub open spec fn reply_text(s: Seq<u8>) -> Seq<char>
    decreases s.len(),
{
    if s.len() == 0 {
        Seq::empty()
    } else {
        reply_text(s.drop_last()) + named_byte(s.last())
    }
}

/// One reply, readable: the control bytes named rather than printed.
pub fn escape_reply(reply: &[u8]) -> (r: String)
    ensures
        r@ == reply_text(reply@),
{
    let mut out = String::new();
    let mut i: usize = 0;
    assert(out@ =~= reply_text(reply@.take(0)));
    while i < reply.len()
        invariant
            i <= reply@.len(),
            out@ == reply_text(reply@.take(i as int)),
        decreases reply.len() - i,
    {
        let b: u8 = reply[i];
        let ghost before = out@;
        assert(reply@.take(i + 1).drop_last() =~= reply@.take(i as int));
        if b == 0x1b {
            out.push_str("<ESC>");
        } else if b == 7 {
            out.push_str("<BEL>");
        } else if 0x20 <= b && b <= 0x7e {
            out.push(b as char);
        } else {
            out.push_str("<0x");
            out.push(hex_byte(b / 16) as char);
            out.push(hex_byte(b % 16) as char);
            out.push_str(">");
        }
        assert(out@ =~= before + named_byte(b));
        i = i + 1;
    }
    assert(reply@.take(i as int) =~= reply@);
    out
}

} // verus!
