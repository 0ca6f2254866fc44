//! How many columns a character takes.
use vstd::prelude::*;

verus! {

/// Marks and format characters that take no column of their own.
pub open spec fn zero_width(v: u32) -> bool {
    ||| 0x300 <= v <= 0x36f
    ||| 0x483 <= v <= 0x489
    ||| 0x591 <= v <= 0x5bd
    ||| v == 0x5bf
    ||| 0x5c1 <= v <= 0x5c2
    ||| 0x5c4 <= v <= 0x5c5
    ||| v == 0x5c7
    ||| 0x610 <= v <= 0x61a
    ||| 0x64b <= v <= 0x65f
    ||| v == 0x670
    ||| 0x6d6 <= v <= 0x6dc
    ||| 0x6df <= v <= 0x6e4
    ||| 0x6e7 <= v <= 0x6e8
    ||| 0x6ea <= v <= 0x6ed
    ||| v == 0x711
    ||| 0x730 <= v <= 0x74a
    ||| 0x900 <= v <= 0x902
    ||| v == 0x93a
    ||| v == 0x93c
    ||| 0x941 <= v <= 0x948
    ||| v == 0x94d
    ||| v == 0xe31
    ||| 0xe34 <= v <= 0xe3a
    ||| 0xe47 <= v <= 0xe4e
    ||| 0x1160 <= v <= 0x11ff
    ||| 0x1ab0 <= v <= 0x1aff
    ||| 0x1dc0 <= v <= 0x1dff
    ||| 0x200b <= v <= 0x200f
    ||| 0x2028 <= v <= 0x202e
    ||| 0x2060 <= v <= 0x2064
    ||| 0x20d0 <= v <= 0x20f0
    ||| 0x302a <= v <= 0x302d
    ||| 0x3099 <= v <= 0x309a
    ||| 0xfe00 <= v <= 0xfe0f
    ||| 0xfe20 <= v <= 0xfe2f
    ||| v == 0xfeff
    ||| 0xe0100 <= v <= 0xe01ef
}

/// Characters that take two columns: East Asian wide and full-width forms, and emoji
/// that are presented as such by default.
pub open spec fn double_width(v: u32) -> bool {
    ||| 0x1100 <= v <= 0x115f
    ||| 0x231a <= v <= 0x231b
    ||| 0x2329 <= v <= 0x232a
    ||| 0x23e9 <= v <= 0x23ec
    ||| v == 0x23f0
    ||| v == 0x23f3
    ||| 0x25fd <= v <= 0x25fe
    ||| 0x2614 <= v <= 0x2615
    ||| 0x2648 <= v <= 0x2653
    ||| v == 0x267f
    ||| v == 0x2693
    ||| v == 0x26a1
    ||| 0x26aa <= v <= 0x26ab
    ||| 0x26bd <= v <= 0x26be
    ||| 0x26c4 <= v <= 0x26c5
    ||| v == 0x26ce
    ||| v == 0x26d4
    ||| v == 0x26ea
    ||| 0x26f2 <= v <= 0x26f3
    ||| v == 0x26f5
    ||| v == 0x26fa
    ||| v == 0x26fd
    ||| v == 0x2705
    ||| 0x270a <= v <= 0x270b
    ||| v == 0x2728
    ||| v == 0x274c
    ||| v == 0x274e
    ||| 0x2753 <= v <= 0x2755
    ||| v == 0x2757
    ||| 0x2795 <= v <= 0x2797
    ||| v == 0x27b0
    ||| v == 0x27bf
    ||| 0x2b1b <= v <= 0x2b1c
    ||| v == 0x2b50
    ||| v == 0x2b55
    ||| 0x2e80 <= v <= 0x303e
    ||| 0x3041 <= v <= 0x4dbf
    ||| 0x4e00 <= v <= 0xa4cf
    ||| 0xa960 <= v <= 0xa97f
    ||| 0xac00 <= v <= 0xd7a3
    ||| 0xf900 <= v <= 0xfaff
    ||| 0xfe10 <= v <= 0xfe19
    ||| 0xfe30 <= v <= 0xfe6f
    ||| 0xff00 <= v <= 0xff60
    ||| 0xffe0 <= v <= 0xffe6
    ||| v == 0x1f004
    ||| v == 0x1f0cf
    ||| v == 0x1f18e
    ||| 0x1f191 <= v <= 0x1f19a
    ||| 0x1f200 <= v <= 0x1f320
    ||| 0x1f32d <= v <= 0x1f335
    ||| 0x1f337 <= v <= 0x1f37c
    ||| 0x1f37e <= v <= 0x1f393
    ||| 0x1f3a0 <= v <= 0x1f3ca
    ||| 0x1f3cf <= v <= 0x1f3d3
    ||| 0x1f3e0 <= v <= 0x1f3f0
    ||| v == 0x1f3f4
    ||| 0x1f3f8 <= v <= 0x1f43e
    ||| v == 0x1f440
    ||| 0x1f442 <= v <= 0x1f4fc
    ||| 0x1f4ff <= v <= 0x1f53d
    ||| 0x1f54b <= v <= 0x1f54e
    ||| 0x1f550 <= v <= 0x1f567
    ||| v == 0x1f57a
    ||| 0x1f595 <= v <= 0x1f596
    ||| v == 0x1f5a4
    ||| 0x1f5fb <= v <= 0x1f64f
    ||| 0x1f680 <= v <= 0x1f6c5
    ||| v == 0x1f6cc
    ||| 0x1f6d0 <= v <= 0x1f6d2
    ||| 0x1f6d5 <= v <= 0x1f6d7
    ||| 0x1f6dc <= v <= 0x1f6df
    ||| 0x1f6eb <= v <= 0x1f6ec
    ||| 0x1f6f4 <= v <= 0x1f6fc
    ||| 0x1f7e0 <= v <= 0x1f7eb
    ||| v == 0x1f7f0
    ||| 0x1f90c <= v <= 0x1f93a
    ||| 0x1f93c <= v <= 0x1f945
    ||| 0x1f947 <= v <= 0x1f9ff
    ||| 0x1fa70 <= v <= 0x1faff
    ||| 0x20000 <= v <= 0x2fffd
    ||| 0x30000 <= v <= 0x3fffd
}

/// The columns a character takes on its own. Everything below the first combining mark
/// takes one.
#[verifier::opaque]
pub open spec fn columns(c: char) -> nat {
    let v = c as u32;
    if v < 0x300 {
        1
    } else if zero_width(v) {
        0
    } else if double_width(v) {
        2
    } else {
        1
    }
}

/// Whether a scalar takes no column of its own.
pub fn is_zero_width(v: u32) -> (r: bool)
    ensures
        r == zero_width(v),
{
    (0x300 <= v && v <= 0x36f)
        || (0x483 <= v && v <= 0x489)
        || (0x591 <= v && v <= 0x5bd)
        || v == 0x5bf
        || (0x5c1 <= v && v <= 0x5c2)
        || (0x5c4 <= v && v <= 0x5c5)
        || v == 0x5c7
        || (0x610 <= v && v <= 0x61a)
        || (0x64b <= v && v <= 0x65f)
        || v == 0x670
        || (0x6d6 <= v && v <= 0x6dc)
        || (0x6df <= v && v <= 0x6e4)
        || (0x6e7 <= v && v <= 0x6e8)
        || (0x6ea <= v && v <= 0x6ed)
        || v == 0x711
        || (0x730 <= v && v <= 0x74a)
        || (0x900 <= v && v <= 0x902)
        || v == 0x93a
        || v == 0x93c
        || (0x941 <= v && v <= 0x948)
        || v == 0x94d
        || v == 0xe31
        || (0xe34 <= v && v <= 0xe3a)
        || (0xe47 <= v && v <= 0xe4e)
        || (0x1160 <= v && v <= 0x11ff)
        || (0x1ab0 <= v && v <= 0x1aff)
        || (0x1dc0 <= v && v <= 0x1dff)
        || (0x200b <= v && v <= 0x200f)
        || (0x2028 <= v && v <= 0x202e)
        || (0x2060 <= v && v <= 0x2064)
        || (0x20d0 <= v && v <= 0x20f0)
        || (0x302a <= v && v <= 0x302d)
        || (0x3099 <= v && v <= 0x309a)
        || (0xfe00 <= v && v <= 0xfe0f)
        || (0xfe20 <= v && v <= 0xfe2f)
        || v == 0xfeff
        || (0xe0100 <= v && v <= 0xe01ef)
}

/// Whether a scalar takes two columns.
pub fn is_double_width(v: u32) -> (r: bool)
    ensures
        r == double_width(v),
{
    (0x1100 <= v && v <= 0x115f)
        || (0x231a <= v && v <= 0x231b)
        || (0x2329 <= v && v <= 0x232a)
        || (0x23e9 <= v && v <= 0x23ec)
        || v == 0x23f0
        || v == 0x23f3
        || (0x25fd <= v && v <= 0x25fe)
        || (0x2614 <= v && v <= 0x2615)
        || (0x2648 <= v && v <= 0x2653)
        || v == 0x267f
        || v == 0x2693
        || v == 0x26a1
        || (0x26aa <= v && v <= 0x26ab)
        || (0x26bd <= v && v <= 0x26be)
        || (0x26c4 <= v && v <= 0x26c5)
        || v == 0x26ce
        || v == 0x26d4
        || v == 0x26ea
        || (0x26f2 <= v && v <= 0x26f3)
        || v == 0x26f5
        || v == 0x26fa
        || v == 0x26fd
        || v == 0x2705
        || (0x270a <= v && v <= 0x270b)
        || v == 0x2728
        || v == 0x274c
        || v == 0x274e
        || (0x2753 <= v && v <= 0x2755)
        || v == 0x2757
        || (0x2795 <= v && v <= 0x2797)
        || v == 0x27b0
        || v == 0x27bf
        || (0x2b1b <= v && v <= 0x2b1c)
        || v == 0x2b50
        || v == 0x2b55
        || (0x2e80 <= v && v <= 0x303e)
        || (0x3041 <= v && v <= 0x4dbf)
        || (0x4e00 <= v && v <= 0xa4cf)
        || (0xa960 <= v && v <= 0xa97f)
        || (0xac00 <= v && v <= 0xd7a3)
        || (0xf900 <= v && v <= 0xfaff)
        || (0xfe10 <= v && v <= 0xfe19)
        || (0xfe30 <= v && v <= 0xfe6f)
        || (0xff00 <= v && v <= 0xff60)
        || (0xffe0 <= v && v <= 0xffe6)
        || v == 0x1f004
        || v == 0x1f0cf
        || v == 0x1f18e
        || (0x1f191 <= v && v <= 0x1f19a)
        || (0x1f200 <= v && v <= 0x1f320)
        || (0x1f32d <= v && v <= 0x1f335)
        || (0x1f337 <= v && v <= 0x1f37c)
        || (0x1f37e <= v && v <= 0x1f393)
        || (0x1f3a0 <= v && v <= 0x1f3ca)
        || (0x1f3cf <= v && v <= 0x1f3d3)
        || (0x1f3e0 <= v && v <= 0x1f3f0)
        || v == 0x1f3f4
        || (0x1f3f8 <= v && v <= 0x1f43e)
        || v == 0x1f440
        || (0x1f442 <= v && v <= 0x1f4fc)
        || (0x1f4ff <= v && v <= 0x1f53d)
        || (0x1f54b <= v && v <= 0x1f54e)
        || (0x1f550 <= v && v <= 0x1f567)
        || v == 0x1f57a
        || (0x1f595 <= v && v <= 0x1f596)
        || v == 0x1f5a4
        || (0x1f5fb <= v && v <= 0x1f64f)
        || (0x1f680 <= v && v <= 0x1f6c5)
        || v == 0x1f6cc
        || (0x1f6d0 <= v && v <= 0x1f6d2)
        || (0x1f6d5 <= v && v <= 0x1f6d7)
        || (0x1f6dc <= v && v <= 0x1f6df)
        || (0x1f6eb <= v && v <= 0x1f6ec)
        || (0x1f6f4 <= v && v <= 0x1f6fc)
        || (0x1f7e0 <= v && v <= 0x1f7eb)
        || v == 0x1f7f0
        || (0x1f90c <= v && v <= 0x1f93a)
        || (0x1f93c <= v && v <= 0x1f945)
        || (0x1f947 <= v && v <= 0x1f9ff)
        || (0x1fa70 <= v && v <= 0x1faff)
        || (0x20000 <= v && v <= 0x2fffd)
        || (0x30000 <= v && v <= 0x3fffd)
}

/// The columns `c` takes: none, one or two.
pub fn width(c: char) -> (r: u8)
    ensures
        r == columns(c),
{
    reveal(columns);
    let v: u32 = c as u32;
    if v < 0x300 {
        1
    } else if is_zero_width(v) {
        0
    } else if is_double_width(v) {
        2
    } else {
        1
    }
}

/// One of the letters that make up a flag in pairs.
pub open spec fn regional(c: char) -> bool {
    0x1f1e6 <= c as u32 <= 0x1f1ff
}

/// The widest of the characters on its own.
pub open spec fn widest(text: Seq<char>) -> nat
    decreases text.len(),
{
    if text.len() == 0 {
        0
    } else {
        let rest = widest(text.drop_last());
        if columns(text.last()) > rest {
            columns(text.last())
        } else {
            rest
        }
    }
}

/// The columns a whole cluster takes: a flag, or anything asked to present as an emoji,
/// takes two; otherwise it is as wide as its widest character.
pub open spec fn cluster_columns(text: Seq<char>) -> nat {
    if text.contains('\u{fe0f}') || (text.len() >= 2 && regional(text[0]) && regional(text[1])) {
        2
    } else {
        widest(text)
    }
}

/// The columns the cluster `text` takes.
pub fn cluster_width(text: &Vec<char>) -> (r: u8)
    ensures
        r == cluster_columns(text@),
{
    let mut wide: u8 = 0;
    let mut i: usize = 0;
    assert(text@.take(0) =~= Seq::empty());
    while i < text.len()
        invariant
            i <= text@.len(),
            wide == widest(text@.take(i as int)),
            wide <= 2,
            forall|j: int| 0 <= j < i ==> #[trigger] text@[j] != '\u{fe0f}',
        decreases text.len() - i,
    {
        let c = text[i];
        if c == '\u{fe0f}' {
            assert(text@.contains('\u{fe0f}'));
            return 2;
        }
        assert(text@.take(i + 1).drop_last() =~= text@.take(i as int));
        let w = width(c);
        proof {
            lemma_columns(c);
        }
        if w > wide {
            wide = w;
        }
        i = i + 1;
    }
    assert(text@.take(i as int) =~= text@);
    if text.len() >= 2 && is_regional(text[0]) && is_regional(text[1]) {
        return 2;
    }
    wide
}

/// Whether `c` is one of the letters that make up a flag.
pub fn is_regional(c: char) -> (r: bool)
    ensures
        r == regional(c),
{
    let v: u32 = c as u32;
    0x1f1e6 <= v && v <= 0x1f1ff
}

/// No character takes more than two columns, and everything plain takes one.
pub proof fn lemma_columns(c: char)
    ensures
        columns(c) <= 2,
        (c as u32) < 0x300 ==> columns(c) == 1,
{
    reveal(columns);
}

/// A byte read as a character is narrow.
pub proof fn lemma_byte_columns(b: u8)
    ensures
        columns(b as char) == 1,
{
    reveal(columns);
}

} // verus!
