//! Splitting a payload into its fields at a separator byte.
use vstd::prelude::*;

verus! {

/// Where `sep` first stands in `s`, or the length of `s` when it does not.
pub open spec fn first_at(s: Seq<u8>, sep: u8) -> int
    decreases s.len(),
{
    if s.len() == 0 || s[0] == sep {
        0
    } else {
        1 + first_at(s.skip(1), sep)
    }
}

/// The pieces of `s` between the separators; there is always at least one.
pub open spec fn fields(s: Seq<u8>, sep: u8) -> Seq<Seq<u8>>
    decreases s.len(),
    when true
    via fields_decreases
{
    let p = first_at(s, sep);
    if p < s.len() {
        seq![s.take(p)] + fields(s.skip(p + 1), sep)
    } else {
        seq![s]
    }
}

#[via_fn]
proof fn fields_decreases(s: Seq<u8>, sep: u8) {
    lemma_first_at(s, sep);
}

/// What stands before the first separator.
pub open spec fn head(s: Seq<u8>, sep: u8) -> Seq<u8> {
    s.take(first_at(s, sep))
}

/// What stands after the first separator, or nothing.
pub open spec fn tail(s: Seq<u8>, sep: u8) -> Seq<u8> {
    if first_at(s, sep) < s.len() {
        s.skip(first_at(s, sep) + 1)
    } else {
        Seq::empty()
    }
}

/// `first_at` is the least index at which the separator stands.
pub proof fn lemma_first_at(s: Seq<u8>, sep: u8)
    ensures
        0 <= first_at(s, sep) <= s.len(),
        first_at(s, sep) < s.len() ==> s[first_at(s, sep)] == sep,
        forall|i: int| 0 <= i < first_at(s, sep) ==> #[trigger] s[i] != sep,
    decreases s.len(),
{
    if s.len() == 0 || s[0] == sep {
    } else {
        let t = s.skip(1);
        lemma_first_at(t, sep);
        assert forall|i: int| 0 <= i < first_at(s, sep) implies #[trigger] s[i] != sep by {
            if i > 0 {
                assert(s[i] == t[i - 1]);
            }
        }
    }
}

/// An index with the separator at it and none before it is where it first stands.
pub proof fn lemma_first_at_is(s: Seq<u8>, sep: u8, p: int)
    requires
        0 <= p <= s.len(),
        p < s.len() ==> s[p] == sep,
        forall|i: int| 0 <= i < p ==> #[trigger] s[i] != sep,
    ensures
        first_at(s, sep) == p,
{
    lemma_first_at(s, sep);
    let q = first_at(s, sep);
    if q < p {
        assert(s[q] != sep);
    } else if p < q {
        assert(s[p] != sep);
    }
}

/// There is always a field.
pub proof fn lemma_fields_some(s: Seq<u8>, sep: u8)
    ensures
        fields(s, sep).len() > 0,
{
}

/// A run without the separator is one field.
pub proof fn lemma_fields_single(s: Seq<u8>, sep: u8)
    requires
        forall|i: int| 0 <= i < s.len() ==> #[trigger] s[i] != sep,
    ensures
        fields(s, sep) == seq![s],
{
    lemma_first_at_is(s, sep, s.len() as int);
}

/// A run without the separator, the separator, and more: that run is the first field.
pub proof fn lemma_fields_split(a: Seq<u8>, b: Seq<u8>, sep: u8)
    requires
        forall|i: int| 0 <= i < a.len() ==> #[trigger] a[i] != sep,
    ensures
        fields(a + seq![sep] + b, sep) == seq![a] + fields(b, sep),
{
    let s = a + seq![sep] + b;
    assert forall|i: int| 0 <= i < a.len() implies #[trigger] s[i] != sep by {
        assert(s[i] == a[i]);
    }
    lemma_first_at_is(s, sep, a.len() as int);
    assert(s.take(a.len() as int) =~= a);
    assert(s.skip(a.len() as int + 1) =~= b);
}

/// The fields of a payload as values.
pub open spec fn fields_view(v: Seq<Vec<u8>>) -> Seq<Seq<u8>> {
    v.map_values(|f: Vec<u8>| f@)
}

/// The bytes of `s` from `from` up to `to`.
pub fn copy_range(s: &[u8], from: usize, to: usize) -> (r: Vec<u8>)
    requires
        from <= to <= s.len(),
    ensures
        r@ == s@.subrange(from as int, to as int),
{
    vstd::slice::slice_to_vec(vstd::slice::slice_subrange(s, from, to))
}

/// Where `sep` first stands in `s`, or its length.
pub fn find_byte(s: &[u8], sep: u8) -> (p: usize)
    ensures
        p == first_at(s@, sep),
{
    let mut i: usize = 0;
    while i < s.len() && s[i] != sep
        invariant
            i <= s.len(),
            forall|j: int| 0 <= j < i ==> #[trigger] s@[j] != sep,
        decreases s.len() - i,
    {
        i = i + 1;
    }
    proof {
        lemma_first_at_is(s@, sep, i as int);
    }
    i
}

/// The part before the first separator and the part after it.
pub fn split_head<'a>(s: &'a [u8], sep: u8) -> (r: (&'a [u8], &'a [u8]))
    ensures
        r.0@ == head(s@, sep),
        r.1@ == tail(s@, sep),
{
    let p: usize = find_byte(s, sep);
    proof {
        lemma_first_at(s@, sep);
    }
    let first = vstd::slice::slice_subrange(s, 0, p);
    assert(first@ =~= head(s@, sep));
    if p < s.len() {
        let rest = vstd::slice::slice_subrange(s, p + 1, s.len());
        assert(rest@ =~= tail(s@, sep));
        (first, rest)
    } else {
        let rest = vstd::slice::slice_subrange(s, s.len(), s.len());
        assert(rest@ =~= tail(s@, sep));
        (first, rest)
    }
}

/// The pieces of `s` between the separators.
pub fn split_fields(s: &[u8], sep: u8) -> (r: Vec<Vec<u8>>)
    ensures
        fields_view(r@) == fields(s@, sep),
{
    let mut out: Vec<Vec<u8>> = Vec::new();
    let mut start: usize = 0;
    let mut i: usize = 0;
    assert(s@.skip(0) =~= s@);
    assert(fields_view(out@) + fields(s@.skip(0), sep) =~= fields(s@, sep));
    while i < s.len()
        invariant
            start <= i <= s.len(),
            fields_view(out@) + fields(s@.skip(start as int), sep) == fields(s@, sep),
            forall|j: int| start <= j < i ==> #[trigger] s@[j] != sep,
        decreases s.len() - i,
    {
        if s[i] == sep {
            let ghost rest = s@.skip(start as int);
            let ghost before = fields_view(out@);
            proof {
                assert forall|j: int| 0 <= j < i - start implies #[trigger] rest[j] != sep by {
                    assert(rest[j] == s@[start + j]);
                }
                lemma_first_at_is(rest, sep, i - start);
                assert(rest.take(i - start) =~= s@.subrange(start as int, i as int));
                assert(rest.skip(i - start + 1) =~= s@.skip(i + 1));
            }
            out.push(copy_range(s, start, i));
            assert(fields_view(out@) =~= before + seq![rest.take(i - start)]);
            assert(fields_view(out@) + fields(s@.skip(i + 1), sep) =~= before + (seq![
                rest.take(i - start),
            ] + fields(s@.skip(i + 1), sep)));
            start = i + 1;
        }
        i = i + 1;
    }
    proof {
        let rest = s@.skip(start as int);
        assert forall|j: int| 0 <= j < rest.len() implies #[trigger] rest[j] != sep by {
            assert(rest[j] == s@[start + j]);
        }
        lemma_fields_single(rest, sep);
        assert(rest =~= s@.subrange(start as int, s@.len() as int));
    }
    let ghost before = fields_view(out@);
    out.push(copy_range(s, start, s.len()));
    assert(fields_view(out@) =~= before + seq![s@.skip(start as int)]);
    out
}

} // verus!
