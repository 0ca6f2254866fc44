//! Finding the URL under a position in a line of text, and saying which ones may be opened.
use vstd::prelude::*;
use crate::codec::{is_space, space_char, text_chars};

verus! {

/// Whether `prefix` stands in `s` at `i`.
pub open spec fn stands_at(s: Seq<char>, i: int, prefix: Seq<char>) -> bool {
    0 <= i && i + prefix.len() <= s.len() && s.subrange(i, i + prefix.len()) == prefix
}

/// The length of the scheme that stands at `i`, 0 where none that may be opened does.
pub open spec fn scheme_at(s: Seq<char>, i: int) -> int {
    if stands_at(s, i, seq!['h', 't', 't', 'p', 's', ':', '/', '/']) {
        8
    } else if stands_at(s, i, seq!['h', 't', 't', 'p', ':', '/', '/']) {
        7
    } else if stands_at(s, i, seq!['f', 'i', 'l', 'e', ':', '/', '/']) {
        7
    } else {
        0
    }
}

/// The characters a URL is made of: everything but white space, controls and the marks that
/// fence one in running text.
pub open spec fn url_char(c: char) -> bool {
    !space_char(c) && c as u32 > 0x20 && c != '\x7f' && c != '"' && c != '<' && c != '>' && c != '`'
        && c != '{' && c != '}' && c != '|' && c != '\\' && c != '^'
}

/// The punctuation that ends a sentence rather than a URL.
pub open spec fn closing_char(c: char) -> bool {
    c == '.' || c == ',' || c == ';' || c == ':' || c == '!' || c == '?' || c == '\'' || c == ')'
        || c == ']'
}

/// Where the run of URL characters that ends before `i` starts.
pub open spec fn run_start(s: Seq<char>, i: int) -> int
    decreases i,
{
    if 0 < i <= s.len() && url_char(s[i - 1]) {
        run_start(s, i - 1)
    } else {
        i
    }
}

/// Where the run of URL characters that starts at `i` ends.
pub open spec fn run_end(s: Seq<char>, i: int) -> int
    decreases s.len() - i,
{
    if 0 <= i < s.len() && url_char(s[i]) {
        run_end(s, i + 1)
    } else {
        i
    }
}

/// The last place from `from` to `at` where a scheme stands.
pub open spec fn last_scheme(s: Seq<char>, from: int, at: int) -> Option<int>
    decreases at - from + 1,
{
    if at < from {
        None
    } else if scheme_at(s, at) > 0 {
        Some(at)
    } else {
        last_scheme(s, from, at - 1)
    }
}

/// `end` moved back over closing punctuation, no further than `start`.
pub open spec fn url_end(s: Seq<char>, start: int, end: int) -> int
    decreases end - start,
{
    if start < end <= s.len() && closing_char(s[end - 1]) {
        url_end(s, start, end - 1)
    } else {
        end
    }
}

/// The URL that covers position `at`, as the range of characters it occupies: from the
/// nearest scheme at or before `at` to the end of the run around it, less the punctuation of
/// the sentence it stands in.
pub open spec fn url_at(s: Seq<char>, at: int) -> Option<(int, int)> {
    if !(0 <= at < s.len()) || !url_char(s[at]) {
        None
    } else {
        match last_scheme(s, run_start(s, at), at) {
            None => None,
            Some(start) => {
                let end = url_end(s, start, run_end(s, at));
                if start + scheme_at(s, start) < end && at < end {
                    Some((start, end))
                } else {
                    None
                }
            },
        }
    }
}

/// Whether a URL is one that following it may be offered for.
pub open spec fn openable(uri: Seq<char>) -> bool {
    scheme_at(uri, 0) > 0
}

fn has_prefix(s: &Vec<char>, i: usize, prefix: &str) -> (r: bool)
    requires
        i <= s@.len(),
    ensures
        r == stands_at(s@, i as int, prefix@),
{
    let p = text_chars(prefix);
    if s.len() - i < p.len() {
        return false;
    }
    let mut k: usize = 0;
    while k < p.len()
        invariant
            k <= p@.len(),
            p@ == prefix@,
            i + p@.len() <= s@.len() <= usize::MAX,
            forall|j: int| 0 <= j < k ==> s@[i + j] == #[trigger] p@[j],
        decreases p.len() - k,
    {
        if s[i + k] != p[k] {
            assert(s@.subrange(i as int, i + p@.len())[k as int] != p@[k as int]);
            return false;
        }
        k = k + 1;
    }
    assert(s@.subrange(i as int, i + p@.len()) =~= p@);
    true
}

fn scheme_len(s: &Vec<char>, i: usize) -> (n: usize)
    requires
        i <= s@.len(),
    ensures
        n == scheme_at(s@, i as int),
{
    proof {
        reveal_strlit("https://");
        reveal_strlit("http://");
        reveal_strlit("file://");
        assert("https://"@ =~= seq!['h', 't', 't', 'p', 's', ':', '/', '/']);
        assert("http://"@ =~= seq!['h', 't', 't', 'p', ':', '/', '/']);
        assert("file://"@ =~= seq!['f', 'i', 'l', 'e', ':', '/', '/']);
    }
    if i == s.len() || (s[i] != 'h' && s[i] != 'f') {
        proof {
            if scheme_at(s@, i as int) > 0 {
                let n = scheme_at(s@, i as int);
                assert(s@.subrange(i as int, i + n)[0] == s@[i as int]);
            }
        }
        return 0;
    }
    if has_prefix(s, i, "https://") {
        8
    } else if has_prefix(s, i, "http://") || has_prefix(s, i, "file://") {
        7
    } else {
        0
    }
}

fn is_url_char(c: char) -> (r: bool)
    ensures
        r == url_char(c),
{
    !is_space(c) && c as u32 > 0x20 && c != '\x7f' && c != '"' && c != '<' && c != '>' && c != '`'
        && c != '{' && c != '}' && c != '|' && c != '\\' && c != '^'
}

fn is_closing(c: char) -> (r: bool)
    ensures
        r == closing_char(c),
{
    c == '.' || c == ',' || c == ';' || c == ':' || c == '!' || c == '?' || c == '\'' || c == ')'
        || c == ']'
}

proof fn lemma_run_end(s: Seq<char>, i: int)
    requires
        0 <= i <= s.len(),
    ensures
        i <= run_end(s, i) <= s.len(),
    decreases s.len() - i,
{
    if i < s.len() && url_char(s[i]) {
        lemma_run_end(s, i + 1);
    }
}

/// A URL that covers a position lies inside the text, and the position inside the URL.
pub proof fn lemma_url_covers(s: Seq<char>, at: int)
    ensures
        url_at(s, at) matches Some((start, end)) ==> 0 <= start <= at < end <= s.len(),
{
    if 0 <= at < s.len() && url_char(s[at]) {
        lemma_run_start(s, at);
        lemma_last_scheme(s, run_start(s, at), at);
        lemma_run_end(s, at);
        match last_scheme(s, run_start(s, at), at) {
            Some(start) => lemma_url_end(s, start, run_end(s, at)),
            None => {},
        }
    }
}

proof fn lemma_run_start(s: Seq<char>, i: int)
    requires
        0 <= i <= s.len(),
    ensures
        0 <= run_start(s, i) <= i,
    decreases i,
{
    if 0 < i && url_char(s[i - 1]) {
        lemma_run_start(s, i - 1);
    }
}

proof fn lemma_last_scheme(s: Seq<char>, from: int, at: int)
    ensures
        last_scheme(s, from, at) matches Some(start) ==> from <= start <= at && scheme_at(s, start)
            > 0,
    decreases at - from + 1,
{
    if at >= from && scheme_at(s, at) <= 0 {
        lemma_last_scheme(s, from, at - 1);
    }
}

proof fn lemma_url_end(s: Seq<char>, start: int, end: int)
    requires
        start <= end,
    ensures
        start <= url_end(s, start, end) <= end,
    decreases end - start,
{
    if start < end <= s.len() && closing_char(s[end - 1]) {
        lemma_url_end(s, start, end - 1);
    }
}

/// The URL that covers position `at`, as the range of characters it occupies.
pub fn find_at(text: &Vec<char>, at: usize) -> (r: Option<(usize, usize)>)
    ensures
        r is Some <==> url_at(text@, at as int) is Some,
        r matches Some((start, end)) ==> url_at(text@, at as int) == Some(
            (start as int, end as int),
        ),
        r matches Some((start, end)) ==> start <= at < end <= text@.len(),
{
    let ghost s = text@;
    proof {
        lemma_url_covers(s, at as int);
    }
    if at >= text.len() || !is_url_char(text[at]) {
        return None;
    }
    let mut lo: usize = at;
    while lo > 0 && is_url_char(text[lo - 1])
        invariant
            lo <= at < text@.len(),
            s == text@,
            run_start(s, at as int) == run_start(s, lo as int),
        decreases lo,
    {
        lo = lo - 1;
    }
    let mut hi: usize = at;
    while hi < text.len() && is_url_char(text[hi])
        invariant
            at <= hi <= text@.len(),
            s == text@,
            run_end(s, at as int) == run_end(s, hi as int),
        decreases text.len() - hi,
    {
        hi = hi + 1;
    }
    let mut start: usize = at;
    let mut n: usize = scheme_len(text, start);
    while n == 0
        invariant
            lo <= start <= at < text@.len(),
            s == text@,
            lo == run_start(s, at as int),
            n == scheme_at(s, start as int),
            url_at(s, at as int) is Some ==> last_scheme(s, lo as int, at as int) is Some,
            last_scheme(s, lo as int, at as int) == last_scheme(s, lo as int, start as int),
        decreases start,
    {
        if start == lo {
            assert(last_scheme(s, lo as int, start - 1) is None);
            return None;
        }
        start = start - 1;
        n = scheme_len(text, start);
    }
    let mut end: usize = hi;
    while end > start && is_closing(text[end - 1])
        invariant
            start <= end <= hi <= text@.len(),
            s == text@,
            url_end(s, start as int, hi as int) == url_end(s, start as int, end as int),
        decreases end,
    {
        end = end - 1;
    }
    if n < end - start && at < end {
        Some((start, end))
    } else {
        None
    }
}

/// Whether a URL is one that following it may be offered for. A link that would be refused
/// when followed is not shown as one either.
pub fn can_open(uri: &str) -> (r: bool)
    ensures
        r == openable(uri@),
{
    let s = text_chars(uri);
    scheme_len(&s, 0) > 0
}

} // verus!
