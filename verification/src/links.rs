//! The hyperlinks a screen is holding, each interned once and cited by id.
use vstd::hash_map::StringHashMap;
use vstd::prelude::*;
use crate::cell::LinkId;

verus! {

/// How many distinct hyperlinks one screen can hold at once: the id space is a `u16` with
/// zero reserved for "no link".
pub const LINK_LIMIT: usize = 65534;

/// The URLs of the hyperlinks a screen is holding. Ids are 1-based, so `urls[i]` is the URL
/// of id `i + 1` and zero is free to mean "no link".
pub struct LinkTable {
    pub urls: Vec<String>,
    /// The id of each URL, so that a link printed a thousand times is interned once and
    /// without a walk of the table.
    pub index: StringHashMap<LinkId>,
}

/// URLs as values.
pub open spec fn urls_view(urls: Seq<String>) -> Seq<Seq<char>> {
    urls.map_values(|u: String| u@)
}

impl View for LinkTable {
    type V = Seq<Seq<char>>;

    open spec fn view(&self) -> Seq<Seq<char>> {
        urls_view(self.urls@)
    }
}

/// Where `url` stands among `urls`, if it does.
pub open spec fn position(urls: Seq<Seq<char>>, url: Seq<char>) -> Option<int>
    decreases urls.len(),
{
    if urls.len() == 0 {
        None
    } else if urls.last() == url {
        Some(urls.len() - 1)
    } else {
        position(urls.drop_last(), url)
    }
}

/// The id of `url` once it is interned: the one it has, or the next one while there is one.
pub open spec fn link_id(urls: Seq<Seq<char>>, url: Seq<char>) -> Option<LinkId> {
    match position(urls, url) {
        Some(i) => Some(LinkId((i + 1) as u16)),
        None => if urls.len() >= LINK_LIMIT {
            None
        } else {
            Some(LinkId((urls.len() + 1) as u16))
        },
    }
}

/// The table once `url` is interned.
pub open spec fn interned(urls: Seq<Seq<char>>, url: Seq<char>) -> Seq<Seq<char>> {
    if position(urls, url) is None && urls.len() < LINK_LIMIT {
        urls.push(url)
    } else {
        urls
    }
}

/// The URL behind an id.
pub open spec fn url_of(urls: Seq<Seq<char>>, id: LinkId) -> Option<Seq<char>> {
    if 1 <= id.0 <= urls.len() {
        Some(urls[id.0 - 1])
    } else {
        None
    }
}

/// Whether `live` marks the URL in slot `i`; it speaks of ids, and slot `i` has id `i + 1`.
pub open spec fn alive(live: Seq<bool>, i: int) -> bool {
    i + 1 < live.len() && live[i + 1]
}

/// The live ones of the first `k` URLs.
pub open spec fn kept_urls(urls: Seq<Seq<char>>, live: Seq<bool>, k: int) -> Seq<Seq<char>>
    decreases k,
{
    if k <= 0 {
        Seq::empty()
    } else if alive(live, k - 1) {
        kept_urls(urls, live, k - 1).push(urls[k - 1])
    } else {
        kept_urls(urls, live, k - 1)
    }
}

/// The new id of each old one: none for zero and for the dropped.
pub open spec fn new_ids(urls: Seq<Seq<char>>, live: Seq<bool>) -> Seq<LinkId> {
    Seq::new(
        urls.len() + 1,
        |id: int|
            if id > 0 && alive(live, id - 1) {
                LinkId(kept_urls(urls, live, id).len() as u16)
            } else {
                LinkId(0)
            },
    )
}

/// What `ids` makes of an id; one past its end is dropped.
pub open spec fn renumbered(ids: Seq<LinkId>, id: LinkId) -> LinkId {
    if id.0 < ids.len() {
        ids[id.0 as int]
    } else {
        LinkId(0)
    }
}

/// No URL is held twice.
pub open spec fn distinct(urls: Seq<Seq<char>>) -> bool {
    forall|i: int, j: int| 0 <= i < j < urls.len() ==> #[trigger] urls[i] != #[trigger] urls[j]
}

impl LinkTable {
    /// Distinct URLs, no more than there are ids, and an index of just those, each under its
    /// id.
    pub closed spec fn wf(&self) -> bool {
        &&& self@.len() <= LINK_LIMIT
        &&& distinct(self@)
        &&& forall|i: int|
            0 <= i < self@.len() ==> self.index@.contains_key(#[trigger] self@[i])
                && self.index@[self@[i]] == LinkId((i + 1) as u16)
        &&& forall|url: Seq<char>| #[trigger] self.index@.contains_key(url) ==> self@.contains(url)
    }

    /// A table of nothing.
    pub fn new() -> (t: LinkTable)
        ensures
            t@ == Seq::<Seq<char>>::empty(),
            t.wf(),
    {
        let t = LinkTable { urls: Vec::new(), index: StringHashMap::new() };
        assert(t@ =~= Seq::<Seq<char>>::empty());
        t
    }

    /// The id for `url`, interning it if this is the first time it is seen. `None` when the
    /// id space is exhausted.
    pub fn intern(&mut self, url: &str) -> (r: Option<LinkId>)
        requires
            old(self).wf(),
        ensures
            r == link_id(old(self)@, url@),
            final(self)@ == interned(old(self)@, url@),
            final(self).wf(),
    {
        let ghost before = self@;
        proof {
            lemma_position(before, url@);
        }
        if let Some(id) = self.index.get(url) {
            proof {
                assert(before.contains(url@));
                let i = before.index_of(url@);
                lemma_position_is(before, url@, i);
            }
            return Some(*id);
        }
        proof {
            assert forall|i: int| 0 <= i < before.len() implies #[trigger] before[i] != url@ by {
                assert(self.index@.contains_key(before[i]));
            }
            lemma_position_none(before, url@);
        }
        if self.urls.len() >= LINK_LIMIT {
            return None;
        }
        let id = LinkId((self.urls.len() + 1) as u16);
        let ghost known = self.index@;
        self.urls.push(url.to_owned());
        self.index.insert(url.to_owned(), id);
        assert(self@ =~= before.push(url@));
        proof {
            assert forall|i: int| 0 <= i < self@.len() implies self.index@.contains_key(
                #[trigger] self@[i],
            ) && self.index@[self@[i]] == LinkId((i + 1) as u16) by {
                if i < before.len() {
                    assert(self@[i] == before[i]);
                    assert(known.contains_key(before[i]));
                }
            }
            assert forall|u: Seq<char>| #[trigger] self.index@.contains_key(u) implies self@.contains(
                u,
            ) by {
                if u == url@ {
                    assert(self@[before.len() as int] == url@);
                } else {
                    assert(known.contains_key(u));
                    let i = before.index_of(u);
                    assert(self@[i] == u);
                }
            }
            assert forall|i: int, j: int| 0 <= i < j < self@.len() implies #[trigger] self@[i]
                != #[trigger] self@[j] by {
                if j == before.len() {
                    assert(before[i] != url@);
                } else {
                    assert(before[i] != before[j]);
                }
            }
        }
        Some(id)
    }

    /// The URL behind `id`, or `None` for no link and any id the table does not hold.
    pub fn url(&self, id: LinkId) -> (r: Option<&str>)
        ensures
            r is Some <==> url_of(self@, id) is Some,
            r matches Some(u) ==> url_of(self@, id) == Some(u@),
    {
        if id.0 >= 1 && (id.0 as usize) <= self.urls.len() {
            Some(self.urls[id.0 as usize - 1].as_str())
        } else {
            None
        }
    }

    /// Drop every URL `live` does not mark and renumber the survivors, returning the map
    /// from old ids to new ones that the caller must then apply to every cell it kept.
    pub fn compact(&mut self, live: &Vec<bool>) -> (ids: Vec<LinkId>)
        requires
            old(self).wf(),
        ensures
            final(self)@ == kept_urls(old(self)@, live@, old(self)@.len() as int),
            ids@ == new_ids(old(self)@, live@),
            final(self).wf(),
    {
        let ghost before = self@;
        let mut ids: Vec<LinkId> = Vec::new();
        ids.push(LinkId(0));
        let mut kept = LinkTable::new();
        let mut slot: usize = 0;
        while slot < self.urls.len()
            invariant
                slot <= self.urls@.len(),
                self@ == before,
                before.len() == self.urls@.len(),
                before.len() <= LINK_LIMIT,
                distinct(before),
                kept.wf(),
                kept@ == kept_urls(before, live@, slot as int),
                ids@.len() == slot + 1,
                forall|id: int|
                    0 <= id <= slot ==> #[trigger] ids@[id] == new_ids(before, live@)[id],
            decreases self.urls.len() - slot,
        {
            assert(before[slot as int] == self.urls@[slot as int]@);
            proof {
                lemma_kept(before, live@, slot as int);
            }
            if slot + 1 < live.len() && live[slot + 1] {
                proof {
                    assert forall|i: int| 0 <= i < kept@.len() implies #[trigger] kept@[i]
                        != before[slot as int] by {}
                    lemma_position_none(kept@, before[slot as int]);
                }
                let id = kept.intern(self.urls[slot].as_str());
                match id {
                    Some(id) => ids.push(id),
                    None => ids.push(LinkId(0)),
                }
            } else {
                ids.push(LinkId(0));
            }
            slot = slot + 1;
        }
        assert(ids@ =~= new_ids(before, live@));
        self.urls = kept.urls;
        self.index = kept.index;
        ids
    }
}

/// The last place a URL stands, and none only where it stands nowhere.
pub proof fn lemma_position(urls: Seq<Seq<char>>, url: Seq<char>)
    ensures
        position(urls, url) matches Some(i) ==> 0 <= i < urls.len() && urls[i] == url,
        position(urls, url) is None ==> forall|i: int| 0 <= i < urls.len() ==> #[trigger] urls[i]
            != url,
    decreases urls.len(),
{
    if urls.len() > 0 && urls.last() != url {
        lemma_position(urls.drop_last(), url);
        assert forall|i: int| 0 <= i < urls.len() && position(urls, url) is None implies
            #[trigger] urls[i] != url by {
            if i < urls.len() - 1 {
                assert(urls.drop_last()[i] == urls[i]);
            }
        }
    }
}

proof fn lemma_position_is(urls: Seq<Seq<char>>, url: Seq<char>, i: int)
    requires
        distinct(urls),
        0 <= i < urls.len(),
        urls[i] == url,
    ensures
        position(urls, url) == Some(i),
{
    lemma_position(urls, url);
    match position(urls, url) {
        Some(j) => {
            if i < j {
                assert(urls[i] != urls[j]);
            } else if j < i {
                assert(urls[j] != urls[i]);
            }
        },
        None => {},
    }
}

proof fn lemma_position_none(urls: Seq<Seq<char>>, url: Seq<char>)
    requires
        forall|i: int| 0 <= i < urls.len() ==> #[trigger] urls[i] != url,
    ensures
        position(urls, url) is None,
{
    lemma_position(urls, url);
}

/// No more is kept than was there, and nothing of what comes later.
proof fn lemma_kept(urls: Seq<Seq<char>>, live: Seq<bool>, k: int)
    requires
        0 <= k <= urls.len(),
        distinct(urls),
    ensures
        kept_urls(urls, live, k).len() <= k,
        forall|i: int, j: int|
            0 <= i < kept_urls(urls, live, k).len() && k <= j < urls.len() ==> #[trigger] kept_urls(
                urls,
                live,
                k,
            )[i] != #[trigger] urls[j],
    decreases k,
{
    if k > 0 {
        lemma_kept(urls, live, k - 1);
        let a = kept_urls(urls, live, k - 1);
        let b = kept_urls(urls, live, k);
        assert forall|i: int, j: int| 0 <= i < b.len() && k <= j < urls.len() implies #[trigger] b[i]
            != #[trigger] urls[j] by {
            if i < a.len() {
                assert(b[i] == a[i]);
                assert(a[i] != urls[j]);
            } else {
                assert(urls[k - 1] != urls[j]);
            }
        }
    }
}

/// What is kept is distinct, and no more than there was.
pub proof fn lemma_kept_distinct(urls: Seq<Seq<char>>, live: Seq<bool>, k: int)
    requires
        0 <= k <= urls.len(),
        distinct(urls),
    ensures
        distinct(kept_urls(urls, live, k)),
        kept_urls(urls, live, k).len() <= k,
    decreases k,
{
    if k > 0 {
        lemma_kept_distinct(urls, live, k - 1);
        lemma_kept(urls, live, k - 1);
    }
}

/// Interning gives an id whose URL is the one interned, and the same id the next time; the
/// ids already handed out keep their URLs.
pub proof fn lemma_intern_reads_back(urls: Seq<Seq<char>>, url: Seq<char>, other: LinkId)
    requires
        distinct(urls),
        urls.len() <= LINK_LIMIT,
        link_id(urls, url) is Some,
    ensures
        link_id(urls, url)->0 != LinkId(0),
        url_of(interned(urls, url), link_id(urls, url)->0) == Some(url),
        link_id(interned(urls, url), url) == link_id(urls, url),
        url_of(urls, other) is Some ==> url_of(interned(urls, url), other) == url_of(urls, other),
{
    lemma_position(urls, url);
}

/// Interning keeps the URLs distinct and within their cap.
pub proof fn lemma_interned_wf(urls: Seq<Seq<char>>, url: Seq<char>)
    requires
        distinct(urls),
        urls.len() <= LINK_LIMIT,
    ensures
        distinct(interned(urls, url)),
        interned(urls, url).len() <= LINK_LIMIT,
        link_id(urls, url) is None ==> interned(urls, url) == urls,
{
    lemma_position(urls, url);
}

/// An interned URL is refused only when every id is taken.
pub proof fn lemma_intern_refused(urls: Seq<Seq<char>>, url: Seq<char>)
    ensures
        link_id(urls, url) is None <==> urls.len() >= LINK_LIMIT && (forall|i: int|
            0 <= i < urls.len() ==> #[trigger] urls[i] != url),
{
    lemma_position(urls, url);
}

/// A collection keeps the URL of every live id, under the id it is renumbered to.
pub proof fn lemma_compact_keeps_live_urls(urls: Seq<Seq<char>>, live: Seq<bool>, id: LinkId)
    requires
        distinct(urls),
        urls.len() <= LINK_LIMIT,
        1 <= id.0 <= urls.len(),
        alive(live, id.0 - 1),
    ensures
        url_of(
            kept_urls(urls, live, urls.len() as int),
            renumbered(new_ids(urls, live), id),
        ) == url_of(urls, id),
{
    lemma_kept(urls, live, id.0 as int);
    lemma_kept_prefix(urls, live, id.0 as int, urls.len() as int);
    let part = kept_urls(urls, live, id.0 as int);
    assert(part[part.len() - 1] == urls[id.0 - 1]);
}

/// What is kept of the first URLs stands first in what is kept of more.
pub proof fn lemma_kept_prefix(urls: Seq<Seq<char>>, live: Seq<bool>, j: int, k: int)
    requires
        0 <= j <= k <= urls.len(),
    ensures
        kept_urls(urls, live, j).len() <= kept_urls(urls, live, k).len(),
        forall|i: int|
            0 <= i < kept_urls(urls, live, j).len() ==> #[trigger] kept_urls(urls, live, j)[i]
                == kept_urls(urls, live, k)[i],
    decreases k,
{
    if j < k {
        lemma_kept_prefix(urls, live, j, k - 1);
    }
}

} // verus!
