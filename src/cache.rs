//! The icon cache: host name to cached outcome of an icon fetch.
use vstd::prelude::*;
use crate::config::{join_path, path_in};
use crate::json::JsonValue;
use crate::transfer::{all_str_or_null, import_entries, import_pairs, pairs_view, ImportError};

verus! {

/// The cache file inside the application directory `app_dir`.
pub fn get_cache_path(app_dir: &str) -> (r: String)
    ensures
        r@ == path_in(app_dir@, "favicon_cache.json"@),
{
    join_path(app_dir, "favicon_cache.json")
}

/// What the cache knows about one host.
#[derive(Clone, Debug, PartialEq, Eq)]
pub enum CacheEntry {
    /// No fetch has been made for the host.
    Unresolved,
    /// A fetch succeeded; the embeddable icon payload.
    Resolved(String),
    /// A fetch failed; the host is never fetched again.
    PermanentFailure,
}

/// Host name to icon payload (`Some`) or recorded failure (`None`).
/// Keys are unique; the order of the entries carries no meaning.
#[derive(Clone, Debug)]
pub struct FaviconCache {
    entries: Vec<(String, Option<String>)>,
}

/// The view of a stored value.
pub open spec fn value_view(v: Option<String>) -> Option<Seq<char>> {
    match v {
        Some(s) => Some(s@),
        None => None,
    }
}

/// `e` is what the mapping `m` gives for `host`.
pub open spec fn entry_matches(e: CacheEntry, m: Map<Seq<char>, Option<Seq<char>>>, host: Seq<char>) -> bool {
    match e {
        CacheEntry::Unresolved => !m.contains_key(host),
        CacheEntry::Resolved(p) => m.contains_key(host) && m[host] == Some(p@),
        CacheEntry::PermanentFailure => m.contains_key(host) && m[host] == None::<Seq<char>>,
    }
}

/// `m` with each host and value of `s` recorded in turn.
pub open spec fn recorded(
    m: Map<Seq<char>, Option<Seq<char>>>,
    s: Seq<(Seq<char>, Option<Seq<char>>)>,
) -> Map<Seq<char>, Option<Seq<char>>>
    decreases s.len(),
{
    if s.len() == 0 {
        m
    } else {
        recorded(m, s.drop_last()).insert(s.last().0, s.last().1)
    }
}

/// Host and payload pairs as fetched icons.
pub open spec fn as_resolved(ps: Seq<(Seq<char>, Seq<char>)>) -> Seq<(Seq<char>, Option<Seq<char>>)> {
    ps.map_values(|p: (Seq<char>, Seq<char>)| (p.0, Some(p.1)))
}

/// The hosts of `m` that have a fetched icon.
pub open spec fn resolved_part(m: Map<Seq<char>, Option<Seq<char>>>) -> Map<Seq<char>, Option<Seq<char>>> {
    Map::new(|h: Seq<char>| m.contains_key(h) && m[h] is Some, |h: Seq<char>| m[h])
}

/// The members of a document in the cache's own shape, as hosts and values.
pub open spec fn native_entries(e: Seq<(String, JsonValue)>) -> Seq<(Seq<char>, Option<Seq<char>>)> {
    e.map_values(
        |m: (String, JsonValue)|
            (
                m.0@,
                match m.1 {
                    JsonValue::Str(s) => Some(s@),
                    _ => None,
                },
            ),
    )
}

/// The cache that a parsed cache file gives (`None`: the file was missing or
/// not JSON). A file in the cache's own shape keeps its failures; any other
/// accepted shape gives fetched icons; anything else gives an empty cache.
pub open spec fn loaded(parsed: Option<JsonValue>) -> Map<Seq<char>, Option<Seq<char>>> {
    match parsed {
        Some(JsonValue::Object(e)) if all_str_or_null(e@) => recorded(Map::empty(), native_entries(e@)),
        Some(v) => match import_pairs(v) {
            Some(ps) => recorded(Map::empty(), as_resolved(ps)),
            None => Map::empty(),
        },
        None => Map::empty(),
    }
}

pub open spec fn keys_distinct(s: Seq<(Seq<char>, Option<Seq<char>>)>) -> bool {
    forall|i: int, j: int| 0 <= i < j < s.len() ==> #[trigger] s[i].0 != #[trigger] s[j].0
}

/// A host is recorded iff it was there or is one of `s`.
pub proof fn lemma_recorded_dom(m: Map<Seq<char>, Option<Seq<char>>>, s: Seq<(Seq<char>, Option<Seq<char>>)>, h: Seq<char>)
    ensures
        recorded(m, s).contains_key(h) <==> (m.contains_key(h) || exists|i: int| 0 <= i < s.len() && s[i].0 == h),
    decreases s.len(),
{
    if s.len() > 0 {
        lemma_recorded_dom(m, s.drop_last(), h);
        if exists|i: int| 0 <= i < s.len() && s[i].0 == h {
            let i = choose|i: int| 0 <= i < s.len() && s[i].0 == h;
            if i < s.len() - 1 {
                assert(s.drop_last()[i].0 == h);
            }
        }
        if exists|i: int| 0 <= i < s.drop_last().len() && s.drop_last()[i].0 == h {
            let i = choose|i: int| 0 <= i < s.drop_last().len() && s.drop_last()[i].0 == h;
            assert(s[i].0 == h);
        }
    }
}

/// With distinct hosts, each recorded host holds its own value.
pub proof fn lemma_recorded_at(m: Map<Seq<char>, Option<Seq<char>>>, s: Seq<(Seq<char>, Option<Seq<char>>)>, i: int)
    requires
        keys_distinct(s),
        0 <= i < s.len(),
    ensures
        recorded(m, s).contains_key(s[i].0),
        recorded(m, s)[s[i].0] == s[i].1,
    decreases s.len(),
{
    if i < s.len() - 1 {
        assert(keys_distinct(s.drop_last()));
        assert(s.drop_last()[i] == s[i]);
        lemma_recorded_at(m, s.drop_last(), i);
        assert(s[i].0 != s[s.len() - 1].0);
    }
}

/// The fetched icons among entries, in order.
pub open spec fn some_pairs(s: Seq<(Seq<char>, Option<Seq<char>>)>) -> Seq<(Seq<char>, Seq<char>)>
    decreases s.len(),
{
    if s.len() == 0 {
        Seq::empty()
    } else {
        let before = some_pairs(s.drop_last());
        match s.last().1 {
            Some(p) => before.push((s.last().0, p)),
            None => before,
        }
    }
}

/// Recording only the fetched icons of entries with distinct hosts gives the
/// fetched part of recording them all.
pub proof fn lemma_some_pairs_recorded(s: Seq<(Seq<char>, Option<Seq<char>>)>)
    requires
        keys_distinct(s),
    ensures
        recorded(Map::empty(), as_resolved(some_pairs(s))) == resolved_part(recorded(Map::empty(), s)),
    decreases s.len(),
{
    let empty = Map::<Seq<char>, Option<Seq<char>>>::empty();
    if s.len() == 0 {
        assert(resolved_part(recorded(empty, s)) =~= empty);
    } else {
        let init = s.drop_last();
        assert(keys_distinct(init));
        lemma_recorded_dom(empty, init, s.last().0);
        lemma_some_pairs_recorded(init);
        let k = s.last().0;
        if exists|i: int| 0 <= i < init.len() && init[i].0 == k {
            let i = choose|i: int| 0 <= i < init.len() && init[i].0 == k;
            assert(s[i].0 != s[s.len() - 1].0);
        }
        let sp = some_pairs(s);
        match s.last().1 {
            Some(p) => {
                assert(as_resolved(sp).drop_last() =~= as_resolved(some_pairs(init)));
            },
            None => {},
        }
        assert(recorded(empty, as_resolved(sp)) =~= resolved_part(recorded(empty, s)));
    }
}

impl FaviconCache {
    pub closed spec fn keys_unique(&self) -> bool {
        forall|i: int, j: int|
            0 <= i < j < self.entries@.len() ==> #[trigger] self.entries@[i].0@
                != #[trigger] self.entries@[j].0@
    }

    /// The cache as a mapping from host to stored value.
    pub closed spec fn view(&self) -> Map<Seq<char>, Option<Seq<char>>> {
        Map::new(
            |h: Seq<char>| exists|i: int| 0 <= i < self.entries@.len() && self.entries@[i].0@ == h,
            |h: Seq<char>|
                value_view(
                    self.entries@[choose|i: int|
                        0 <= i < self.entries@.len() && self.entries@[i].0@ == h].1,
                ),
        )
    }

    pub closed spec fn wf(&self) -> bool {
        self.keys_unique()
    }

    /// The entries as hosts and values, in storage order.
    pub closed spec fn entry_views(&self) -> Seq<(Seq<char>, Option<Seq<char>>)> {
        self.entries@.map_values(|e: (String, Option<String>)| (e.0@, value_view(e.1)))
    }

    /// The fetched icons, in storage order.
    pub open spec fn resolved_pairs(&self) -> Seq<(Seq<char>, Seq<char>)> {
        some_pairs(self.entry_views())
    }

    /// The cache is its entries recorded in turn.
    pub proof fn lemma_view_recorded(&self)
        requires
            self.wf(),
        ensures
            keys_distinct(self.entry_views()),
            self@ == recorded(Map::empty(), self.entry_views()),
    {
        let t = self.entry_views();
        let empty = Map::<Seq<char>, Option<Seq<char>>>::empty();
        assert(keys_distinct(t)) by {
            assert forall|i: int, j: int| 0 <= i < j < t.len() implies #[trigger] t[i].0 != #[trigger] t[j].0 by {
                assert(self.entries@[i].0@ != self.entries@[j].0@);
            }
        }
        assert forall|h: Seq<char>| #[trigger] self@.contains_key(h) == recorded(empty, t).contains_key(h) by {
            lemma_recorded_dom(empty, t, h);
            if exists|i: int| 0 <= i < t.len() && t[i].0 == h {
                let i = choose|i: int| 0 <= i < t.len() && t[i].0 == h;
                assert(self.entries@[i].0@ == h);
            }
            if self@.contains_key(h) {
                let i = choose|i: int| 0 <= i < self.entries@.len() && self.entries@[i].0@ == h;
                assert(t[i].0 == h);
            }
        }
        assert forall|h: Seq<char>| #[trigger] self@.contains_key(h) implies self@[h] == recorded(empty, t)[h] by {
            let i = choose|i: int| 0 <= i < self.entries@.len() && self.entries@[i].0@ == h;
            self.lemma_view_at(i);
            lemma_recorded_at(empty, t, i);
        }
        assert(self@ =~= recorded(empty, t));
    }

    pub fn new() -> (r: FaviconCache)
        ensures
            r.wf(),
            r@ == Map::<Seq<char>, Option<Seq<char>>>::empty(),
    {
        let r = FaviconCache { entries: Vec::new() };
        assert(r@ =~= Map::<Seq<char>, Option<Seq<char>>>::empty());
        r
    }

    proof fn lemma_view_at(&self, i: int)
        requires
            self.wf(),
            0 <= i < self.entries@.len(),
        ensures
            self@.contains_key(self.entries@[i].0@),
            self@[self.entries@[i].0@] == value_view(self.entries@[i].1),
    {
        let h = self.entries@[i].0@;
        assert(self@.contains_key(h));
        let j = choose|j: int| 0 <= j < self.entries@.len() && self.entries@[j].0@ == h;
        if j != i {
            if j < i {
                assert(self.entries@[j].0@ != self.entries@[i].0@);
            } else {
                assert(self.entries@[i].0@ != self.entries@[j].0@);
            }
        }
    }

    /// Position of `host` among the entries.
    fn find(&self, host: &String) -> (r: Option<usize>)
        requires
            self.wf(),
        ensures
            match r {
                Some(i) => i < self.entries@.len() && self.entries@[i as int].0@ == host@,
                None => !self@.contains_key(host@),
            },
    {
        let mut i: usize = 0;
        while i < self.entries.len()
            invariant
                i <= self.entries@.len(),
                forall|j: int| 0 <= j < i ==> self.entries@[j].0@ != host@,
            decreases self.entries@.len() - i,
        {
            if self.entries[i].0 == *host {
                return Some(i);
            }
            i = i + 1;
        }
        None
    }

    /// What the cache holds for `host`.
    pub fn lookup(&self, host: &String) -> (r: CacheEntry)
        requires
            self.wf(),
        ensures
            entry_matches(r, self@, host@),
    {
        match self.find(host) {
            Some(i) => {
                proof {
                    self.lemma_view_at(i as int);
                }
                match &self.entries[i].1 {
                    Some(p) => CacheEntry::Resolved(p.clone()),
                    None => CacheEntry::PermanentFailure,
                }
            },
            None => CacheEntry::Unresolved,
        }
    }

    /// Records `value` for `host`, replacing what was there.
    pub fn put(&mut self, host: String, value: Option<String>)
        requires
            old(self).wf(),
        ensures
            final(self).wf(),
            final(self)@ == old(self)@.insert(host@, value_view(value)),
    {
        let ghost hv = host@;
        let ghost vv = value_view(value);
        let ghost before = self.entries@;
        match self.find(&host) {
            Some(i) => {
                self.entries.set(i, (host, value));
                proof {
                    let after = self.entries@;
                    assert(after[i as int].0@ == hv);
                    assert forall|a: int, b: int| 0 <= a < b < after.len() implies #[trigger] after[a].0@
                        != #[trigger] after[b].0@ by {
                        assert(before[a].0@ != before[b].0@);
                        assert(after[a].0@ == before[a].0@);
                        assert(after[b].0@ == before[b].0@);
                    }
                    assert(self.wf());
                    assert forall|h: Seq<char>|
                        #[trigger] self@.contains_key(h) == old(self)@.insert(hv, vv).contains_key(h) by {
                        if h == hv {
                            assert(0 <= i < after.len() && after[i as int].0@ == h);
                        } else if exists|j: int| 0 <= j < before.len() && before[j].0@ == h {
                            let j = choose|j: int| 0 <= j < before.len() && before[j].0@ == h;
                            assert(0 <= j < after.len() && after[j].0@ == h);
                        } else if exists|j: int| 0 <= j < after.len() && after[j].0@ == h {
                            let j = choose|j: int| 0 <= j < after.len() && after[j].0@ == h;
                            assert(0 <= j < before.len() && before[j].0@ == h);
                        }
                    }
                    assert forall|h: Seq<char>| #[trigger] self@.contains_key(h) implies self@[h]
                        == old(self)@.insert(hv, vv)[h] by {
                        let j = choose|j: int| 0 <= j < after.len() && after[j].0@ == h;
                        self.lemma_view_at(j);
                        if j != i {
                            old(self).lemma_view_at(j);
                        }
                    }
                    assert(self@ =~= old(self)@.insert(hv, vv));
                }
            },
            None => {
                self.entries.push((host, value));
                proof {
                    let after = self.entries@;
                    let n = after.len() - 1;
                    assert(after[n].0@ == hv);
                    assert forall|a: int, b: int| 0 <= a < b < after.len() implies #[trigger] after[a].0@
                        != #[trigger] after[b].0@ by {
                        if b < n {
                            assert(before[a].0@ != before[b].0@);
                        } else {
                            assert(after[a].0@ == before[a].0@);
                            assert(!old(self)@.contains_key(hv));
                        }
                    }
                    assert(self.wf());
                    assert forall|h: Seq<char>|
                        #[trigger] self@.contains_key(h) == old(self)@.insert(hv, vv).contains_key(h) by {
                        if h == hv {
                            assert(0 <= n < after.len() && after[n].0@ == h);
                        } else if exists|j: int| 0 <= j < before.len() && before[j].0@ == h {
                            let j = choose|j: int| 0 <= j < before.len() && before[j].0@ == h;
                            assert(0 <= j < after.len() && after[j].0@ == h);
                        } else if exists|j: int| 0 <= j < after.len() && after[j].0@ == h {
                            let j = choose|j: int| 0 <= j < after.len() && after[j].0@ == h;
                            assert(0 <= j < before.len() && before[j].0@ == h);
                        }
                    }
                    assert forall|h: Seq<char>| #[trigger] self@.contains_key(h) implies self@[h]
                        == old(self)@.insert(hv, vv)[h] by {
                        let j = choose|j: int| 0 <= j < after.len() && after[j].0@ == h;
                        self.lemma_view_at(j);
                        if j != n {
                            old(self).lemma_view_at(j);
                        }
                    }
                    assert(self@ =~= old(self)@.insert(hv, vv));
                }
            },
        }
    }

    /// Records each host and payload of `pairs`, in turn, as a fetched icon.
    pub fn merge_resolved(&mut self, pairs: Vec<(String, String)>)
        requires
            old(self).wf(),
        ensures
            final(self).wf(),
            final(self)@ == recorded(old(self)@, as_resolved(pairs_view(pairs@))),
    {
        let ghost ps = pairs_view(pairs@);
        let ghost start = self@;
        let mut i: usize = 0;
        while i < pairs.len()
            invariant
                self.wf(),
                i <= pairs@.len(),
                ps == pairs_view(pairs@),
                self@ == recorded(start, as_resolved(ps.subrange(0, i as int))),
            decreases pairs@.len() - i,
        {
            let (h, p) = (pairs[i].0.clone(), pairs[i].1.clone());
            self.put(h, Some(p));
            assert(as_resolved(ps.subrange(0, i as int + 1)).drop_last() =~= as_resolved(ps.subrange(0, i as int)));
            i = i + 1;
        }
        assert(ps.subrange(0, pairs@.len() as int) =~= ps);
    }

    /// Merges the icons of a parsed cache file (`None`: not JSON) into the
    /// cache, replacing what was there for the same hosts and keeping every
    /// other entry. A file that is refused leaves the cache as it was.
    pub fn import_document(&mut self, parsed: &Option<JsonValue>) -> (r: Result<(), ImportError>)
        requires
            old(self).wf(),
        ensures
            final(self).wf(),
            match parsed {
                Some(v) => match import_pairs(*v) {
                    Some(ps) => r == Ok::<(), ImportError>(()) && final(self)@ == recorded(old(self)@, as_resolved(ps)),
                    None => r == Err::<(), ImportError>(ImportError::Malformed) && final(self)@ == old(self)@,
                },
                None => r == Err::<(), ImportError>(ImportError::Malformed) && final(self)@ == old(self)@,
            },
    {
        match parsed {
            Some(v) => match import_entries(v) {
                Some(ps) => {
                    self.merge_resolved(ps);
                    Ok(())
                },
                None => Err(ImportError::Malformed),
            },
            None => Err(ImportError::Malformed),
        }
    }

    /// The cache that a parsed cache file gives (`None`: the file was missing
    /// or not JSON).
    pub fn load_document(parsed: &Option<JsonValue>) -> (r: FaviconCache)
        ensures
            r.wf(),
            r@ == loaded(*parsed),
    {
        let mut c = FaviconCache::new();
        match parsed {
            Some(JsonValue::Object(e)) => {
                if crate::transfer::all_str_or_null_exec(e) {
                    let mut i: usize = 0;
                    while i < e.len()
                        invariant
                            c.wf(),
                            i <= e@.len(),
                            c@ == recorded(Map::empty(), native_entries(e@.subrange(0, i as int))),
                        decreases e@.len() - i,
                    {
                        let v = match &e[i].1 {
                            JsonValue::Str(s) => Some(s.clone()),
                            _ => None,
                        };
                        c.put(e[i].0.clone(), v);
                        assert(native_entries(e@.subrange(0, i as int + 1)).drop_last() =~= native_entries(e@.subrange(0, i as int)));
                        i = i + 1;
                    }
                    assert(e@.subrange(0, e@.len() as int) =~= e@);
                    return c;
                }
            },
            _ => {},
        }
        match parsed {
            Some(v) => match import_entries(v) {
                Some(ps) => {
                    c.merge_resolved(ps);
                },
                None => {},
            },
            None => {},
        }
        c
    }

    /// The cache in its own file shape: an object of payloads, with null for
    /// a failure.
    pub fn to_document(&self) -> (r: JsonValue)
        requires
            self.wf(),
        ensures
            r matches JsonValue::Object(e) && all_str_or_null(e@) && recorded(Map::empty(), native_entries(e@)) == self@,
            loaded(Some(r)) == self@,
    {
        let mut e: Vec<(String, JsonValue)> = Vec::new();
        let mut i: usize = 0;
        while i < self.entries.len()
            invariant
                i <= self.entries@.len(),
                all_str_or_null(e@),
                native_entries(e@) == self.entry_views().subrange(0, i as int),
            decreases self.entries@.len() - i,
        {
            let ghost before = e@;
            let v = match &self.entries[i].1 {
                Some(p) => JsonValue::Str(p.clone()),
                None => JsonValue::Null,
            };
            let k = self.entries[i].0.clone();
            assert(match v {
                JsonValue::Str(s) => Some(s@),
                _ => None,
            } == value_view(self.entries@[i as int].1));
            e.push((k, v));
            assert(e@ == before.push((k, v)));
            assert(native_entries(e@) =~= native_entries(before).push(self.entry_views()[i as int]));
            assert(native_entries(e@) =~= self.entry_views().subrange(0, i as int + 1));
            i = i + 1;
        }
        proof {
            assert(self.entry_views().subrange(0, self.entries@.len() as int) =~= self.entry_views());
            self.lemma_view_recorded();
        }
        JsonValue::Object(e)
    }

    /// The fetched icons, with their hosts.
    pub fn resolved_entries(&self) -> (r: Vec<(String, String)>)
        ensures
            pairs_view(r@) == self.resolved_pairs(),
    {
        let mut r: Vec<(String, String)> = Vec::new();
        let mut i: usize = 0;
        while i < self.entries.len()
            invariant
                i <= self.entries@.len(),
                pairs_view(r@) == some_pairs(self.entry_views().subrange(0, i as int)),
            decreases self.entries@.len() - i,
        {
            let ghost pre = self.entry_views().subrange(0, i as int + 1);
            assert(pre.drop_last() =~= self.entry_views().subrange(0, i as int));
            match &self.entries[i].1 {
                Some(p) => {
                    r.push((self.entries[i].0.clone(), p.clone()));
                },
                None => {},
            }
            assert(pairs_view(r@) =~= some_pairs(pre));
            i = i + 1;
        }
        assert(self.entry_views().subrange(0, self.entries@.len() as int) =~= self.entry_views());
        r
    }
}

} // verus!
