//! Import and export of the icon cache, in the portable document shape
//! `{"favicon_urls": {host: payload}}` and in older shapes.
use vstd::prelude::*;
use crate::json::{JsonValue, member, str_member, get_member, get_str_member};
use crate::cache::{FaviconCache, recorded, as_resolved, resolved_part, lemma_some_pairs_recorded};

verus! {

/// The member of an exported document that holds the icons.
pub const EXPORT_KEY: &'static str = "favicon_urls";

/// Host and payload pairs, viewed.
pub open spec fn pairs_view(v: Seq<(String, String)>) -> Seq<(Seq<char>, Seq<char>)> {
    v.map_values(|p: (String, String)| (p.0@, p.1@))
}

/// Every member is a string.
pub open spec fn all_str(e: Seq<(String, JsonValue)>) -> bool {
    forall|i: int| 0 <= i < e.len() ==> #[trigger] e[i].1 is Str
}

/// Every member is a string or null.
pub open spec fn all_str_or_null(e: Seq<(String, JsonValue)>) -> bool {
    forall|i: int| 0 <= i < e.len() ==> (#[trigger] e[i].1 is Str || e[i].1 is Null)
}

/// The string members, in order, as host and payload.
pub open spec fn str_pairs(e: Seq<(String, JsonValue)>) -> Seq<(Seq<char>, Seq<char>)>
    decreases e.len(),
{
    if e.len() == 0 {
        Seq::empty()
    } else {
        let before = str_pairs(e.drop_last());
        match e.last().1 {
            JsonValue::Str(s) => before.push((e.last().0@, s@)),
            _ => before,
        }
    }
}

/// The payload inside an object that describes one icon: the first of the
/// members `url`, `favicon`, `icon` and `data` that is a string.
pub open spec fn probe(o: Seq<(String, JsonValue)>) -> Option<Seq<char>> {
    if str_member(o, "url"@) is Some {
        str_member(o, "url"@)
    } else if str_member(o, "favicon"@) is Some {
        str_member(o, "favicon"@)
    } else if str_member(o, "icon"@) is Some {
        str_member(o, "icon"@)
    } else {
        str_member(o, "data"@)
    }
}

/// The pairs of an object of any shape: a string member is a payload, an
/// object member gives the payload that `probe` finds in it, others are
/// passed over.
pub open spec fn generic_pairs(e: Seq<(String, JsonValue)>) -> Seq<(Seq<char>, Seq<char>)>
    decreases e.len(),
{
    if e.len() == 0 {
        Seq::empty()
    } else {
        let before = generic_pairs(e.drop_last());
        match e.last().1 {
            JsonValue::Str(s) => before.push((e.last().0@, s@)),
            JsonValue::Object(o) => match probe(o@) {
                Some(p) => before.push((e.last().0@, p)),
                None => before,
            },
            _ => before,
        }
    }
}

/// The members of the `favicon_urls` object of a document, if it has one.
pub open spec fn exported_members(e: Seq<(String, JsonValue)>) -> Option<Seq<(String, JsonValue)>> {
    match member(e, EXPORT_KEY@) {
        Some(JsonValue::Object(f)) => Some(f@),
        _ => None,
    }
}

/// The pairs that a cache file yields, trying its shapes in a fixed order:
/// an exported document, whose `favicon_urls` object gives its string
/// members (an object of any other shape that has a `favicon_urls` object
/// gives the same); a map of payloads and nulls (the cache's own shape,
/// nulls dropped), which takes in a flat map of payloads; then any other
/// object. Anything but an object is refused.
pub open spec fn import_pairs(v: JsonValue) -> Option<Seq<(Seq<char>, Seq<char>)>> {
    match v {
        JsonValue::Object(e) => match exported_members(e@) {
            Some(f) => Some(str_pairs(f)),
            None => if all_str_or_null(e@) {
                Some(str_pairs(e@))
            } else {
                Some(generic_pairs(e@))
            },
        },
        _ => None,
    }
}

/// Whether a parsed file is accepted as a cache file: exactly when it can be
/// imported, that is when it is an object.
pub open spec fn document_accepted(v: JsonValue) -> bool {
    import_pairs(v) is Some
}

/// Why a cache file was refused.
#[derive(Clone, Copy, Debug, PartialEq, Eq)]
pub enum ImportError {
    /// The text is not JSON, or the JSON is not an object.
    Malformed,
    /// The JSON has none of the accepted shapes.
    UnknownFormat,
}

pub(crate) fn all_str_or_null_exec(e: &Vec<(String, JsonValue)>) -> (r: bool)
    ensures
        r == all_str_or_null(e@),
{
    let mut i: usize = 0;
    while i < e.len()
        invariant
            i <= e@.len(),
            forall|j: int| 0 <= j < i ==> (#[trigger] e@[j].1 is Str || e@[j].1 is Null),
        decreases e@.len() - i,
    {
        match &e[i].1 {
            JsonValue::Str(_) => {},
            JsonValue::Null => {},
            _ => {
                return false;
            },
        }
        i = i + 1;
    }
    true
}

fn str_pairs_exec(e: &Vec<(String, JsonValue)>) -> (r: Vec<(String, String)>)
    ensures
        pairs_view(r@) == str_pairs(e@),
{
    let mut r: Vec<(String, String)> = Vec::new();
    let mut i: usize = 0;
    while i < e.len()
        invariant
            i <= e@.len(),
            pairs_view(r@) == str_pairs(e@.subrange(0, i as int)),
        decreases e@.len() - i,
    {
        let ghost pre = e@.subrange(0, i as int + 1);
        assert(pre.drop_last() =~= e@.subrange(0, i as int));
        match &e[i].1 {
            JsonValue::Str(s) => {
                r.push((e[i].0.clone(), s.clone()));
            },
            _ => {},
        }
        assert(pairs_view(r@) =~= str_pairs(pre));
        i = i + 1;
    }
    assert(e@.subrange(0, e@.len() as int) =~= e@);
    r
}

fn probe_exec(o: &Vec<(String, JsonValue)>) -> (r: Option<String>)
    ensures
        match r {
            Some(p) => probe(o@) == Some(p@),
            None => probe(o@) == None::<Seq<char>>,
        },
{
    let url = String::from_str("url");
    let favicon = String::from_str("favicon");
    let icon = String::from_str("icon");
    let data = String::from_str("data");
    if let Some(s) = get_str_member(o, &url) {
        return Some(s.clone());
    }
    if let Some(s) = get_str_member(o, &favicon) {
        return Some(s.clone());
    }
    if let Some(s) = get_str_member(o, &icon) {
        return Some(s.clone());
    }
    match get_str_member(o, &data) {
        Some(s) => Some(s.clone()),
        None => None,
    }
}

fn generic_pairs_exec(e: &Vec<(String, JsonValue)>) -> (r: Vec<(String, String)>)
    ensures
        pairs_view(r@) == generic_pairs(e@),
{
    let mut r: Vec<(String, String)> = Vec::new();
    let mut i: usize = 0;
    while i < e.len()
        invariant
            i <= e@.len(),
            pairs_view(r@) == generic_pairs(e@.subrange(0, i as int)),
        decreases e@.len() - i,
    {
        let ghost pre = e@.subrange(0, i as int + 1);
        assert(pre.drop_last() =~= e@.subrange(0, i as int));
        match &e[i].1 {
            JsonValue::Str(s) => {
                r.push((e[i].0.clone(), s.clone()));
            },
            JsonValue::Object(o) => {
                match probe_exec(o) {
                    Some(p) => {
                        r.push((e[i].0.clone(), p));
                    },
                    None => {},
                }
            },
            _ => {},
        }
        assert(pairs_view(r@) =~= generic_pairs(pre));
        i = i + 1;
    }
    assert(e@.subrange(0, e@.len() as int) =~= e@);
    r
}

/// The host and payload pairs that a parsed cache file yields, in order.
pub fn import_entries(v: &JsonValue) -> (r: Option<Vec<(String, String)>>)
    ensures
        match r {
            Some(ps) => import_pairs(*v) == Some(pairs_view(ps@)),
            None => import_pairs(*v) == None::<Seq<(Seq<char>, Seq<char>)>>,
        },
{
    match v {
        JsonValue::Object(e) => {
            let key = String::from_str(EXPORT_KEY);
            match get_member(e, &key) {
                Some(JsonValue::Object(f)) => Some(str_pairs_exec(f)),
                _ => {
                    if all_str_or_null_exec(e) {
                        Some(str_pairs_exec(e))
                    } else {
                        Some(generic_pairs_exec(e))
                    }
                },
            }
        },
        _ => None,
    }
}

/// The portable shape of the cache: the fetched icons only.
pub struct CacheData {
    pub favicon_urls: Vec<(String, String)>,
}

/// The outcome of an import or export, for display.
#[derive(Clone, Debug)]
pub struct ExportResult {
    pub success: bool,
    pub message: String,
}

/// `doc` is the exported document `{"favicon_urls": {...}}` of the pairs `ps`.
pub open spec fn is_export_of(doc: JsonValue, ps: Seq<(Seq<char>, Seq<char>)>) -> bool {
    &&& doc matches JsonValue::Object(e)
    &&& e@.len() == 1
    &&& e@[0].0@ == EXPORT_KEY@
    &&& e@[0].1 matches JsonValue::Object(f)
    &&& all_str(f@)
    &&& str_pairs(f@) == ps
}

impl CacheData {
    /// The fetched icons of a cache; failures are left out.
    pub fn from_cache(cache: &FaviconCache) -> (r: CacheData)
        requires
            cache.wf(),
        ensures
            pairs_view(r.favicon_urls@) == cache.resolved_pairs(),
    {
        CacheData { favicon_urls: cache.resolved_entries() }
    }

    /// Checks that a parsed file can be imported: it must be a JSON object.
    /// `None` stands for text that is not JSON.
    pub fn validate_file(parsed: &Option<JsonValue>) -> (r: Result<(), ImportError>)
        ensures
            match parsed {
                None => r == Err::<(), ImportError>(ImportError::Malformed),
                Some(v) => if document_accepted(*v) {
                    r == Ok::<(), ImportError>(())
                } else {
                    r == Err::<(), ImportError>(ImportError::UnknownFormat)
                },
            },
    {
        match parsed {
            None => Err(ImportError::Malformed),
            Some(JsonValue::Object(_)) => Ok(()),
            Some(_) => Err(ImportError::UnknownFormat),
        }
    }

    /// The exported document of these icons.
    pub fn to_document(&self) -> (r: JsonValue)
        ensures
            is_export_of(r, pairs_view(self.favicon_urls@)),
    {
        let mut f: Vec<(String, JsonValue)> = Vec::new();
        let mut i: usize = 0;
        while i < self.favicon_urls.len()
            invariant
                i <= self.favicon_urls@.len(),
                f@.len() == i,
                all_str(f@),
                str_pairs(f@) == pairs_view(self.favicon_urls@.subrange(0, i as int)),
            decreases self.favicon_urls@.len() - i,
        {
            let (k, v) = (self.favicon_urls[i].0.clone(), self.favicon_urls[i].1.clone());
            let ghost before = f@;
            f.push((k, JsonValue::Str(v)));
            assert(f@.drop_last() =~= before);
            assert(pairs_view(self.favicon_urls@.subrange(0, i as int + 1)) =~= pairs_view(
                self.favicon_urls@.subrange(0, i as int),
            ).push((k@, v@)));
            i = i + 1;
        }
        assert(self.favicon_urls@.subrange(0, self.favicon_urls@.len() as int) =~= self.favicon_urls@);
        let mut e: Vec<(String, JsonValue)> = Vec::new();
        e.push((String::from_str(EXPORT_KEY), JsonValue::Object(f)));
        JsonValue::Object(e)
    }
}

/// Exporting a cache and importing the document into an empty cache gives
/// back exactly the fetched icons of the cache.
pub proof fn lemma_export_import_round_trip(cache: FaviconCache, doc: JsonValue)
    requires
        cache.wf(),
        is_export_of(doc, cache.resolved_pairs()),
    ensures
        import_pairs(doc) == Some(cache.resolved_pairs()),
        recorded(Map::empty(), as_resolved(cache.resolved_pairs())) == resolved_part(cache@),
{
    if let JsonValue::Object(e) = doc {
        assert(member(e@, EXPORT_KEY@) == Some(e@[0].1));
    }
    cache.lemma_view_recorded();
    lemma_some_pairs_recorded(cache.entry_views());
}

} // verus!
