//! The interface languages and the order in which their texts are tried.
use vstd::prelude::*;

verus! {

/// The language used where no other is chosen or found.
pub const DEFAULT_LOCALE: &'static str = "zh-CN";

/// The languages that have texts.
pub fn get_supported_locales() -> (r: Vec<String>)
    ensures
        r@.len() == 2,
        r@[0]@ == "en"@,
        r@[1]@ == "zh-CN"@,
{
    let mut r: Vec<String> = Vec::new();
    r.push(String::from_str("en"));
    r.push(String::from_str("zh-CN"));
    r
}

/// The part of `s` before the first `c`; all of `s` where it has none.
pub open spec fn before(s: Seq<char>, c: char) -> Seq<char>
    decreases s.len(),
{
    if s.len() == 0 {
        s
    } else if s[0] == c {
        Seq::empty()
    } else {
        seq![s[0]] + before(s.drop_first(), c)
    }
}

/// The base language of a locale: the part before the first `-`.
pub open spec fn base_language(s: Seq<char>) -> Seq<char> {
    before(s, '-')
}

proof fn lemma_before(s: Seq<char>, c: char, i: int)
    requires
        0 <= i <= s.len(),
        forall|j: int| 0 <= j < i ==> s[j] != c,
        i == s.len() || s[i] == c,
    ensures
        before(s, c) == s.subrange(0, i),
    decreases i,
{
    if i > 0 {
        let t = s.drop_first();
        assert forall|j: int| 0 <= j < i - 1 implies t[j] != c by {
            assert(t[j] == s[j + 1]);
        }
        lemma_before(t, c, i - 1);
        assert(s.subrange(0, i) =~= seq![s[0]] + t.subrange(0, i - 1));
    } else {
        assert(s.subrange(0, 0) =~= Seq::<char>::empty());
    }
}

/// Index of the first `c` in `s`, or its length.
fn find_char(s: &str, c: char) -> (r: usize)
    ensures
        r <= s@.len(),
        forall|j: int| 0 <= j < r ==> s@[j] != c,
        r == s@.len() || s@[r as int] == c,
        before(s@, c) == s@.subrange(0, r as int),
{
    let n = s.unicode_len();
    let mut i: usize = 0;
    while i < n
        invariant
            n == s@.len(),
            i <= n,
            forall|j: int| 0 <= j < i ==> s@[j] != c,
        ensures
            i <= n,
            forall|j: int| 0 <= j < i ==> s@[j] != c,
            i == n || s@[i as int] == c,
        decreases n - i,
    {
        if s.get_char(i) == c {
            break;
        }
        i = i + 1;
    }
    proof {
        lemma_before(s@, c, i as int);
    }
    i
}

/// The languages whose texts are tried for `locale`, in order.
pub open spec fn fallback_chain(locale: Seq<char>) -> Seq<Seq<char>> {
    let with_base = if base_language(locale) != locale {
        seq![locale, base_language(locale)]
    } else {
        seq![locale]
    };
    if locale != DEFAULT_LOCALE@ {
        with_base.push(DEFAULT_LOCALE@)
    } else {
        with_base
    }
}

/// The languages whose texts are tried for `locale`: the language itself,
/// its base language (`zh` for `zh-CN`), then the default language.
pub fn get_locale_fallback_chain(locale: &str) -> (r: Vec<String>)
    ensures
        r@.map_values(|s: String| s@) == fallback_chain(locale@),
{
    let i = find_char(locale, '-');
    let whole = String::from_str(locale);
    let base = String::from_str(locale.substring_char(0, i));
    let default = String::from_str(DEFAULT_LOCALE);
    let mut r: Vec<String> = Vec::new();
    let differs = !(base == whole);
    let not_default = !(whole == default);
    r.push(whole);
    if differs {
        r.push(base);
    }
    if not_default {
        r.push(default);
    }
    assert(r@.map_values(|s: String| s@) =~= fallback_chain(locale@));
    r
}

/// One of the languages that have texts.
pub open spec fn is_supported(s: Seq<char>) -> bool {
    s == "en"@ || s == "zh-CN"@
}

fn supported(s: &String) -> (r: bool)
    ensures
        r == is_supported(s@),
{
    let en = String::from_str("en");
    let zh = String::from_str("zh-CN");
    *s == en || *s == zh
}

/// The pieces of `s` between the separators `c`, in order.
pub open spec fn segments(s: Seq<char>, c: char) -> Seq<Seq<char>>
    decreases s.len(),
{
    let head = before(s, c);
    if head.len() >= s.len() {
        seq![s]
    } else {
        seq![head] + segments(s.subrange(head.len() + 1int, s.len() as int), c)
    }
}

/// The supported language that one entry of a language variable names
/// (`zh_CN.UTF-8` names `zh-CN`): the entry without its encoding, `_` read
/// as `-`, or else its base language.
pub open spec fn entry_locale(entry: Seq<char>) -> Option<Seq<char>> {
    let name = crate::config::replaced(before(entry, '.'), "_"@, "-"@);
    if is_supported(name) {
        Some(name)
    } else if is_supported(base_language(name)) {
        Some(base_language(name))
    } else {
        None
    }
}

/// The first entry of `entries` that names a supported language.
pub open spec fn first_supported(entries: Seq<Seq<char>>) -> Option<Seq<char>>
    decreases entries.len(),
{
    if entries.len() == 0 {
        None
    } else if entry_locale(entries[0]) is Some {
        entry_locale(entries[0])
    } else {
        first_supported(entries.drop_first())
    }
}

/// The supported language named by one entry of a language variable.
pub fn locale_of_entry(entry: &str) -> (r: Option<String>)
    ensures
        match r {
            Some(l) => entry_locale(entry@) == Some(l@),
            None => entry_locale(entry@) == None::<Seq<char>>,
        },
{
    let dot = find_char(entry, '.');
    proof {
        reveal_strlit("_");
    }
    let name = crate::config::replace_all(entry.substring_char(0, dot), "_", "-");
    if supported(&name) {
        return Some(name);
    }
    let dash = find_char(name.as_str(), '-');
    let base = String::from_str(name.as_str().substring_char(0, dash));
    if supported(&base) {
        Some(base)
    } else {
        None
    }
}

/// The supported language that a language variable such as
/// `LANGUAGE=zh_CN.UTF-8:en_US:en` asks for first, if any.
pub fn match_supported_locale(value: &str) -> (r: Option<String>)
    ensures
        match r {
            Some(l) => first_supported(segments(value@, ':')) == Some(l@),
            None => first_supported(segments(value@, ':')) == None::<Seq<char>>,
        },
{
    let mut rest: &str = value;
    loop
        invariant
            first_supported(segments(value@, ':')) == first_supported(segments(rest@, ':')),
        decreases rest@.len(),
    {
        let n = rest.unicode_len();
        let i = find_char(rest, ':');
        let entry = rest.substring_char(0, i);
        let found = locale_of_entry(entry);
        assert(segments(rest@, ':')[0] == entry@);
        if found.is_some() {
            return found;
        }
        if i == n {
            assert(entry@ =~= rest@);
            assert(segments(rest@, ':') =~= seq![rest@]);
            assert(seq![rest@].drop_first() =~= Seq::<Seq<char>>::empty());
            assert(entry_locale(rest@) is None);
            assert(first_supported(Seq::<Seq<char>>::empty()) is None);
            assert(first_supported(seq![rest@]) == first_supported(seq![rest@].drop_first()));
            return None;
        }
        let next = rest.substring_char(i + 1, n);
        assert(segments(rest@, ':').drop_first() =~= segments(next@, ':'));
        rest = next;
    }
}

} // verus!
