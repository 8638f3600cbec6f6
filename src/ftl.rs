//! Turning a tree of translated texts into Fluent messages.
use vstd::prelude::*;
use crate::config::{replaced, replace_all};
use crate::json::JsonValue;

verus! {

/// A character allowed in a message name.
pub open spec fn is_name_char(c: char) -> bool {
    ('a' <= c && c <= 'z') || ('A' <= c && c <= 'Z') || ('0' <= c && c <= '9') || c == '_' || c == '-'
}

/// `key` with each character not allowed in a message name replaced by `_`.
pub open spec fn sanitized(key: Seq<char>) -> Seq<char> {
    key.map_values(|c: char| if is_name_char(c) { c } else { '_' })
}

/// The name of the member `key` under the name `prefix`.
pub open spec fn member_name(prefix: Seq<char>, key: Seq<char>) -> Seq<char> {
    if prefix.len() == 0 {
        sanitized(key)
    } else {
        prefix + "."@ + sanitized(key)
    }
}

/// A text with its `%{name}` placeholders written as `{ $name }`.
pub open spec fn ftl_value(s: Seq<char>) -> Seq<char> {
    replaced(replaced(s, "%{"@, "{ $"@), "}"@, " }"@)
}

/// The messages of a tree under the name `prefix`: one line `name = text`
/// per string, members in order, the member `_version` left out.
pub open spec fn ftl_of(v: JsonValue, prefix: Seq<char>) -> Seq<char>
    decreases v,
{
    match v {
        JsonValue::Object(e) => ftl_of_members(e@, prefix),
        JsonValue::Str(s) => prefix + " = "@ + ftl_value(s@) + "\n"@,
        _ => Seq::empty(),
    }
}

pub open spec fn ftl_of_members(e: Seq<(String, JsonValue)>, prefix: Seq<char>) -> Seq<char>
    decreases e,
{
    if e.len() == 0 {
        Seq::empty()
    } else {
        let init = e.subrange(0, e.len() - 1);
        let last = e[e.len() - 1];
        let before = ftl_of_members(init, prefix);
        if last.0@ == "_version"@ {
            before
        } else {
            before + ftl_of(last.1, member_name(prefix, last.0@))
        }
    }
}

fn is_name_char_exec(c: char) -> (r: bool)
    ensures
        r == is_name_char(c),
{
    ('a' <= c && c <= 'z') || ('A' <= c && c <= 'Z') || ('0' <= c && c <= '9') || c == '_' || c == '-'
}

/// Appends `key` to `out`, each character not allowed in a message name
/// replaced by `_`.
fn append_sanitized(out: &mut String, key: &str)
    ensures
        final(out)@ == old(out)@ + sanitized(key@),
{
    let ghost start = out@;
    let n = key.unicode_len();
    let mut i: usize = 0;
    while i < n
        invariant
            n == key@.len(),
            i <= n,
            out@ == start + sanitized(key@.subrange(0, i as int)),
        decreases n - i,
    {
        let c = key.get_char(i);
        assert(key@.subrange(i as int, i as int + 1) =~= seq![c]);
        assert(sanitized(seq![c]) =~= seq![if is_name_char(c) { c } else { '_' }]);
        let ghost before = out@;
        if is_name_char_exec(c) {
            out.append(key.substring_char(i, i + 1));
        } else {
            out.append("_");
            proof {
                reveal_strlit("_");
            }
            assert("_"@ =~= seq!['_']);
        }
        assert(out@ == before + sanitized(seq![c]));
        assert(sanitized(key@.subrange(0, i as int + 1)) =~= sanitized(key@.subrange(0, i as int)) + sanitized(
            key@.subrange(i as int, i as int + 1),
        ));
        i = i + 1;
    }
    assert(key@.subrange(0, n as int) =~= key@);
}

/// Appends to `output` the Fluent messages of a tree of translated texts,
/// named under `prefix`.
pub fn convert_yaml_to_ftl(data: &JsonValue, prefix: &str, output: &mut String)
    ensures
        final(output)@ == old(output)@ + ftl_of(*data, prefix@),
    decreases data,
{
    proof {
        reveal_strlit("%{");
        reveal_strlit("}");
    }
    match data {
        JsonValue::Object(map) => {
            let ghost start = output@;
            let version = String::from_str("_version");
            let mut i: usize = 0;
            while i < map.len()
                invariant
                    i <= map@.len(),
                    *data == JsonValue::Object(*map),
                    version@ == "_version"@,
                    output@ == start + ftl_of_members(map@.subrange(0, i as int), prefix@),
                decreases map@.len() - i,
            {
                let ghost sub = map@.subrange(0, i as int + 1);
                assert(sub.subrange(0, sub.len() - 1) =~= map@.subrange(0, i as int));
                assert(sub[sub.len() - 1] == map@[i as int]);
                if !(map[i].0 == version) {
                    let mut name = String::new();
                    if prefix.unicode_len() != 0 {
                        name.append(prefix);
                        name.append(".");
                    }
                    append_sanitized(&mut name, map[i].0.as_str());
                    proof {
                        vstd::std_specs::vec::axiom_vec_index_decreases(*map, i as int);
                        assert(decreases_to!(*data => (*data)->Object_0));
                        assert((*data)->Object_0 == *map);
                        assert(decreases_to!(map@[i as int] => map@[i as int].1));
                    }
                    convert_yaml_to_ftl(&map[i].1, name.as_str(), output);
                }
                i = i + 1;
            }
            assert(map@.subrange(0, map@.len() as int) =~= map@);
        },
        JsonValue::Str(s) => {
            let a = replace_all(s.as_str(), "%{", "{ $");
            let b = replace_all(a.as_str(), "}", " }");
            output.append(prefix);
            output.append(" = ");
            output.append(b.as_str());
            output.append("\n");
        },
        _ => {},
    }
}

} // verus!
