//! JSON values, as HTTP responses carry them: lookup along a path, and text.
use vstd::prelude::*;
use crate::text::{chars_of, chars_equal, digit_char, parse_unsigned, parse_unsigned_text};

verus! {

/// A JSON value. Numbers keep their JSON text; objects keep their members in order.
#[derive(Debug)]
pub enum JsonValue {
    Null,
    Bool(bool),
    Number(String),
    Str(String),
    Array(Vec<JsonValue>),
    Object(Vec<(String, JsonValue)>),
}

/// The index of the first member with key `key`.
pub open spec fn member_index(m: Seq<(String, JsonValue)>, key: Seq<char>) -> Option<int>
    decreases m.len(),
{
    if m.len() == 0 {
        None
    } else if m[0].0@ == key {
        Some(0)
    } else {
        match member_index(m.drop_first(), key) {
            Some(i) => Some(i + 1),
            None => None,
        }
    }
}

/// One step down from `v` along `seg`: an object's member with that key, or an array's
/// item at that position (a decimal index, as `str::parse::<usize>` reads it).
pub open spec fn child(v: JsonValue, seg: Seq<char>) -> Option<JsonValue> {
    match v {
        JsonValue::Object(m) => match member_index(m@, seg) {
            Some(i) => Some(m@[i].1),
            None => None,
        },
        JsonValue::Array(items) => match parse_unsigned(seg, usize::MAX as nat) {
            Some(k) => if k < items@.len() {
                Some(items@[k as int])
            } else {
                None
            },
            None => None,
        },
        _ => None,
    }
}

/// The value found by following `path` down from `v`.
pub open spec fn nested(v: JsonValue, path: Seq<Seq<char>>) -> Option<JsonValue>
    decreases path.len(),
{
    if path.len() == 0 {
        Some(v)
    } else {
        match child(v, path[0]) {
            Some(w) => nested(w, path.drop_first()),
            None => None,
        }
    }
}

/// How JSON text writes the character `c` inside a string.
pub open spec fn escape_char(c: char) -> Seq<char> {
    if c == '"' {
        seq!['\\', '"']
    } else if c == '\\' {
        seq!['\\', '\\']
    } else if c == '\n' {
        seq!['\\', 'n']
    } else if c == '\r' {
        seq!['\\', 'r']
    } else if c == '\t' {
        seq!['\\', 't']
    } else if c == '\u{8}' {
        seq!['\\', 'b']
    } else if c == '\u{c}' {
        seq!['\\', 'f']
    } else if (c as u32) < 0x20 {
        seq!['\\', 'u', '0', '0', digit_char((c as u32 / 16) as nat), digit_char((c as u32 % 16) as nat)]
    } else {
        seq![c]
    }
}

/// The characters of `s`, escaped for a JSON string.
pub open spec fn escaped(s: Seq<char>) -> Seq<char>
    decreases s.len(),
{
    if s.len() == 0 {
        seq![]
    } else {
        escaped(s.drop_last()) + escape_char(s.last())
    }
}

/// `s` as a JSON string literal.
pub open spec fn quoted(s: Seq<char>) -> Seq<char> {
    seq!['"'] + escaped(s) + seq!['"']
}

/// The compact JSON text of `v` (no spaces; members in their order).
pub open spec fn render(v: JsonValue) -> Seq<char>
    decreases v, 0nat,
{
    match v {
        JsonValue::Null => seq!['n', 'u', 'l', 'l'],
        JsonValue::Bool(b) => if b {
            seq!['t', 'r', 'u', 'e']
        } else {
            seq!['f', 'a', 'l', 's', 'e']
        },
        JsonValue::Number(t) => t@,
        JsonValue::Str(t) => quoted(t@),
        JsonValue::Array(items) => {
            proof {
                assert(decreases_to!(v => v->Array_0));
                assert(decreases_to!(v->Array_0 => v->Array_0@));
            }
            seq!['['] + render_items(items@) + seq![']']
        },
        JsonValue::Object(m) => {
            proof {
                assert(decreases_to!(v => v->Object_0));
                assert(decreases_to!(v->Object_0 => v->Object_0@));
            }
            seq!['{'] + render_members(m@) + seq!['}']
        },
    }
}

/// Array items, comma-separated.
pub open spec fn render_items(s: Seq<JsonValue>) -> Seq<char>
    decreases s, 1nat,
{
    if s.len() == 0 {
        seq![]
    } else {
        proof {
            assert(decreases_to!(s => s.drop_last()));
            assert(decreases_to!(s => s[s.len() - 1]));
        }
        if s.len() == 1 {
            render(s[0])
        } else {
            render_items(s.drop_last()) + seq![','] + render(s[s.len() - 1])
        }
    }
}

/// Object members, as `"key":value`, comma-separated.
pub open spec fn render_members(m: Seq<(String, JsonValue)>) -> Seq<char>
    decreases m, 1nat,
{
    if m.len() == 0 {
        seq![]
    } else {
        proof {
            assert(decreases_to!(m => m.drop_last()));
            assert(decreases_to!(m => m[m.len() - 1]));
            assert(decreases_to!(m[m.len() - 1] => m[m.len() - 1].1));
        }
        let last = quoted(m[m.len() - 1].0@) + seq![':'] + render(m[m.len() - 1].1);
        if m.len() == 1 {
            last
        } else {
            render_members(m.drop_last()) + seq![','] + last
        }
    }
}

/// The text of a value: a string's own characters, otherwise its JSON text.
pub open spec fn text_of_value(v: JsonValue) -> Seq<char> {
    match v {
        JsonValue::Str(s) => s@,
        _ => render(v),
    }
}

fn push_all(out: &mut String, cs: &[char])
    ensures
        final(out)@ == old(out)@ + cs@,
{
    let mut i: usize = 0;
    while i < cs.len()
        invariant
            i <= cs@.len(),
            out@ == old(out)@ + cs@.take(i as int),
        decreases cs@.len() - i,
    {
        out.push(cs[i]);
        i += 1;
        assert(cs@.take(i as int) == cs@.take(i - 1).push(cs@[i - 1]));
    }
    assert(cs@.take(cs@.len() as int) == cs@);
}

fn hex_digit(d: u32) -> (c: char)
    requires
        d < 16,
    ensures
        c == digit_char(d as nat),
{
    if d == 0 { '0' } else if d == 1 { '1' } else if d == 2 { '2' } else if d == 3 { '3' }
    else if d == 4 { '4' } else if d == 5 { '5' } else if d == 6 { '6' } else if d == 7 { '7' }
    else if d == 8 { '8' } else if d == 9 { '9' } else if d == 10 { 'a' } else if d == 11 { 'b' }
    else if d == 12 { 'c' } else if d == 13 { 'd' } else if d == 14 { 'e' } else { 'f' }
}

fn push_escaped_char(out: &mut String, c: char)
    ensures
        final(out)@ == old(out)@ + escape_char(c),
{
    if c == '"' {
        push_all(out, &['\\', '"']);
    } else if c == '\\' {
        push_all(out, &['\\', '\\']);
    } else if c == '\n' {
        push_all(out, &['\\', 'n']);
    } else if c == '\r' {
        push_all(out, &['\\', 'r']);
    } else if c == '\t' {
        push_all(out, &['\\', 't']);
    } else if c == '\u{8}' {
        push_all(out, &['\\', 'b']);
    } else if c == '\u{c}' {
        push_all(out, &['\\', 'f']);
    } else if (c as u32) < 0x20 {
        let code = c as u32;
        push_all(out, &['\\', 'u', '0', '0', hex_digit(code / 16), hex_digit(code % 16)]);
    } else {
        out.push(c);
    }
}

fn push_quoted(out: &mut String, s: &str)
    ensures
        final(out)@ == old(out)@ + quoted(s@),
{
    let cs = chars_of(s);
    out.push('"');
    let ghost start = out@;
    let mut i: usize = 0;
    while i < cs.len()
        invariant
            i <= cs@.len(),
            out@ == start + escaped(cs@.take(i as int)),
        decreases cs@.len() - i,
    {
        assert(cs@.take(i + 1).drop_last() == cs@.take(i as int));
        push_escaped_char(out, cs[i]);
        i += 1;
    }
    assert(cs@.take(cs@.len() as int) == cs@);
    out.push('"');
    assert(out@ == old(out)@ + quoted(s@));
}

/// Appends the compact JSON text of `v` to `out`.
fn push_rendered(out: &mut String, v: &JsonValue)
    ensures
        final(out)@ == old(out)@ + render(*v),
    decreases v,
{
    match v {
        JsonValue::Null => push_all(out, &['n', 'u', 'l', 'l']),
        JsonValue::Bool(b) => if *b {
            push_all(out, &['t', 'r', 'u', 'e']);
        } else {
            push_all(out, &['f', 'a', 'l', 's', 'e']);
        },
        JsonValue::Number(t) => {
            let cs = chars_of(t.as_str());
            push_all(out, cs.as_slice());
        },
        JsonValue::Str(t) => push_quoted(out, t.as_str()),
        JsonValue::Array(items) => {
            out.push('[');
            let ghost start = out@;
            let mut i: usize = 0;
            while i < items.len()
                invariant
                    i <= items@.len(),
                    *v == JsonValue::Array(*items),
                    out@ == start + render_items(items@.take(i as int)),
                decreases items@.len() - i,
            {
                proof {
                    assert(decreases_to!(*v => (*v)->Array_0));
                    assert((*v)->Array_0 == *items);
                    assert(decreases_to!(*items => items@));
                    assert(decreases_to!(items@ => items@[i as int]));
                    let t = items@.take(i + 1);
                    assert(t.drop_last() == items@.take(i as int));
                    assert(t[t.len() - 1] == items@[i as int]);
                    if i == 0 {
                        assert(t.len() == 1 && t[0] == items@[0]);
                    }
                }
                if i > 0 {
                    out.push(',');
                }
                push_rendered(out, &items[i]);
                i += 1;
            }
            assert(items@.take(items@.len() as int) == items@);
            out.push(']');
        },
        JsonValue::Object(members) => {
            out.push('{');
            let ghost start = out@;
            let mut i: usize = 0;
            while i < members.len()
                invariant
                    i <= members@.len(),
                    *v == JsonValue::Object(*members),
                    out@ == start + render_members(members@.take(i as int)),
                decreases members@.len() - i,
            {
                proof {
                    assert(decreases_to!(*v => (*v)->Object_0));
                    assert((*v)->Object_0 == *members);
                    assert(decreases_to!(*members => members@));
                    assert(decreases_to!(members@ => members@[i as int]));
                    assert(decreases_to!(members@[i as int] => members@[i as int].1));
                    let t = members@.take(i + 1);
                    assert(t.drop_last() == members@.take(i as int));
                    assert(t[t.len() - 1] == members@[i as int]);
                    if i == 0 {
                        assert(t.len() == 1 && t[0] == members@[0]);
                    }
                }
                if i > 0 {
                    out.push(',');
                }
                push_quoted(out, members[i].0.as_str());
                out.push(':');
                push_rendered(out, &members[i].1);
                i += 1;
            }
            assert(members@.take(members@.len() as int) == members@);
            out.push('}');
        },
    }
}

/// The compact JSON text of `v`.
pub fn render_json(v: &JsonValue) -> (s: String)
    ensures
        s@ == render(*v),
{
    let mut s = String::new();
    push_rendered(&mut s, v);
    s
}

/// The text of a value: a string's own characters, otherwise its compact JSON text.
pub fn value_text(v: &JsonValue) -> (s: String)
    ensures
        s@ == text_of_value(*v),
{
    match v {
        JsonValue::Str(t) => t.clone(),
        _ => render_json(v),
    }
}

/// One step down from `v` along `seg`.
pub fn child_of<'a>(v: &'a JsonValue, seg: &[char]) -> (r: Option<&'a JsonValue>)
    ensures
        match child(*v, seg@) {
            Some(w) => r == Some(&w),
            None => r is None,
        },
{
    match v {
        JsonValue::Object(m) => {
            let mut i: usize = 0;
            while i < m.len()
                invariant
                    i <= m@.len(),
                    *v == JsonValue::Object(*m),
                    forall|k: int| 0 <= k < i ==> #[trigger] m@[k].0@ != seg@,
                decreases m@.len() - i,
            {
                let key = chars_of(m[i].0.as_str());
                if chars_equal(key.as_slice(), seg) {
                    proof {
                        lemma_member_index_first(m@, seg@, i as int);
                    }
                    return Some(&m[i].1);
                }
                i += 1;
            }
            proof {
                lemma_member_index_absent(m@, seg@);
            }
            None
        },
        JsonValue::Array(items) => {
            match parse_unsigned_text(seg, usize::MAX as u64) {
                Some(k) => {
                    if k < items.len() as u64 {
                        Some(&items[k as usize])
                    } else {
                        None
                    }
                },
                None => None,
            }
        },
        _ => None,
    }
}

proof fn lemma_member_index_first(m: Seq<(String, JsonValue)>, key: Seq<char>, i: int)
    requires
        0 <= i < m.len(),
        m[i].0@ == key,
        forall|k: int| 0 <= k < i ==> #[trigger] m[k].0@ != key,
    ensures
        member_index(m, key) == Some(i),
    decreases i,
{
    if i > 0 {
        assert forall|k: int| 0 <= k < i - 1 implies #[trigger] m.drop_first()[k].0@ != key by {
            assert(m.drop_first()[k] == m[k + 1]);
        }
        lemma_member_index_first(m.drop_first(), key, i - 1);
    }
}

proof fn lemma_member_index_absent(m: Seq<(String, JsonValue)>, key: Seq<char>)
    requires
        forall|k: int| 0 <= k < m.len() ==> #[trigger] m[k].0@ != key,
    ensures
        member_index(m, key) is None,
    decreases m.len(),
{
    if m.len() > 0 {
        assert forall|k: int| 0 <= k < m.len() - 1 implies #[trigger] m.drop_first()[k].0@ != key by {
            assert(m.drop_first()[k] == m[k + 1]);
        }
        lemma_member_index_absent(m.drop_first(), key);
    }
}

/// The value found by following `path` down from `v`: object members by key, array items by
/// decimal index.
pub fn nested_value<'a>(v: &'a JsonValue, path: &[Vec<char>]) -> (r: Option<&'a JsonValue>)
    ensures
        match nested(*v, path@.map_values(|p: Vec<char>| p@)) {
            Some(w) => r == Some(&w),
            None => r is None,
        },
{
    let ghost p = path@.map_values(|q: Vec<char>| q@);
    let mut cur: &JsonValue = v;
    let mut i: usize = 0;
    assert(p.skip(0) == p);
    while i < path.len()
        invariant
            i <= path@.len(),
            p == path@.map_values(|q: Vec<char>| q@),
            nested(*v, p) == nested(*cur, p.skip(i as int)),
        decreases path@.len() - i,
    {
        assert(p.skip(i as int)[0] == path@[i as int]@);
        assert(p.skip(i as int).drop_first() == p.skip(i + 1));
        match child_of(cur, path[i].as_slice()) {
            Some(w) => {
                cur = w;
            },
            None => {
                return None;
            },
        }
        i += 1;
    }
    assert(p.skip(path@.len() as int).len() == 0);
    Some(cur)
}

} // verus!
