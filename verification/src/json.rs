//! A JSON document as plain values, and the few accessors the library's
//! readers of JSON use.  Parsing is `serde_json`'s; objects keep the keys in
//! the order `serde_json` iterates its map.
use vstd::prelude::*;

use crate::text::{chars_of, eq_lit};

verus! {

/// A JSON value.
#[derive(Debug)]
pub enum JsonValue {
    Null,
    Bool(bool),
    /// A number: its JSON text, and its value when it is an integer that fits
    /// an `i64`.
    Number(String, Option<i64>),
    Str(String),
    Array(Vec<JsonValue>),
    /// An object's entries, each key once.
    Object(Vec<(String, JsonValue)>),
}

pub enum JsonV {
    Null,
    Bool(bool),
    Number(Seq<char>, Option<i64>),
    Str(Seq<char>),
    Array(Seq<JsonV>),
    Object(Seq<(Seq<char>, JsonV)>),
}

pub open spec fn json_view(v: JsonValue) -> JsonV
    decreases v,
{
    match v {
        JsonValue::Null => JsonV::Null,
        JsonValue::Bool(b) => JsonV::Bool(b),
        JsonValue::Number(t, i) => JsonV::Number(t@, i),
        JsonValue::Str(s) => JsonV::Str(s@),
        JsonValue::Array(a) => JsonV::Array(
            Seq::new(
                a@.len(),
                |i: int|
                    if 0 <= i < a@.len() {
                        json_view(a@[i])
                    } else {
                        JsonV::Null
                    },
            ),
        ),
        JsonValue::Object(es) => JsonV::Object(
            Seq::new(
                es@.len(),
                |i: int|
                    if 0 <= i < es@.len() {
                        (es@[i].0@, json_view(es@[i].1))
                    } else {
                        (seq![], JsonV::Null)
                    },
            ),
        ),
    }
}

impl View for JsonValue {
    type V = JsonV;

    open spec fn view(&self) -> JsonV {
        json_view(*self)
    }
}

pub open spec fn opt_json(o: Option<&JsonValue>) -> Option<JsonV> {
    match o {
        Some(v) => Some(v@),
        None => None,
    }
}

/// What `serde_json::from_str::<Value>` gives for `text`: the value, or the
/// message of its error.
pub uninterp spec fn json_parse(text: Seq<char>) -> Result<JsonV, Seq<char>>;

/// `serde_json::from_str::<serde_json::Value>`, converted to a
/// [`JsonValue`].  Claimed: the result is [`json_parse`] of `text` (the error
/// by its message).
#[verifier::external_body]
pub(crate) fn parse_json(text: &str) -> (r: Result<JsonValue, String>)
    ensures
        match r {
            Ok(v) => json_parse(text@) == Ok::<JsonV, Seq<char>>(v@),
            Err(m) => json_parse(text@) == Err::<JsonV, Seq<char>>(m@),
        },
{
    match serde_json::from_str::<serde_json::Value>(text) {
        Ok(v) => Ok(json_of(v)),
        Err(e) => Err(e.to_string()),
    }
}

/// Conversion of a `serde_json::Value` for [`parse_json`]: one arm per
/// variant; a number keeps its text and its `i64` value.
#[verifier::external_body]
fn json_of(v: serde_json::Value) -> JsonValue {
    match v {
        serde_json::Value::Null => JsonValue::Null,
        serde_json::Value::Bool(b) => JsonValue::Bool(b),
        serde_json::Value::Number(n) => JsonValue::Number(n.to_string(), n.as_i64()),
        serde_json::Value::String(s) => JsonValue::Str(s),
        serde_json::Value::Array(a) => JsonValue::Array(a.into_iter().map(json_of).collect()),
        serde_json::Value::Object(m) => JsonValue::Object(m.into_iter().map(|(k, x)| (k, json_of(x))).collect()),
    }
}

/// `serde_json::Value`, carried only into the conversion above.
#[verifier::external_type_specification]
#[verifier::external_body]
pub struct ExJsonValue(serde_json::Value);

// ───────────────────────────── accessors ─────────────────────────────

/// The value under `key` of the entries `es` (the first entry with it).
pub open spec fn entries_get(es: Seq<(Seq<char>, JsonV)>, key: Seq<char>) -> Option<JsonV>
    decreases es.len(),
{
    if es.len() == 0 {
        None
    } else if es[0].0 == key {
        Some(es[0].1)
    } else {
        entries_get(es.drop_first(), key)
    }
}

/// `Value::get(key)`: the member `key` of an object, `None` otherwise.
pub open spec fn get(v: JsonV, key: Seq<char>) -> Option<JsonV> {
    match v {
        JsonV::Object(es) => entries_get(es, key),
        _ => None,
    }
}

/// `get` on an optional value.
pub open spec fn oget(v: Option<JsonV>, key: Seq<char>) -> Option<JsonV> {
    match v {
        Some(x) => get(x, key),
        None => None,
    }
}

pub open spec fn as_str(v: Option<JsonV>) -> Option<Seq<char>> {
    match v {
        Some(JsonV::Str(s)) => Some(s),
        _ => None,
    }
}

pub open spec fn as_array(v: Option<JsonV>) -> Option<Seq<JsonV>> {
    match v {
        Some(JsonV::Array(a)) => Some(a),
        _ => None,
    }
}

pub open spec fn as_object(v: Option<JsonV>) -> Option<Seq<(Seq<char>, JsonV)>> {
    match v {
        Some(JsonV::Object(es)) => Some(es),
        _ => None,
    }
}

pub open spec fn as_bool(v: Option<JsonV>) -> Option<bool> {
    match v {
        Some(JsonV::Bool(b)) => Some(b),
        _ => None,
    }
}

pub open spec fn as_i64(v: Option<JsonV>) -> Option<i64> {
    match v {
        Some(JsonV::Number(_, i)) => i,
        _ => None,
    }
}

/// The member `key` of `v` when `v` is an object.
pub fn json_get<'a>(v: &'a JsonValue, key: &str) -> (r: Option<&'a JsonValue>)
    ensures
        opt_json(r) == get(v@, key@),
{
    match v {
        JsonValue::Object(es) => {
            let mut i: usize = 0;
            let ghost ev = match v@ {
                JsonV::Object(x) => x,
                _ => seq![],
            };
            assert(ev.len() == es.len());
            assert(ev.skip(0) =~= ev);
            while i < es.len()
                invariant
                    i <= es.len(),
                    v@ == JsonV::Object(ev),
                    ev.len() == es.len(),
                    forall|j: int| 0 <= j < es.len() ==> #[trigger] ev[j] == (es@[j].0@, es@[j].1@),
                    entries_get(ev, key@) == entries_get(ev.skip(i as int), key@),
                decreases es.len() - i,
            {
                assert(ev[i as int] == (es@[i as int].0@, es@[i as int].1@));
                assert(ev.skip(i as int).drop_first() =~= ev.skip(i + 1));
                let k = chars_of(es[i].0.as_str());
                if eq_lit(&k, key) {
                    return Some(&es[i].1);
                }
                i = i + 1;
            }
            None
        },
        _ => None,
    }
}

/// [`json_get`] on an optional value.
pub fn json_oget<'a>(v: Option<&'a JsonValue>, key: &str) -> (r: Option<&'a JsonValue>)
    ensures
        opt_json(r) == oget(opt_json(v), key@),
{
    match v {
        Some(x) => json_get(x, key),
        None => None,
    }
}

pub fn json_str(v: Option<&JsonValue>) -> (r: Option<&String>)
    ensures
        match r {
            Some(s) => as_str(opt_json(v)) == Some(s@),
            None => as_str(opt_json(v)) is None,
        },
{
    match v {
        Some(JsonValue::Str(s)) => Some(s),
        _ => None,
    }
}

pub fn json_array(v: Option<&JsonValue>) -> (r: Option<&Vec<JsonValue>>)
    ensures
        match r {
            Some(a) => as_array(opt_json(v)) matches Some(s) && s.len() == a.len() && forall|i: int|
                0 <= i < a.len() ==> #[trigger] s[i] == a@[i]@,
            None => as_array(opt_json(v)) is None,
        },
{
    match v {
        Some(JsonValue::Array(a)) => Some(a),
        _ => None,
    }
}

pub fn json_object(v: Option<&JsonValue>) -> (r: Option<&Vec<(String, JsonValue)>>)
    ensures
        match r {
            Some(es) => as_object(opt_json(v)) matches Some(s) && s.len() == es.len() && forall|i: int|
                0 <= i < es.len() ==> #[trigger] s[i] == (es@[i].0@, es@[i].1@),
            None => as_object(opt_json(v)) is None,
        },
{
    match v {
        Some(JsonValue::Object(es)) => Some(es),
        _ => None,
    }
}

pub fn json_bool(v: Option<&JsonValue>) -> (r: Option<bool>)
    ensures
        r == as_bool(opt_json(v)),
{
    match v {
        Some(JsonValue::Bool(b)) => Some(*b),
        _ => None,
    }
}

pub fn json_i64(v: Option<&JsonValue>) -> (r: Option<i64>)
    ensures
        r == as_i64(opt_json(v)),
{
    match v {
        Some(JsonValue::Number(_, i)) => *i,
        _ => None,
    }
}

// ───────────────────────────── serialisation ─────────────────────────────

pub open spec fn hex_digit(n: u32) -> char {
    if n < 10 {
        (('0' as u32) + n) as char
    } else {
        (('a' as u32) + n - 10) as char
    }
}

/// How `serde_json` writes one character inside a string literal.
pub open spec fn escape_char(c: char) -> Seq<char> {
    if c == '"' {
        seq!['\\', '"']
    } else if c == '\\' {
        seq!['\\', '\\']
    } else if c == '\n' {
        seq!['\\', 'n']
    } else if c == '\r' {
        seq!['\\', 'r']
    } else if c == '\t' {
        seq!['\\', 't']
    } else if (c as u32) == 8 {
        seq!['\\', 'b']
    } else if (c as u32) == 12 {
        seq!['\\', 'f']
    } else if (c as u32) < 0x20 {
        seq!['\\', 'u', '0', '0', hex_digit((c as u32) / 16), hex_digit((c as u32) % 16)]
    } else {
        seq![c]
    }
}

pub open spec fn escape_str(s: Seq<char>) -> Seq<char>
    decreases s.len(),
{
    if s.len() == 0 {
        seq![]
    } else {
        escape_str(s.drop_last()) + escape_char(s.last())
    }
}

pub open spec fn quoted(s: Seq<char>) -> Seq<char> {
    seq!['"'] + escape_str(s) + seq!['"']
}

/// `Value::to_string`: the compact JSON text of `v`.
pub open spec fn json_text(v: JsonV) -> Seq<char>
    decreases v,
{
    match v {
        JsonV::Null => "null"@,
        JsonV::Bool(b) => if b {
            "true"@
        } else {
            "false"@
        },
        JsonV::Number(t, _) => t,
        JsonV::Str(s) => quoted(s),
        JsonV::Array(a) => seq!['['] + crate::text::join(item_texts(a, a.len() as int), seq![',']) + seq![']'],
        JsonV::Object(es) => seq!['{'] + crate::text::join(entry_texts(es, es.len() as int), seq![',']) + seq![
            '}',
        ],
    }
}

/// The texts of `a[..k]`.
pub open spec fn item_texts(a: Seq<JsonV>, k: int) -> Seq<Seq<char>>
    decreases a, k,
{
    if k <= 0 || k > a.len() {
        seq![]
    } else {
        item_texts(a, k - 1).push(json_text(a[k - 1]))
    }
}

/// The `"key":value` texts of `es[..k]`.
pub open spec fn entry_texts(es: Seq<(Seq<char>, JsonV)>, k: int) -> Seq<Seq<char>>
    decreases es, k,
{
    if k <= 0 || k > es.len() {
        seq![]
    } else {
        entry_texts(es, k - 1).push(quoted(es[k - 1].0) + seq![':'] + json_text(es[k - 1].1))
    }
}

fn hex_digit_exec(n: u32) -> (c: char)
    requires
        n < 16,
    ensures
        c == hex_digit(n),
{
    if n < 10 {
        (48u8 + (n as u8)) as char
    } else {
        (87u8 + (n as u8)) as char
    }
}

fn push_escaped(out: &mut Vec<char>, s: &Vec<char>)
    ensures
        final(out)@ == old(out)@ + escape_str(s@),
{
    let ghost o0 = out@;
    let mut i: usize = 0;
    while i < s.len()
        invariant
            i <= s.len(),
            out@ == o0 + escape_str(s@.take(i as int)),
        decreases s.len() - i,
    {
        let c = s[i];
        let ghost before = out@;
        let n = c as u32;
        if c == '"' {
            out.push('\\');
            out.push('"');
        } else if c == '\\' {
            out.push('\\');
            out.push('\\');
        } else if c == '\n' {
            out.push('\\');
            out.push('n');
        } else if c == '\r' {
            out.push('\\');
            out.push('r');
        } else if c == '\t' {
            out.push('\\');
            out.push('t');
        } else if n == 8 {
            out.push('\\');
            out.push('b');
        } else if n == 12 {
            out.push('\\');
            out.push('f');
        } else if n < 0x20 {
            out.push('\\');
            out.push('u');
            out.push('0');
            out.push('0');
            out.push(hex_digit_exec(n / 16));
            out.push(hex_digit_exec(n % 16));
        } else {
            out.push(c);
        }
        assert(out@ =~= before + escape_char(c));
        assert(s@.take(i + 1).drop_last() =~= s@.take(i as int));
        i = i + 1;
    }
    assert(s@.take(i as int) =~= s@);
}

fn push_quoted(out: &mut Vec<char>, s: &String)
    ensures
        final(out)@ == old(out)@ + quoted(s@),
{
    let ghost o0 = out@;
    out.push('"');
    let cs = chars_of(s.as_str());
    push_escaped(out, &cs);
    out.push('"');
    assert(out@ =~= o0 + quoted(s@));
}

/// Appends the compact JSON text of `v` to `out`.
#[verifier::loop_isolation(false)]
pub fn push_json_text(out: &mut Vec<char>, v: &JsonValue)
    ensures
        final(out)@ == old(out)@ + json_text(v@),
    decreases v,
{
    let ghost o0 = out@;
    proof {
        reveal_strlit("null");
        reveal_strlit("true");
        reveal_strlit("false");
    }
    match v {
        JsonValue::Null => crate::text::push_lit(out, "null"),
        JsonValue::Bool(b) => if *b {
            crate::text::push_lit(out, "true")
        } else {
            crate::text::push_lit(out, "false")
        },
        JsonValue::Number(t, _) => {
            let tc = chars_of(t.as_str());
            crate::text::push_all(out, &tc);
        },
        JsonValue::Str(s) => push_quoted(out, s),
        JsonValue::Array(a) => {
            let ghost av = v@->Array_0;
            assert(av.len() == a@.len());
            out.push('[');
            let mut i: usize = 0;
            while i < a.len()
                invariant
                    i <= a.len(),
                    av.len() == a@.len(),
                    forall|j: int| 0 <= j < av.len() ==> #[trigger] av[j] == a@[j]@,
                    out@ == o0 + seq!['['] + crate::text::join(item_texts(av, i as int), seq![',']),
                decreases a.len() - i,
            {
                proof {
                    assert(av[i as int] == a@[i as int]@);
                    crate::text::lemma_join_push(item_texts(av, i as int), seq![','], json_text(av[i as int]));
                }
                if i > 0 {
                    out.push(',');
                }
                assert(decreases_to!(*v => a@[i as int]));
                push_json_text(out, &a[i]);
                i = i + 1;
            }
            out.push(']');
        },
        JsonValue::Object(es) => {
            let ghost ev = v@->Object_0;
            assert(ev.len() == es@.len());
            out.push('{');
            let mut i: usize = 0;
            while i < es.len()
                invariant
                    i <= es.len(),
                    ev.len() == es@.len(),
                    forall|j: int| 0 <= j < ev.len() ==> #[trigger] ev[j] == (es@[j].0@, es@[j].1@),
                    out@ == o0 + seq!['{'] + crate::text::join(entry_texts(ev, i as int), seq![',']),
                decreases es.len() - i,
            {
                proof {
                    assert(ev[i as int] == (es@[i as int].0@, es@[i as int].1@));
                    crate::text::lemma_join_push(
                        entry_texts(ev, i as int),
                        seq![','],
                        quoted(ev[i as int].0) + seq![':'] + json_text(ev[i as int].1),
                    );
                }
                if i > 0 {
                    out.push(',');
                }
                push_quoted(out, &es[i].0);
                out.push(':');
                assert(decreases_to!(*v => es@[i as int].1));
                push_json_text(out, &es[i].1);
                i = i + 1;
            }
            out.push('}');
        },
    }
    assert(out@ =~= o0 + json_text(v@));
}

} // verus!
