//! A TOML document as plain values (what the dependency scanner reads of
//! it).  Parsing is the `toml` crate's; tables keep their keys in the order
//! that crate iterates them.
use vstd::prelude::*;

verus! {

/// A TOML value.  Numbers, booleans and datetimes are not read by the
/// library and are all `Other`.
#[derive(Debug)]
pub enum TomlValue {
    Str(String),
    Array(Vec<TomlValue>),
    Table(Vec<(String, TomlValue)>),
    Other,
}

pub enum TomlV {
    Str(Seq<char>),
    Array(Seq<TomlV>),
    Table(Seq<(Seq<char>, TomlV)>),
    Other,
}

pub open spec fn toml_view(v: TomlValue) -> TomlV
    decreases v,
{
    match v {
        TomlValue::Str(s) => TomlV::Str(s@),
        TomlValue::Array(a) => TomlV::Array(
            Seq::new(a@.len(), |i: int| if 0 <= i < a@.len() { toml_view(a@[i]) } else { TomlV::Other }),
        ),
        TomlValue::Table(es) => TomlV::Table(
            Seq::new(
                es@.len(),
                |i: int|
                    if 0 <= i < es@.len() {
                        (es@[i].0@, toml_view(es@[i].1))
                    } else {
                        (seq![], TomlV::Other)
                    },
            ),
        ),
        TomlValue::Other => TomlV::Other,
    }
}

impl View for TomlValue {
    type V = TomlV;

    open spec fn view(&self) -> TomlV {
        toml_view(*self)
    }
}

/// The document `toml::from_str::<toml::Table>` reads from `text` (as a
/// table value), or `None` when the text is not a valid TOML document.
pub uninterp spec fn toml_parse(text: Seq<char>) -> Option<TomlV>;

/// `toml::from_str::<toml::Table>`, converted to a [`TomlValue::Table`].
/// Claimed: the result is [`toml_parse`] of `text`.
#[verifier::external_body]
pub(crate) fn parse_toml(text: &str) -> (r: Option<TomlValue>)
    ensures
        match r {
            Some(v) => toml_parse(text@) == Some(v@),
            None => toml_parse(text@) is None,
        },
{
    match toml::from_str::<toml::Table>(text) {
        Ok(t) => Some(toml_of(toml::Value::Table(t))),
        Err(_) => None,
    }
}

/// Conversion of a `toml::Value` for [`parse_toml`]: strings, arrays and
/// tables move over; every other kind of value becomes `Other`.
#[verifier::external_body]
fn toml_of(v: toml::Value) -> TomlValue {
    match v {
        toml::Value::String(s) => TomlValue::Str(s),
        toml::Value::Array(a) => TomlValue::Array(a.into_iter().map(toml_of).collect()),
        toml::Value::Table(t) => TomlValue::Table(t.into_iter().map(|(k, x)| (k, toml_of(x))).collect()),
        _ => TomlValue::Other,
    }
}

/// `toml::Value`, carried only into the conversion above.
#[verifier::external_type_specification]
#[verifier::external_body]
pub struct ExTomlValue(toml::Value);

pub open spec fn tentries_get(es: Seq<(Seq<char>, TomlV)>, key: Seq<char>) -> Option<TomlV>
    decreases es.len(),
{
    if es.len() == 0 {
        None
    } else if es[0].0 == key {
        Some(es[0].1)
    } else {
        tentries_get(es.drop_first(), key)
    }
}

/// `Value::get(key)`: the member `key` of a table.
pub open spec fn tget(v: Option<TomlV>, key: Seq<char>) -> Option<TomlV> {
    match v {
        Some(TomlV::Table(es)) => tentries_get(es, key),
        _ => None,
    }
}

pub open spec fn tas_table(v: Option<TomlV>) -> Option<Seq<(Seq<char>, TomlV)>> {
    match v {
        Some(TomlV::Table(es)) => Some(es),
        _ => None,
    }
}

pub open spec fn tas_array(v: Option<TomlV>) -> Option<Seq<TomlV>> {
    match v {
        Some(TomlV::Array(a)) => Some(a),
        _ => None,
    }
}

pub open spec fn tas_str(v: Option<TomlV>) -> Option<Seq<char>> {
    match v {
        Some(TomlV::Str(s)) => Some(s),
        _ => None,
    }
}

pub open spec fn opt_toml(o: Option<&TomlValue>) -> Option<TomlV> {
    match o {
        Some(v) => Some(v@),
        None => None,
    }
}

/// The member `key` of `v` when `v` is a table.
pub fn toml_get<'a>(v: Option<&'a TomlValue>, key: &str) -> (r: Option<&'a TomlValue>)
    ensures
        opt_toml(r) == tget(opt_toml(v), key@),
{
    match v {
        Some(TomlValue::Table(es)) => {
            let ghost ev = match v->0@ {
                TomlV::Table(x) => x,
                _ => seq![],
            };
            assert(ev.len() == es.len());
            assert(ev.skip(0) =~= ev);
            let mut i: usize = 0;
            while i < es.len()
                invariant
                    i <= es.len(),
                    opt_toml(v) == Some(TomlV::Table(ev)),
                    ev.len() == es.len(),
                    forall|j: int| 0 <= j < es.len() ==> #[trigger] ev[j] == (es@[j].0@, es@[j].1@),
                    tentries_get(ev, key@) == tentries_get(ev.skip(i as int), key@),
                decreases es.len() - i,
            {
                assert(ev[i as int] == (es@[i as int].0@, es@[i as int].1@));
                assert(ev.skip(i as int).drop_first() =~= ev.skip(i + 1));
                let k = crate::text::chars_of(es[i].0.as_str());
                if crate::text::eq_lit(&k, key) {
                    return Some(&es[i].1);
                }
                i = i + 1;
            }
            None
        },
        _ => None,
    }
}

pub fn toml_table(v: Option<&TomlValue>) -> (r: Option<&Vec<(String, TomlValue)>>)
    ensures
        match r {
            Some(es) => tas_table(opt_toml(v)) matches Some(s) && s.len() == es.len() && forall|i: int|
                0 <= i < es.len() ==> #[trigger] s[i] == (es@[i].0@, es@[i].1@),
            None => tas_table(opt_toml(v)) is None,
        },
{
    match v {
        Some(TomlValue::Table(es)) => Some(es),
        _ => None,
    }
}

pub fn toml_array(v: Option<&TomlValue>) -> (r: Option<&Vec<TomlValue>>)
    ensures
        match r {
            Some(a) => tas_array(opt_toml(v)) matches Some(s) && s.len() == a.len() && forall|i: int|
                0 <= i < a.len() ==> #[trigger] s[i] == a@[i]@,
            None => tas_array(opt_toml(v)) is None,
        },
{
    match v {
        Some(TomlValue::Array(a)) => Some(a),
        _ => None,
    }
}

pub fn toml_str(v: Option<&TomlValue>) -> (r: Option<&String>)
    ensures
        match r {
            Some(s) => tas_str(opt_toml(v)) == Some(s@),
            None => tas_str(opt_toml(v)) is None,
        },
{
    match v {
        Some(TomlValue::Str(s)) => Some(s),
        _ => None,
    }
}

} // verus!
