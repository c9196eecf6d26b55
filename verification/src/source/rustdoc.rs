//! Rustdoc JSON as a documentation source.
//!
//! `rustdoc --output-format json` describes a crate's public API exactly:
//! every item, its full path, signature and doc comment.  The converter here
//! turns that JSON into Markdown (one `##` heading per item, titled with the
//! item's path) for the standard pipeline.
use vstd::prelude::*;

use crate::error::LoreError;
use crate::json::{
    as_array, as_bool, as_i64, as_object, as_str, entries_get, get, json_array, json_bool, json_get,
    json_i64, json_object, json_oget, json_str, json_text, oget, opt_json, parse_json, json_parse,
    push_json_text, JsonV, JsonValue,
};
use crate::text::{text_before, text_before_exec, chars_of, has_prefix, join, push_all, push_lit, string_of, trim, trim_chars};

verus! {

// ───────────────────────────── types ─────────────────────────────

pub open spec fn or_us(o: Option<Seq<char>>) -> Seq<char> {
    match o {
        Some(s) => s,
        None => "_"@,
    }
}

/// The first entry of an object value.
pub open spec fn first_entry(v: Option<JsonV>) -> Option<(Seq<char>, JsonV)> {
    match as_object(v) {
        Some(es) => if es.len() > 0 {
            Some(es[0])
        } else {
            None
        },
        None => None,
    }
}

pub open spec fn depth_measure(depth: nat) -> nat {
    if depth < 10 {
        (10 - depth) as nat
    } else {
        0
    }
}

/// A rustdoc `Type` rendered as Rust source; past depth 8 it is `_`.
pub open spec fn type_text(ty: JsonV, depth: nat) -> Seq<char>
    decreases depth_measure(depth), 0int,
{
    if depth > 8 {
        "_"@
    } else {
        match first_entry(Some(ty)) {
            None => "_"@,
            Some((tag, body)) => if tag == "primitive"@ || tag == "generic"@ {
                or_us(as_str(Some(body)))
            } else if tag == "resolved_path"@ {
                let path = or_us(as_str(get(body, "path"@)));
                let args = match as_array(oget(oget(get(body, "args"@), "angle_bracketed"@), "args"@)) {
                    Some(list) => type_args(list, list.len() as int, depth + 1),
                    None => seq![],
                };
                if args.len() == 0 {
                    path
                } else {
                    path + "<"@ + join(args, ", "@) + ">"@
                }
            } else if tag == "borrowed_ref"@ {
                let inner = match get(body, "type"@) {
                    Some(t) => type_text(t, depth + 1),
                    None => "_"@,
                };
                if as_bool(get(body, "is_mutable"@)) == Some(true) {
                    "&mut "@ + inner
                } else {
                    "&"@ + inner
                }
            } else if tag == "raw_pointer"@ {
                let inner = match get(body, "type"@) {
                    Some(t) => type_text(t, depth + 1),
                    None => "_"@,
                };
                "*"@ + (if as_bool(get(body, "is_mutable"@)) == Some(true) {
                    "mut"@
                } else {
                    "const"@
                }) + " "@ + inner
            } else if tag == "tuple"@ {
                let parts = match as_array(Some(body)) {
                    Some(a) => tuple_parts(a, a.len() as int, depth + 1),
                    None => seq![],
                };
                "("@ + join(parts, ", "@) + ")"@
            } else if tag == "slice"@ {
                "["@ + type_text(body, depth + 1) + "]"@
            } else if tag == "array"@ {
                let inner = match get(body, "type"@) {
                    Some(t) => type_text(t, depth + 1),
                    None => "_"@,
                };
                "["@ + inner + "; "@ + or_us(as_str(get(body, "len"@))) + "]"@
            } else if tag == "impl_trait"@ {
                "impl _"@
            } else if tag == "dyn_trait"@ {
                "dyn _"@
            } else {
                "_"@
            },
        }
    }
}

/// The rendered `type` members of the generic arguments `list[..k]` (those
/// without one are left out).
pub open spec fn type_args(list: Seq<JsonV>, k: int, depth: nat) -> Seq<Seq<char>>
    decreases depth_measure(depth), k,
{
    if k <= 0 || k > list.len() {
        seq![]
    } else {
        let r = type_args(list, k - 1, depth);
        match get(list[k - 1], "type"@) {
            Some(t) => r.push(type_text(t, depth)),
            None => r,
        }
    }
}

/// The rendered types `list[..k]`.
pub open spec fn tuple_parts(list: Seq<JsonV>, k: int, depth: nat) -> Seq<Seq<char>>
    decreases depth_measure(depth), k,
{
    if k <= 0 || k > list.len() {
        seq![]
    } else {
        tuple_parts(list, k - 1, depth).push(type_text(list[k - 1], depth))
    }
}

pub open spec fn flag_set(header: Option<JsonV>, key: Seq<char>) -> bool {
    as_bool(oget(header, key)) == Some(true)
}

/// One rendered parameter from a `[name, type]` pair.
pub open spec fn fn_input(pair: JsonV) -> Option<Seq<char>> {
    match as_array(Some(pair)) {
        Some(arr) => if arr.len() >= 1 {
            match as_str(Some(arr[0])) {
                Some(n) => if arr.len() >= 2 {
                    Some(
                        if n == "self"@ {
                            "self"@
                        } else {
                            n + ": "@ + type_text(arr[1], 0)
                        },
                    )
                } else {
                    None
                },
                None => None,
            }
        } else {
            None
        },
        None => None,
    }
}

pub open spec fn fn_inputs(args: Seq<JsonV>, k: int) -> Seq<Seq<char>>
    decreases k,
{
    if k <= 0 || k > args.len() {
        seq![]
    } else {
        match fn_input(args[k - 1]) {
            Some(s) => fn_inputs(args, k - 1).push(s),
            None => fn_inputs(args, k - 1),
        }
    }
}

/// A function's signature from its `sig` (or legacy `decl`) and `header`.
pub open spec fn render_fn(name: Seq<char>, inner: JsonV) -> Seq<char> {
    let header = get(inner, "header"@);
    let prefix = "pub "@ + (if flag_set(header, "is_const"@) {
        "const "@
    } else {
        seq![]
    }) + (if flag_set(header, "is_async"@) {
        "async "@
    } else {
        seq![]
    }) + (if flag_set(header, "is_unsafe"@) {
        "unsafe "@
    } else {
        seq![]
    });
    let sig = match get(inner, "sig"@) {
        Some(x) => Some(x),
        None => get(inner, "decl"@),
    };
    let inputs = match as_array(oget(sig, "inputs"@)) {
        Some(args) => join(fn_inputs(args, args.len() as int), ", "@),
        None => seq![],
    };
    let output = match oget(sig, "output"@) {
        Some(o) => if o is Null {
            seq![]
        } else {
            " -> "@ + type_text(o, 0)
        },
        None => seq![],
    };
    prefix + "fn "@ + name + "("@ + inputs + ")"@ + output
}

/// A one-line signature for an item of the given kind.
pub open spec fn render_signature(kind: Seq<char>, name: Seq<char>, inner: JsonV) -> Seq<char> {
    if kind == "function"@ {
        render_fn(name, inner)
    } else if kind == "struct"@ {
        "pub struct "@ + name
    } else if kind == "enum"@ {
        "pub enum "@ + name
    } else if kind == "trait"@ {
        "pub trait "@ + name
    } else if kind == "trait_alias"@ {
        "pub trait "@ + name + " = …"@
    } else if kind == "constant"@ {
        "pub const "@ + name
    } else if kind == "static"@ {
        "pub static "@ + name
    } else if kind == "type_alias"@ || kind == "typedef"@ {
        "pub type "@ + name
    } else if kind == "macro"@ || kind == "proc_macro"@ {
        name + "!"@
    } else if kind == "primitive"@ {
        "primitive "@ + name
    } else {
        kind + " "@ + name
    }
}

// ───────────────────────────── rendering ─────────────────────────────

fn first_entry_exec(v: Option<&JsonValue>) -> (r: Option<(&String, &JsonValue)>)
    ensures
        match r {
            Some((k, x)) => first_entry(opt_json(v)) == Some((k@, x@)),
            None => first_entry(opt_json(v)) is None,
        },
{
    match json_object(v) {
        Some(es) => if es.len() > 0 {
            Some((&es[0].0, &es[0].1))
        } else {
            None
        },
        None => None,
    }
}

fn str_or_us(o: Option<&String>) -> (r: Vec<char>)
    ensures
        match o {
            Some(s) => r@ == s@,
            None => r@ == "_"@,
        },
{
    match o {
        Some(s) => chars_of(s.as_str()),
        None => chars_of("_"),
    }
}

fn join_exec(parts: &Vec<Vec<char>>, sep: &str) -> (r: Vec<char>)
    ensures
        r@ == join(parts@.map_values(|p: Vec<char>| p@), sep@),
{
    let s = chars_of(sep);
    crate::text::join_chars(parts, &s)
}

fn is_lit(s: &String, lit: &str) -> (b: bool)
    ensures
        b == (s@ == lit@),
{
    let c = chars_of(s.as_str());
    crate::text::eq_lit(&c, lit)
}

/// Renders a rustdoc `Type` value as Rust source.
fn render_type_exec(ty: &JsonValue, depth: u8) -> (r: Vec<char>)
    requires
        depth <= 9,
    ensures
        r@ == type_text(ty@, depth as nat),
    decreases depth_measure(depth as nat), 0int,
{
    proof {
        reveal_strlit("_");
    }
    if depth > 8 {
        return chars_of("_");
    }
    let (tag, body) = match first_entry_exec(Some(ty)) {
        Some(e) => e,
        None => {
            return chars_of("_");
        },
    };
    let mut out: Vec<char> = Vec::new();
    if is_lit(tag, "primitive") || is_lit(tag, "generic") {
        return str_or_us(json_str(Some(body)));
    } else if is_lit(tag, "resolved_path") {
        let path = str_or_us(json_str(json_get(body, "path")));
        let list = json_array(json_oget(json_oget(json_get(body, "args"), "angle_bracketed"), "args"));
        let args: Vec<Vec<char>> = match list {
            Some(l) => type_args_exec(l, depth + 1),
            None => Vec::new(),
        };
        proof {
            let lv = as_array(oget(oget(get(body@, "args"@), "angle_bracketed"@), "args"@));
            if lv is Some {
                let lv = lv->0;
                assert(lv =~= list->0@.map_values(|x: JsonValue| x@));
            }
        }
        if args.len() == 0 {
            assert(args@.map_values(|p: Vec<char>| p@).len() == 0);
            return path;
        }
        push_all(&mut out, &path);
        push_lit(&mut out, "<");
        let j = join_exec(&args, ", ");
        push_all(&mut out, &j);
        push_lit(&mut out, ">");
    } else if is_lit(tag, "borrowed_ref") || is_lit(tag, "raw_pointer") {
        let inner = match json_get(body, "type") {
            Some(t) => render_type_exec(t, depth + 1),
            None => chars_of("_"),
        };
        let m = json_bool(json_get(body, "is_mutable"));
        let mutable = match m {
            Some(b) => b,
            None => false,
        };
        if is_lit(tag, "borrowed_ref") {
            if mutable {
                push_lit(&mut out, "&mut ");
            } else {
                push_lit(&mut out, "&");
            }
        } else {
            push_lit(&mut out, "*");
            if mutable {
                push_lit(&mut out, "mut");
            } else {
                push_lit(&mut out, "const");
            }
            push_lit(&mut out, " ");
        }
        push_all(&mut out, &inner);
    } else if is_lit(tag, "tuple") {
        let arr = json_array(Some(body));
        let parts: Vec<Vec<char>> = match arr {
            Some(a) => tuple_parts_exec(a, depth + 1),
            None => Vec::new(),
        };
        proof {
            let av = as_array(Some(body@));
            if av is Some {
                assert(av->0 =~= arr->0@.map_values(|x: JsonValue| x@));
            }
        }
        push_lit(&mut out, "(");
        let j = join_exec(&parts, ", ");
        push_all(&mut out, &j);
        push_lit(&mut out, ")");
    } else if is_lit(tag, "slice") {
        push_lit(&mut out, "[");
        let inner = render_type_exec(body, depth + 1);
        push_all(&mut out, &inner);
        push_lit(&mut out, "]");
    } else if is_lit(tag, "array") {
        let inner = match json_get(body, "type") {
            Some(t) => render_type_exec(t, depth + 1),
            None => chars_of("_"),
        };
        let len = str_or_us(json_str(json_get(body, "len")));
        push_lit(&mut out, "[");
        push_all(&mut out, &inner);
        push_lit(&mut out, "; ");
        push_all(&mut out, &len);
        push_lit(&mut out, "]");
    } else if is_lit(tag, "impl_trait") {
        return chars_of("impl _");
    } else if is_lit(tag, "dyn_trait") {
        return chars_of("dyn _");
    } else {
        return chars_of("_");
    }
    out
}

/// Renders a rustdoc `Type` value as Rust source, starting at nesting
/// `depth`; anything nested deeper than 8 levels is shown as `_`.
pub fn render_type(ty: &JsonValue, depth: usize) -> (r: String)
    ensures
        r@ == type_text(ty@, depth as nat),
{
    if depth > 8 {
        return string_of(&chars_of("_"));
    }
    let v = render_type_exec(ty, depth as u8);
    string_of(&v)
}

fn type_args_exec(list: &Vec<JsonValue>, depth: u8) -> (r: Vec<Vec<char>>)
    requires
        depth <= 9,
    ensures
        r@.map_values(|p: Vec<char>| p@) == type_args(
            list@.map_values(|x: JsonValue| x@),
            list.len() as int,
            depth as nat,
        ),
    decreases depth_measure(depth as nat), 1int,
{
    let ghost lv = list@.map_values(|x: JsonValue| x@);
    let mut r: Vec<Vec<char>> = Vec::new();
    let mut i: usize = 0;
    while i < list.len()
        invariant
            i <= list.len(),
            depth <= 9,
            lv == list@.map_values(|x: JsonValue| x@),
            r@.map_values(|p: Vec<char>| p@) == type_args(lv, i as int, depth as nat),
        decreases list.len() - i,
    {
        let ghost r0 = r@;
        assert(lv[i as int] == list@[i as int]@);
        match json_get(&list[i], "type") {
            Some(t) => {
                let x = render_type_exec(t, depth);
                r.push(x);
                assert(r@.map_values(|p: Vec<char>| p@) =~= r0.map_values(|p: Vec<char>| p@).push(x@));
            },
            None => {},
        }
        i = i + 1;
    }
    r
}

fn tuple_parts_exec(list: &Vec<JsonValue>, depth: u8) -> (r: Vec<Vec<char>>)
    requires
        depth <= 9,
    ensures
        r@.map_values(|p: Vec<char>| p@) == tuple_parts(
            list@.map_values(|x: JsonValue| x@),
            list.len() as int,
            depth as nat,
        ),
    decreases depth_measure(depth as nat), 1int,
{
    let ghost lv = list@.map_values(|x: JsonValue| x@);
    let mut r: Vec<Vec<char>> = Vec::new();
    let mut i: usize = 0;
    while i < list.len()
        invariant
            i <= list.len(),
            depth <= 9,
            lv == list@.map_values(|x: JsonValue| x@),
            r@.map_values(|p: Vec<char>| p@) == tuple_parts(lv, i as int, depth as nat),
        decreases list.len() - i,
    {
        let ghost r0 = r@;
        assert(lv[i as int] == list@[i as int]@);
        let x = render_type_exec(&list[i], depth);
        r.push(x);
        assert(r@.map_values(|p: Vec<char>| p@) =~= r0.map_values(|p: Vec<char>| p@).push(x@));
        i = i + 1;
    }
    r
}

fn flag_set_exec(header: Option<&JsonValue>, key: &str) -> (b: bool)
    ensures
        b == flag_set(opt_json(header), key@),
{
    match json_bool(json_oget(header, key)) {
        Some(x) => x,
        None => false,
    }
}

fn fn_input_exec(pair: &JsonValue) -> (r: Option<Vec<char>>)
    ensures
        match r {
            Some(s) => fn_input(pair@) == Some(s@),
            None => fn_input(pair@) is None,
        },
{
    let arr = match json_array(Some(pair)) {
        Some(a) => a,
        None => {
            return None;
        },
    };
    if arr.len() < 1 {
        return None;
    }
    let n = match json_str(Some(&arr[0])) {
        Some(n) => n,
        None => {
            return None;
        },
    };
    if arr.len() < 2 {
        return None;
    }
    if is_lit(n, "self") {
        return Some(chars_of("self"));
    }
    let mut out = chars_of(n.as_str());
    push_lit(&mut out, ": ");
    let t = render_type_exec(&arr[1], 0);
    push_all(&mut out, &t);
    Some(out)
}

fn render_fn_exec(name: &String, inner: &JsonValue) -> (r: Vec<char>)
    ensures
        r@ == render_fn(name@, inner@),
{
    let header = json_get(inner, "header");
    let mut out = chars_of("pub ");
    if flag_set_exec(header, "is_const") {
        push_lit(&mut out, "const ");
    }
    if flag_set_exec(header, "is_async") {
        push_lit(&mut out, "async ");
    }
    if flag_set_exec(header, "is_unsafe") {
        push_lit(&mut out, "unsafe ");
    }
    let ghost prefix = out@;
    let sig = match json_get(inner, "sig") {
        Some(x) => Some(x),
        None => json_get(inner, "decl"),
    };
    let arr = json_array(json_oget(sig, "inputs"));
    let mut inputs: Vec<Vec<char>> = Vec::new();
    match arr {
        Some(args) => {
            let ghost av = args@.map_values(|x: JsonValue| x@);
            assert(as_array(oget(opt_json(sig), "inputs"@))->0 =~= av);
            let mut i: usize = 0;
            while i < args.len()
                invariant
                    i <= args.len(),
                    av == args@.map_values(|x: JsonValue| x@),
                    inputs@.map_values(|p: Vec<char>| p@) == fn_inputs(av, i as int),
                decreases args.len() - i,
            {
                let ghost r0 = inputs@;
                assert(av[i as int] == args@[i as int]@);
                match fn_input_exec(&args[i]) {
                    Some(x) => {
                        inputs.push(x);
                        assert(inputs@.map_values(|p: Vec<char>| p@) =~= r0.map_values(|p: Vec<char>| p@).push(x@));
                    },
                    None => {},
                }
                i = i + 1;
            }
        },
        None => {},
    }
    push_lit(&mut out, "fn ");
    let nc = chars_of(name.as_str());
    push_all(&mut out, &nc);
    push_lit(&mut out, "(");
    if arr.is_some() {
        let j = join_exec(&inputs, ", ");
        push_all(&mut out, &j);
    }
    push_lit(&mut out, ")");
    match json_oget(sig, "output") {
        Some(o) => match o {
            JsonValue::Null => {},
            _ => {
                push_lit(&mut out, " -> ");
                let t = render_type_exec(o, 0);
                push_all(&mut out, &t);
            },
        },
        None => {},
    }
    proof {
        reveal_strlit("pub ");
        reveal_strlit("fn ");
    }
    assert(out@ =~= render_fn(name@, inner@));
    out
}

fn render_signature_exec(kind: &String, name: &String, inner: &JsonValue) -> (r: Vec<char>)
    ensures
        r@ == render_signature(kind@, name@, inner@),
{
    let n = chars_of(name.as_str());
    let mut out: Vec<char> = Vec::new();
    if is_lit(kind, "function") {
        return render_fn_exec(name, inner);
    } else if is_lit(kind, "struct") {
        push_lit(&mut out, "pub struct ");
        push_all(&mut out, &n);
    } else if is_lit(kind, "enum") {
        push_lit(&mut out, "pub enum ");
        push_all(&mut out, &n);
    } else if is_lit(kind, "trait") {
        push_lit(&mut out, "pub trait ");
        push_all(&mut out, &n);
    } else if is_lit(kind, "trait_alias") {
        push_lit(&mut out, "pub trait ");
        push_all(&mut out, &n);
        push_lit(&mut out, " = …");
    } else if is_lit(kind, "constant") {
        push_lit(&mut out, "pub const ");
        push_all(&mut out, &n);
    } else if is_lit(kind, "static") {
        push_lit(&mut out, "pub static ");
        push_all(&mut out, &n);
    } else if is_lit(kind, "type_alias") || is_lit(kind, "typedef") {
        push_lit(&mut out, "pub type ");
        push_all(&mut out, &n);
    } else if is_lit(kind, "macro") || is_lit(kind, "proc_macro") {
        push_all(&mut out, &n);
        push_lit(&mut out, "!");
    } else if is_lit(kind, "primitive") {
        push_lit(&mut out, "primitive ");
        push_all(&mut out, &n);
    } else {
        out = chars_of(kind.as_str());
        push_lit(&mut out, " ");
        push_all(&mut out, &n);
    }
    out
}

// ───────────────────────────── the converter ─────────────────────────────

/// One documented item.
pub struct ItemV {
    pub path: Seq<char>,
    pub signature: Seq<char>,
    pub docs: Seq<char>,
}

pub open spec fn paths_get(paths: Option<Seq<(Seq<char>, JsonV)>>, key: Seq<char>) -> Option<JsonV> {
    match paths {
        Some(es) => entries_get(es, key),
        None => None,
    }
}

pub open spec fn first_of(a: Option<Seq<JsonV>>) -> Option<JsonV> {
    match a {
        Some(s) => if s.len() > 0 {
            Some(s[0])
        } else {
            None
        },
        None => None,
    }
}

/// The documented crate's name: the first segment of the path of the
/// `root` item, else `crate`.
pub open spec fn crate_name_of(root: JsonV) -> Seq<char> {
    let paths = as_object(get(root, "paths"@));
    let entry = match get(root, "root"@) {
        Some(r) => paths_get(paths, json_text(r)),
        None => None,
    };
    match as_str(first_of(as_array(oget(entry, "path"@)))) {
        Some(s) => s,
        None => "crate"@,
    }
}

/// The string members of `segs[..k]`.
pub open spec fn str_items(segs: Seq<JsonV>, k: int) -> Seq<Seq<char>>
    decreases k,
{
    if k <= 0 || k > segs.len() {
        seq![]
    } else {
        match as_str(Some(segs[k - 1])) {
            Some(x) => str_items(segs, k - 1).push(x),
            None => str_items(segs, k - 1),
        }
    }
}

pub open spec fn skipped_kind(kind: Seq<char>) -> bool {
    kind == "struct_field"@ || kind == "variant"@ || kind == "impl"@ || kind == "module"@ || kind
        == "use"@
}

/// The item for index entry `(id, item)`, if it is documented: it has a
/// non-empty name and an `inner` kind that has a page of its own, and its path
/// lies under the crate (or it belongs to crate 0).
pub open spec fn item_of(
    id: Seq<char>,
    item: JsonV,
    paths: Option<Seq<(Seq<char>, JsonV)>>,
    crate_name: Seq<char>,
) -> Option<ItemV> {
    match as_str(get(item, "name"@)) {
        None => None,
        Some(name) => if name.len() == 0 {
            None
        } else {
            match first_entry(get(item, "inner"@)) {
                None => None,
                Some((kind, inner)) => if skipped_kind(kind) {
                    None
                } else {
                    let segs = as_array(oget(paths_get(paths, id), "path"@));
                    let under = as_str(first_of(segs)) == Some(crate_name);
                    let local = as_i64(get(item, "crate_id"@)) == Some(0i64);
                    if !under && !local {
                        None
                    } else {
                        let path = match segs {
                            Some(sg) => if join(str_items(sg, sg.len() as int), "::"@).len() > 0 {
                                join(str_items(sg, sg.len() as int), "::"@)
                            } else {
                                name
                            },
                            None => name,
                        };
                        let docs = match as_str(get(item, "docs"@)) {
                            Some(d) => d,
                            None => seq![],
                        };
                        Some(ItemV { path, signature: render_signature(kind, name, inner), docs })
                    }
                },
            }
        },
    }
}

/// The documented items of `index[..k]`, in index order.
pub open spec fn collect_items(
    index: Seq<(Seq<char>, JsonV)>,
    k: int,
    paths: Option<Seq<(Seq<char>, JsonV)>>,
    crate_name: Seq<char>,
) -> Seq<ItemV>
    decreases k,
{
    if k <= 0 || k > index.len() {
        seq![]
    } else {
        let r = collect_items(index, k - 1, paths, crate_name);
        match item_of(index[k - 1].0, index[k - 1].1, paths, crate_name) {
            Some(it) => r.push(it),
            None => r,
        }
    }
}

/// Where `x` goes in the sorted `s`: before the first item whose path comes
/// after `x`'s, so that equal paths keep their order.
pub open spec fn insert_pos(s: Seq<ItemV>, x: ItemV, j: int) -> int
    decreases s.len() - j,
{
    if j < 0 || j >= s.len() {
        s.len() as int
    } else if text_before(x.path, s[j].path) {
        j
    } else {
        insert_pos(s, x, j + 1)
    }
}

/// The items stably sorted by path.
pub open spec fn sort_items(s: Seq<ItemV>) -> Seq<ItemV>
    decreases s.len(),
{
    if s.len() == 0 {
        seq![]
    } else {
        let r = sort_items(s.drop_last());
        r.insert(insert_pos(r, s.last(), 0), s.last())
    }
}

/// The Markdown of one item.
pub open spec fn item_markdown(it: ItemV, crate_name: Seq<char>) -> Seq<char> {
    let pre = crate_name + "::"@;
    let heading = if has_prefix(it.path, pre) {
        it.path.skip(pre.len() as int)
    } else {
        it.path
    };
    "## "@ + heading + "\n\n```rust\n"@ + it.signature + "\n```\n\n"@ + (if trim(it.docs).len() > 0 {
        trim(it.docs) + "\n\n"@
    } else {
        seq![]
    })
}

pub open spec fn items_markdown(items: Seq<ItemV>, crate_name: Seq<char>, k: int) -> Seq<char>
    decreases k,
{
    if k <= 0 || k > items.len() {
        seq![]
    } else {
        items_markdown(items, crate_name, k - 1) + item_markdown(items[k - 1], crate_name)
    }
}

/// The Markdown for a parsed rustdoc document whose `index` is `index`: a
/// `#` heading with the crate name, then every documented item sorted by path.
pub open spec fn rustdoc_markdown(root: JsonV, index: Seq<(Seq<char>, JsonV)>) -> Seq<char> {
    let cn = crate_name_of(root);
    let items = sort_items(collect_items(index, index.len() as int, as_object(get(root, "paths"@)), cn));
    "# "@ + cn + "\n\n"@ + items_markdown(items, cn, items.len() as int)
}

/// What the converter returns for `json`: the Markdown, or the message of
/// the parse error.
pub open spec fn spec_rustdoc_value_to_markdown(root: JsonV) -> Result<Seq<char>, Seq<char>> {
    match as_object(get(root, "index"@)) {
        None => Err("rustdoc JSON missing `index`"@),
        Some(index) => Ok(rustdoc_markdown(root, index)),
    }
}

pub open spec fn spec_rustdoc_to_markdown(json: Seq<char>) -> Result<Seq<char>, Seq<char>> {
    match json_parse(json) {
        Err(m) => Err("invalid rustdoc JSON: "@ + m),
        Ok(root) => spec_rustdoc_value_to_markdown(root),
    }
}

pub open spec fn entries_view(es: Seq<(String, JsonValue)>) -> Seq<(Seq<char>, JsonV)> {
    es.map_values(|e: (String, JsonValue)| (e.0@, e.1@))
}

pub open spec fn opt_entries(o: Option<&Vec<(String, JsonValue)>>) -> Option<Seq<(Seq<char>, JsonV)>> {
    match o {
        Some(es) => Some(entries_view(es@)),
        None => None,
    }
}

fn object_of(v: Option<&JsonValue>) -> (r: Option<&Vec<(String, JsonValue)>>)
    ensures
        opt_entries(r) == as_object(opt_json(v)),
{
    let o = json_object(v);
    proof {
        if o is Some {
            assert(as_object(opt_json(v))->0 =~= entries_view(o->0@));
        }
    }
    o
}

fn entries_find<'a>(es: &'a Vec<(String, JsonValue)>, key: &Vec<char>) -> (r: Option<&'a JsonValue>)
    ensures
        opt_json(r) == entries_get(entries_view(es@), key@),
{
    let ghost ev = entries_view(es@);
    assert(ev.skip(0) =~= ev);
    let mut i: usize = 0;
    while i < es.len()
        invariant
            i <= es.len(),
            ev == entries_view(es@),
            entries_get(ev, key@) == entries_get(ev.skip(i as int), key@),
        decreases es.len() - i,
    {
        assert(ev[i as int] == (es@[i as int].0@, es@[i as int].1@));
        assert(ev.skip(i as int).drop_first() =~= ev.skip(i + 1));
        let k = chars_of(es[i].0.as_str());
        if crate::text::chars_eq(&k, key) {
            return Some(&es[i].1);
        }
        i = i + 1;
    }
    None
}

fn paths_find<'a>(paths: Option<&'a Vec<(String, JsonValue)>>, key: &Vec<char>) -> (r: Option<&'a JsonValue>)
    ensures
        opt_json(r) == paths_get(opt_entries(paths), key@),
{
    match paths {
        Some(es) => entries_find(es, key),
        None => None,
    }
}

fn first_of_exec(a: Option<&Vec<JsonValue>>) -> (r: Option<&JsonValue>)
    ensures
        a is Some ==> opt_json(r) == first_of(Some(a->0@.map_values(|x: JsonValue| x@))),
        a is None ==> r is None,
{
    match a {
        Some(s) => if s.len() > 0 {
            Some(&s[0])
        } else {
            None
        },
        None => None,
    }
}

fn array_of(v: Option<&JsonValue>) -> (r: Option<&Vec<JsonValue>>)
    ensures
        match r {
            Some(a) => as_array(opt_json(v)) == Some(a@.map_values(|x: JsonValue| x@)),
            None => as_array(opt_json(v)) is None,
        },
{
    let a = json_array(v);
    proof {
        if a is Some {
            assert(as_array(opt_json(v))->0 =~= a->0@.map_values(|x: JsonValue| x@));
        }
    }
    a
}

fn crate_name_exec(root: &JsonValue) -> (r: Vec<char>)
    ensures
        r@ == crate_name_of(root@),
{
    let paths = object_of(json_get(root, "paths"));
    let entry = match json_get(root, "root") {
        Some(r) => {
            let mut key: Vec<char> = Vec::new();
            push_json_text(&mut key, r);
            paths_find(paths, &key)
        },
        None => None,
    };
    let segs = array_of(json_oget(entry, "path"));
    match json_str(first_of_exec(segs)) {
        Some(s) => chars_of(s.as_str()),
        None => chars_of("crate"),
    }
}

fn str_items_exec(segs: &Vec<JsonValue>) -> (r: Vec<Vec<char>>)
    ensures
        r@.map_values(|p: Vec<char>| p@) == str_items(segs@.map_values(|x: JsonValue| x@), segs.len() as int),
{
    let ghost sv = segs@.map_values(|x: JsonValue| x@);
    let mut r: Vec<Vec<char>> = Vec::new();
    let mut i: usize = 0;
    while i < segs.len()
        invariant
            i <= segs.len(),
            sv == segs@.map_values(|x: JsonValue| x@),
            r@.map_values(|p: Vec<char>| p@) == str_items(sv, i as int),
        decreases segs.len() - i,
    {
        let ghost r0 = r@;
        assert(sv[i as int] == segs@[i as int]@);
        match json_str(Some(&segs[i])) {
            Some(x) => {
                let c = chars_of(x.as_str());
                r.push(c);
                assert(r@.map_values(|p: Vec<char>| p@) =~= r0.map_values(|p: Vec<char>| p@).push(x@));
            },
            None => {},
        }
        i = i + 1;
    }
    r
}

/// A documented item: its path, rendered signature and docs.
struct ApiItem {
    path: Vec<char>,
    signature: Vec<char>,
    docs: Vec<char>,
}

impl View for ApiItem {
    type V = ItemV;

    closed spec fn view(&self) -> ItemV {
        ItemV { path: self.path@, signature: self.signature@, docs: self.docs@ }
    }
}

spec fn items_view(v: Seq<ApiItem>) -> Seq<ItemV> {
    v.map_values(|x: ApiItem| x@)
}

fn item_of_exec(
    id: &String,
    item: &JsonValue,
    paths: Option<&Vec<(String, JsonValue)>>,
    crate_name: &Vec<char>,
) -> (r: Option<ApiItem>)
    ensures
        match r {
            Some(it) => item_of(id@, item@, opt_entries(paths), crate_name@) == Some(it@),
            None => item_of(id@, item@, opt_entries(paths), crate_name@) is None,
        },
{
    let name = match json_str(json_get(item, "name")) {
        Some(n) => n,
        None => {
            return None;
        },
    };
    let name_c = chars_of(name.as_str());
    if name_c.len() == 0 {
        return None;
    }
    let (kind, inner) = match first_entry_exec(json_get(item, "inner")) {
        Some(e) => e,
        None => {
            return None;
        },
    };
    if is_lit(kind, "struct_field") || is_lit(kind, "variant") || is_lit(kind, "impl") || is_lit(kind, "module")
        || is_lit(kind, "use") {
        return None;
    }
    let idc = chars_of(id.as_str());
    let segs = array_of(json_oget(paths_find(paths, &idc), "path"));
    let under = match json_str(first_of_exec(segs)) {
        Some(f) => {
            let fc = chars_of(f.as_str());
            crate::text::chars_eq(&fc, crate_name)
        },
        None => false,
    };
    let local = match json_i64(json_get(item, "crate_id")) {
        Some(c) => c == 0,
        None => false,
    };
    if !under && !local {
        return None;
    }
    let path = match segs {
        Some(sg) => {
            let parts = str_items_exec(sg);
            let j = join_exec(&parts, "::");
            if j.len() > 0 {
                j
            } else {
                chars_of(name.as_str())
            }
        },
        None => chars_of(name.as_str()),
    };
    let docs = match json_str(json_get(item, "docs")) {
        Some(d) => chars_of(d.as_str()),
        None => Vec::new(),
    };
    let signature = render_signature_exec(kind, name, inner);
    Some(ApiItem { path, signature, docs })
}

fn sort_items_exec(items: Vec<ApiItem>) -> (r: Vec<ApiItem>)
    ensures
        items_view(r@) == sort_items(items_view(items@)),
{
    let ghost iv = items_view(items@);
    let mut sorted: Vec<ApiItem> = Vec::new();
    let mut src = items;
    let n = src.len();
    let mut k: usize = 0;
    let ghost rest0 = src@;
    while k < n
        invariant
            k <= n == iv.len(),
            src.len() == n - k,
            items_view(src@) == iv.skip(k as int),
            items_view(sorted@) == sort_items(iv.take(k as int)),
        decreases n - k,
    {
        let ghost s0 = src@;
        assert(items_view(s0)[0] == s0[0]@);
        let x = src.remove(0);
        assert(x@ == iv[k as int]);
        proof {
            assert(src@ =~= s0.subrange(1, s0.len() as int));
            assert forall|j: int| 0 <= j < items_view(src@).len() implies items_view(src@)[j] == iv.skip(k + 1)[j] by {
                assert(items_view(src@)[j] == src@[j]@);
                assert(src@[j] == s0[j + 1]);
                assert(items_view(s0)[j + 1] == s0[j + 1]@);
            }
            assert(items_view(src@) =~= iv.skip(k + 1));
        }
        let ghost sv = items_view(sorted@);
        let mut pos: usize = 0;
        assert(insert_pos(sv, x@, 0) == insert_pos(sv, x@, 0));
        while pos < sorted.len() && !text_before_exec(&x.path, &sorted[pos].path)
            invariant
                pos <= sorted.len(),
                sv == items_view(sorted@),
                insert_pos(sv, x@, 0) == insert_pos(sv, x@, pos as int),
            decreases sorted.len() - pos,
        {
            assert(sv[pos as int] == sorted@[pos as int]@);
            pos = pos + 1;
        }
        proof {
            if pos < sorted.len() {
                assert(sv[pos as int] == sorted@[pos as int]@);
            }
        }
        sorted.insert(pos, x);
        proof {
            assert(iv.take(k + 1).drop_last() =~= iv.take(k as int));
            assert(iv.take(k + 1).last() == iv[k as int]);
            assert(items_view(sorted@) =~= sv.insert(pos as int, x@));
        }
        k = k + 1;
    }
    assert(iv.take(k as int) =~= iv);
    sorted
}

fn push_item_markdown(out: &mut Vec<char>, it: &ApiItem, crate_name: &Vec<char>)
    ensures
        final(out)@ == old(out)@ + item_markdown(it@, crate_name@),
{
    let ghost o0 = out@;
    let mut pre = crate::text::copy_chars(crate_name);
    push_lit(&mut pre, "::");
    push_lit(out, "## ");
    if crate::text::starts_with(&it.path, &pre) {
        let h = crate::text::slice_chars(&it.path, pre.len(), it.path.len());
        assert(h@ =~= it.path@.skip(pre@.len() as int));
        push_all(out, &h);
    } else {
        push_all(out, &it.path);
    }
    push_lit(out, "\n\n```rust\n");
    push_all(out, &it.signature);
    push_lit(out, "\n```\n\n");
    let d = trim_chars(&it.docs);
    if d.len() > 0 {
        push_all(out, &d);
        push_lit(out, "\n\n");
    }
    assert(out@ =~= o0 + item_markdown(it@, crate_name@));
}

/// Converts rustdoc JSON into Markdown: a `#` heading with the crate name,
/// then one `##` heading per documented item (its path without the crate
/// prefix) with its signature in a Rust code block and its docs.  Malformed
/// JSON, or JSON without an `index` object, is a `LoreError::Parse`.
pub fn rustdoc_json_to_markdown(json: &str) -> (r: Result<String, LoreError>)
    ensures
        match spec_rustdoc_to_markdown(json@) {
            Ok(md) => r matches Ok(s) && s@ == md,
            Err(m) => r matches Err(LoreError::Parse(e)) && e@ == m,
        },
{
    match parse_json(json) {
        Ok(root) => rustdoc_value_to_markdown(&root),
        Err(e) => {
            let mut m = chars_of("invalid rustdoc JSON: ");
            let ec = chars_of(e.as_str());
            push_all(&mut m, &ec);
            Err(LoreError::Parse(string_of(&m)))
        },
    }
}

/// The Markdown of parsed rustdoc JSON (see [`rustdoc_json_to_markdown`]);
/// a root without an `index` object is a `LoreError::Parse`.
pub fn rustdoc_value_to_markdown(root: &JsonValue) -> (r: Result<String, LoreError>)
    ensures
        match spec_rustdoc_value_to_markdown(root@) {
            Ok(md) => r matches Ok(s) && s@ == md,
            Err(m) => r matches Err(LoreError::Parse(e)) && e@ == m,
        },
{
    let index = match object_of(json_get(&root, "index")) {
        Some(i) => i,
        None => {
            return Err(LoreError::Parse("rustdoc JSON missing `index`".to_string()));
        },
    };
    let paths = object_of(json_get(&root, "paths"));
    let cn = crate_name_exec(&root);
    let ghost ixv = entries_view(index@);
    let mut items: Vec<ApiItem> = Vec::new();
    let mut i: usize = 0;
    while i < index.len()
        invariant
            i <= index.len(),
            ixv == entries_view(index@),
            items_view(items@) == collect_items(ixv, i as int, opt_entries(paths), cn@),
        decreases index.len() - i,
    {
        let ghost r0 = items@;
        assert(ixv[i as int] == (index@[i as int].0@, index@[i as int].1@));
        match item_of_exec(&index[i].0, &index[i].1, paths, &cn) {
            Some(it) => {
                items.push(it);
                assert(items_view(items@) =~= items_view(r0).push(it@));
            },
            None => {},
        }
        i = i + 1;
    }
    let sorted = sort_items_exec(items);
    let mut out = chars_of("# ");
    push_all(&mut out, &cn);
    push_lit(&mut out, "\n\n");
    let ghost head = out@;
    let ghost sv = items_view(sorted@);
    let mut j: usize = 0;
    while j < sorted.len()
        invariant
            j <= sorted.len(),
            sv == items_view(sorted@),
            out@ == head + items_markdown(sv, cn@, j as int),
        decreases sorted.len() - j,
    {
        assert(sv[j as int] == sorted@[j as int]@);
        push_item_markdown(&mut out, &sorted[j], &cn);
        assert(out@ =~= head + items_markdown(sv, cn@, j + 1));
        j = j + 1;
    }
    proof {
        reveal_strlit("rustdoc JSON missing `index`");
    }
    Ok(string_of(&out))
}

} // verus!
