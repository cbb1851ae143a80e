use vstd::prelude::*;

use crate::text::{append_chars, chars_of, decimal, decimal_chars, string_of};

verus! {

/// A number of a JSON document, as the experiment description reads it: its value as an
/// `isize` and as a `usize` where it is an integer in range, and the text it prints as.
#[derive(Debug)]
pub struct JsonNumber {
    pub as_isize: Option<isize>,
    pub as_usize: Option<usize>,
    pub text: String,
}

/// A JSON value. Objects keep their entries in document order, each key once; arrays and
/// objects carry the compact JSON text they print as.
#[derive(Debug)]
pub enum Json {
    Null,
    Bool(bool),
    Str(String),
    Number(JsonNumber),
    Array { items: Vec<Json>, dump: String },
    Object { entries: Vec<(String, Json)>, dump: String },
}

/// The value under `key` among `es` (the first entry with that key).
pub open spec fn lookup(es: Seq<(String, Json)>, key: Seq<char>) -> Option<Json>
    decreases es.len(),
{
    if es.len() == 0 {
        None
    } else if es[0].0@ == key {
        Some(es[0].1)
    } else {
        lookup(es.drop_first(), key)
    }
}

/// `v[key]`: the value under `key` when `v` is an object that has it, `Null` otherwise.
pub open spec fn jget(v: Json, key: Seq<char>) -> Json {
    match v {
        Json::Object { entries, .. } => match lookup(entries@, key) {
            Some(x) => x,
            None => Json::Null,
        },
        _ => Json::Null,
    }
}

/// Whether `v` is an object with an entry `key`.
pub open spec fn jhas(v: Json, key: Seq<char>) -> bool {
    match v {
        Json::Object { entries, .. } => lookup(entries@, key) is Some,
        _ => false,
    }
}

/// The members of `v` when it is an array, none otherwise.
pub open spec fn jmembers(v: Json) -> Seq<Json> {
    match v {
        Json::Array { items, .. } => items@,
        _ => Seq::empty(),
    }
}

/// `v[i]`: member `i` of an array, `Null` when there is none.
pub open spec fn jat(v: Json, i: int) -> Json {
    if 0 <= i < jmembers(v).len() {
        jmembers(v)[i]
    } else {
        Json::Null
    }
}

/// The entries of `v` when it is an object, none otherwise.
pub open spec fn jentries(v: Json) -> Seq<(String, Json)> {
    match v {
        Json::Object { entries, .. } => entries@,
        _ => Seq::empty(),
    }
}

/// The text of `v` when it is a string.
pub open spec fn jstr(v: Json) -> Option<Seq<char>> {
    match v {
        Json::Str(s) => Some(s@),
        _ => None,
    }
}

/// What `v` prints as: a string as itself, `null`, `true`, `false`, a number or a
/// container as its JSON text.
pub open spec fn jdisplay(v: Json) -> Seq<char> {
    match v {
        Json::Null => "null"@,
        Json::Bool(b) => if b { "true"@ } else { "false"@ },
        Json::Str(s) => s@,
        Json::Number(n) => n.text@,
        Json::Array { dump, .. } => dump@,
        Json::Object { dump, .. } => dump@,
    }
}

/// The decimal text of a signed integer.
pub open spec fn signed_decimal(i: int) -> Seq<char> {
    if i < 0 {
        seq!['-'] + decimal((-i) as nat)
    } else {
        decimal(i as nat)
    }
}

/// The number of members of `v` when it is an array.
pub open spec fn jlen(v: Json) -> int {
    jmembers(v).len() as int
}

/// The text of the first `k` members of `v` (an array), each flattened without separator
/// and joined with `sep`; for any other `v`, its plain text. `None` where a number in it
/// is not an `isize`.
pub open spec fn text_upto(v: Json, sep: Seq<char>, k: int) -> Option<Seq<char>>
    decreases v, k,
{
    match v {
        Json::Array { items, .. } => {
            if k <= 0 || k > items.len() {
                Some(Seq::empty())
            } else {
                let e = items[k - 1];
                proof {
                    assert(decreases_to!(items => items[k - 1]));
                }
                match (text_upto(v, sep, k - 1), text_upto(e, Seq::empty(), jlen(e))) {
                    (Some(p), Some(t)) => Some(if k == 1 { t } else { p + sep + t }),
                    _ => None,
                }
            }
        },
        Json::Number(n) => match n.as_isize {
            Some(i) => Some(signed_decimal(i as int)),
            None => None,
        },
        Json::Str(s) => Some(s@),
        Json::Bool(b) => Some(if b { "true"@ } else { "false"@ }),
        _ => Some(Seq::empty()),
    }
}

/// The plain text of a JSON value: an array's members joined with `sep` (nested arrays
/// flattened without separator), a string as itself, an integer in decimal, a boolean as
/// `true`/`false`, anything else empty. `None` where a number in it is not an `isize`.
pub open spec fn jtext(v: Json, sep: Seq<char>) -> Option<Seq<char>> {
    text_upto(v, sep, jlen(v))
}

/// The decimal text of `i`.
pub fn signed_decimal_chars(i: isize) -> (r: Vec<char>)
    ensures
        r@ == signed_decimal(i as int),
{
    if i < 0 {
        let u: usize = ((-(i + 1)) as usize) + 1;
        let mut r: Vec<char> = Vec::new();
        r.push('-');
        let d = decimal_chars(u);
        append_chars(&mut r, &d);
        r
    } else {
        decimal_chars(i as usize)
    }
}

impl Json {
    /// `self[key]`, or `None` when `self` is not an object with that key.
    pub fn field(&self, key: &str) -> (r: Option<&Json>)
        ensures
            r is Some <==> jhas(*self, key@),
            jget(*self, key@) == match r {
                Some(x) => *x,
                None => Json::Null,
            },
    {
        match self {
            Json::Object { entries, .. } => {
                let k = chars_of(key);
                let mut i: usize = 0;
                assert(entries@.skip(0) == entries@);
                while i < entries.len()
                    invariant
                        *self matches Json::Object { entries: es, .. } && es == *entries,
                        k@ == key@,
                        i <= entries.len(),
                        lookup(entries@, key@) == lookup(entries@.skip(i as int), key@),
                    decreases entries.len() - i,
                {
                    let ek = chars_of(entries[i].0.as_str());
                    let ghost rest = entries@.skip(i as int);
                    assert(rest[0] == entries@[i as int]);
                    assert(rest.drop_first() == entries@.skip(i + 1));
                    if crate::text::same_chars(&ek, &k) {
                        return Some(&entries[i].1);
                    }
                    i += 1;
                }
                None
            },
            _ => None,
        }
    }

    /// What `self` prints as (see `jdisplay`).
    pub fn display(&self) -> (r: String)
        ensures
            r@ == jdisplay(*self),
    {
        match self {
            Json::Null => "null".to_owned(),
            Json::Bool(b) => if *b { "true".to_owned() } else { "false".to_owned() },
            Json::Str(s) => s.clone(),
            Json::Number(n) => n.text.clone(),
            Json::Array { dump, .. } => dump.clone(),
            Json::Object { dump, .. } => dump.clone(),
        }
    }

    /// The members of `self` when it is an array.
    pub fn members(&self) -> (r: Option<&Vec<Json>>)
        ensures
            match r {
                Some(v) => v@ == jmembers(*self),
                None => jmembers(*self).len() == 0,
            },
    {
        match self {
            Json::Array { items, .. } => Some(items),
            _ => None,
        }
    }

    /// The entries of `self` when it is an object.
    pub fn entries(&self) -> (r: Option<&Vec<(String, Json)>>)
        ensures
            match r {
                Some(v) => v@ == jentries(*self),
                None => jentries(*self).len() == 0,
            },
    {
        match self {
            Json::Object { entries, .. } => Some(entries),
            _ => None,
        }
    }

    /// The plain text of `self` (see `jtext`), or `None` where a number in it is not an
    /// `isize`.
    pub fn text(&self, sep: &str) -> (r: Option<String>)
        ensures
            match r {
                Some(s) => jtext(*self, sep@) == Some(s@),
                None => jtext(*self, sep@) is None,
            },
        decreases self,
    {
        match self {
            Json::Array { items, .. } => {
                let sv = chars_of(sep);
                let mut out: Vec<char> = Vec::new();
                let mut k: usize = 0;
                while k < items.len()
                    invariant
                        *self matches Json::Array { items: its, .. } && its == *items,
                        sv@ == sep@,
                        k <= items.len(),
                        text_upto(*self, sep@, k as int) == Some(out@),
                    decreases items.len() - k,
                {
                    proof {
                        assert(decreases_to!(items => items[k as int]));
                    }
                    match items[k].text("") {
                        Some(t) => {
                            proof {
                                reveal_strlit("");
                                assert(""@ =~= Seq::<char>::empty());
                            }
                            if k > 0 {
                                append_chars(&mut out, &sv);
                            }
                            let tv = chars_of(t.as_str());
                            let ghost o0 = out@;
                            append_chars(&mut out, &tv);
                            proof {
                                if k == 0 {
                                    assert(out@ == t@);
                                }
                            }
                        },
                        None => {
                            proof {
                                reveal_strlit("");
                                assert(""@ =~= Seq::<char>::empty());
                            }
                            let mut kk = k + 1;
                            while kk < items.len()
                                invariant
                                    *self matches Json::Array { items: its, .. } && its == *items,
                                    k < kk <= items.len(),
                                    text_upto(*self, sep@, kk as int) is None,
                                decreases items.len() - kk,
                            {
                                kk += 1;
                            }
                            return None;
                        },
                    }
                    k += 1;
                }
                Some(string_of(&out))
            },
            Json::Number(n) => match n.as_isize {
                Some(i) => Some(string_of(&signed_decimal_chars(i))),
                None => None,
            },
            Json::Str(s) => Some(s.clone()),
            Json::Bool(b) => if *b { Some("true".to_owned()) } else { Some("false".to_owned()) },
            _ => Some(String::new()),
        }
    }
}

/// What `parse_json` gives for the text `text`: the document that `json::parse` reads from
/// it, copied into a `Json`, or `None` where `json::parse` returns an error.
pub uninterp spec fn json_of(text: Seq<char>) -> Option<Json>;

#[verifier::external_type_specification]
#[verifier::external_body]
pub struct ExJsonValue(json::JsonValue);

/// Copies a value of `json::JsonValue` into a `Json`, one arm per variant: `Short` and
/// `String` become `Str` of the text they print as (the string itself), a number keeps what `as_isize`, `as_usize` and `to_string` give,
/// arrays and objects keep their members in order (`Object::iter` walks the entries in
/// insertion order) and the text `dump` gives. It is the copying half of `parse_json`.
#[verifier::external_body]
fn copy_json_value(v: &json::JsonValue) -> Json {
    match v {
        json::JsonValue::Null => Json::Null,
        json::JsonValue::Short(_) | json::JsonValue::String(_) => Json::Str(v.to_string()),
        json::JsonValue::Number(_) => Json::Number(
            JsonNumber { as_isize: v.as_isize(), as_usize: v.as_usize(), text: v.to_string() },
        ),
        json::JsonValue::Boolean(b) => Json::Bool(*b),
        json::JsonValue::Object(o) => Json::Object {
            entries: o.iter().map(|(k, x)| (k.to_string(), copy_json_value(x))).collect(),
            dump: v.dump(),
        },
        json::JsonValue::Array(a) => Json::Array { items: a.iter().map(copy_json_value).collect(), dump: v.dump() },
    }
}

/// Calls `json::parse` on `text` and copies the document into a `Json`; `None` where
/// `json::parse` returns an error. The result takes the grammar of JSON to state and is
/// named (`json_of`): it depends on the text alone.
#[verifier::external_body]
pub fn parse_json(text: &str) -> (r: Option<Json>)
    ensures
        r == json_of(text@),
{
    json::parse(text).ok().map(|v| copy_json_value(&v))
}

} // verus!
