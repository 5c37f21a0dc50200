//! A plain model of JSON documents as the job boards send them, with the
//! read operations that the site readers use: member and element access
//! (absent values read as `null`), typed reads, and the compact JSON text of
//! a value.
use vstd::prelude::*;

use crate::text::{decimal, decimal_string, digit_char, signed_decimal, signed_decimal_string};

verus! {

/// A JSON number, kept as JSON keeps it: a non-negative integer, a negative
/// integer, or any other number by its JSON text.
#[derive(Debug, PartialEq, Eq)]
pub enum JsonNumber {
    PosInt(u64),
    NegInt(i64),
    Float(String),
}

/// A JSON value. Object members keep the order of the document's map.
#[derive(Debug, PartialEq, Eq)]
pub enum Json {
    Null,
    Bool(bool),
    Number(JsonNumber),
    Str(String),
    Array(Vec<Json>),
    Object(Vec<(String, Json)>),
}

/// The first member of `members` named `key`, or `null` where none is.
pub open spec fn member_value(members: Seq<(String, Json)>, key: Seq<char>) -> Json
    decreases members.len(),
{
    if members.len() == 0 {
        Json::Null
    } else if members[0].0@ == key {
        members[0].1
    } else {
        member_value(members.drop_first(), key)
    }
}

/// `value[key]`: the member's value for an object, `null` otherwise.
pub open spec fn index_key(j: Json, key: Seq<char>) -> Json {
    match j {
        Json::Object(members) => member_value(members@, key),
        _ => Json::Null,
    }
}

/// `value[i]`: the element for an array, `null` otherwise.
pub open spec fn index_pos(j: Json, i: int) -> Json {
    match j {
        Json::Array(items) => if 0 <= i < items@.len() {
            items@[i]
        } else {
            Json::Null
        },
        _ => Json::Null,
    }
}

/// `value.as_u64()`.
pub open spec fn as_u64_spec(j: Json) -> Option<u64> {
    match j {
        Json::Number(JsonNumber::PosInt(n)) => Some(n),
        _ => None,
    }
}

/// `value.as_i64()`.
pub open spec fn as_i64_spec(j: Json) -> Option<i64> {
    match j {
        Json::Number(JsonNumber::PosInt(n)) => if n <= i64::MAX {
            Some(n as i64)
        } else {
            None
        },
        Json::Number(JsonNumber::NegInt(n)) => Some(n),
        _ => None,
    }
}

/// `value.as_str()`, by the string's characters.
pub open spec fn as_str_spec(j: Json) -> Option<Seq<char>> {
    match j {
        Json::Str(s) => Some(s@),
        _ => None,
    }
}

/// The lower-case hexadecimal digit of `d < 16`.
pub open spec fn hex_digit(d: nat) -> char {
    if d < 10 {
        digit_char(d)
    } else {
        ((d - 10 + 97) as u32) as char
    }
}

/// How JSON writes one character of a string: `"` and `\` behind a
/// backslash; backspace, tab, line feed, form feed and carriage return as
/// `\b`, `\t`, `\n`, `\f`, `\r`; the other characters below U+0020 as
/// `\u00` and two lower-case hex digits; everything else as it is.
pub open spec fn escaped_char(c: char) -> Seq<char> {
    let v = c as u32;
    if c == '"' {
        seq!['\\', '"']
    } else if c == '\\' {
        seq!['\\', '\\']
    } else if v == 8 {
        seq!['\\', 'b']
    } else if v == 9 {
        seq!['\\', 't']
    } else if v == 10 {
        seq!['\\', 'n']
    } else if v == 12 {
        seq!['\\', 'f']
    } else if v == 13 {
        seq!['\\', 'r']
    } else if v < 0x20 {
        seq!['\\', 'u', '0', '0', hex_digit((v / 16) as nat), hex_digit((v % 16) as nat)]
    } else {
        seq![c]
    }
}

/// The characters of `s`, each as JSON writes it inside a string.
pub open spec fn escaped_text(s: Seq<char>) -> Seq<char>
    decreases s.len(),
{
    if s.len() == 0 {
        seq![]
    } else {
        escaped_text(s.drop_last()) + escaped_char(s.last())
    }
}

/// The JSON text of a string (the text of `serde_json::Value::String`):
/// the escaped characters between two double quotes.
pub open spec fn json_quoted(s: Seq<char>) -> Seq<char> {
    seq!['"'] + escaped_text(s) + seq!['"']
}

/// A text that JSON writes without escapes: no double quote, no backslash,
/// no control character below U+0020.
pub open spec fn plain_json_text(s: Seq<char>) -> bool {
    forall|i: int|
        0 <= i < s.len() ==> #[trigger] s[i] != '"' && s[i] != '\\' && (s[i] as u32) >= 0x20
}

/// The string member `key` of `j`, where it is a plain text.
pub open spec fn plain_member(j: Json, key: Seq<char>) -> Option<Seq<char>> {
    match index_key(j, key) {
        Json::Str(s) => if plain_json_text(s@) {
            Some(s@)
        } else {
            None
        },
        _ => None,
    }
}

/// The compact JSON text of a value (`value.to_string()`).
pub open spec fn json_text(j: Json) -> Seq<char>
    decreases j,
{
    match j {
        Json::Null => seq!['n', 'u', 'l', 'l'],
        Json::Bool(b) => if b {
            seq!['t', 'r', 'u', 'e']
        } else {
            seq!['f', 'a', 'l', 's', 'e']
        },
        Json::Number(JsonNumber::PosInt(n)) => decimal(n as nat),
        Json::Number(JsonNumber::NegInt(n)) => signed_decimal(n as int),
        Json::Number(JsonNumber::Float(t)) => t@,
        Json::Str(s) => json_quoted(s@),
        Json::Array(items) => seq!['['] + list_text(items@) + seq![']'],
        Json::Object(members) => seq!['{'] + members_text(members@) + seq!['}'],
    }
}

/// The texts of `items`, separated by commas.
pub open spec fn list_text(items: Seq<Json>) -> Seq<char>
    decreases items,
{
    if items.len() == 0 {
        seq![]
    } else if items.len() == 1 {
        json_text(items[0])
    } else {
        list_text(items.subrange(0, items.len() - 1)) + seq![','] + json_text(items[items.len() - 1])
    }
}

/// The texts `"key":value` of `members`, separated by commas.
pub open spec fn members_text(members: Seq<(String, Json)>) -> Seq<char>
    decreases members,
{
    if members.len() == 0 {
        seq![]
    } else if members.len() == 1 {
        json_quoted(members[0].0@) + seq![':'] + json_text(members[0].1)
    } else {
        members_text(members.subrange(0, members.len() - 1)) + seq![','] + json_quoted(
            members[members.len() - 1].0@,
        ) + seq![':'] + json_text(members[members.len() - 1].1)
    }
}

/// A text with nothing to escape is its own escaped text.
pub proof fn lemma_plain_escaped(s: Seq<char>)
    requires
        plain_json_text(s),
    ensures
        escaped_text(s) == s,
    decreases s.len(),
{
    if s.len() > 0 {
        assert(plain_json_text(s.drop_last()));
        lemma_plain_escaped(s.drop_last());
        assert(s[s.len() - 1] == s.last());
        assert(s.drop_last().push(s.last()) =~= s);
    }
}

/// The JSON text of the string `s` (serde_json's `Value::String(s)`
/// displayed): `s` between double quotes, with the escapes of serde_json's
/// escape table (`ser.rs`, `ESCAPE` and `write_char_escape`).
#[verifier::external_body]
fn quote_json_string(s: &str) -> (r: String)
    ensures
        r@ == json_quoted(s@),
{
    serde_json::Value::String(s.to_owned()).to_string()
}

impl Json {
    /// `self[key]`: `None` exactly where serde_json reads `null` for a
    /// missing member or a non-object.
    pub fn member(&self, key: &str) -> (r: Option<&Json>)
        ensures
            r matches Some(v) ==> *v == index_key(*self, key@),
            r is None ==> index_key(*self, key@) == Json::Null,
    {
        match self {
            Json::Object(members) => {
                let mut i: usize = 0;
                assert(members@.skip(0) =~= members@);
                while i < members.len()
                    invariant
                        i <= members@.len(),
                        *self == Json::Object(*members),
                        member_value(members@, key@) == member_value(members@.skip(i as int), key@),
                    decreases members.len() - i,
                {
                    assert(members@.skip(i as int).drop_first() =~= members@.skip(i + 1));
                    assert(members@.skip(i as int)[0] == members@[i as int]);
                    if crate::text::same_text(members[i].0.as_str(), key) {
                        return Some(&members[i].1);
                    }
                    i = i + 1;
                }
                None
            },
            _ => None,
        }
    }

    /// `self[key]`, with `null` (the caller's `Json::Null`) for a missing
    /// member or a non-object.
    pub fn member_or<'a>(&'a self, key: &str, null: &'a Json) -> (r: &'a Json)
        requires
            *null == Json::Null,
        ensures
            *r == index_key(*self, key@),
    {
        match self.member(key) {
            Some(v) => v,
            None => null,
        }
    }

    /// `self[i]`, with `null` (the caller's `Json::Null`) for a missing
    /// element or a non-array.
    pub fn element_or<'a>(&'a self, i: usize, null: &'a Json) -> (r: &'a Json)
        requires
            *null == Json::Null,
        ensures
            *r == index_pos(*self, i as int),
    {
        match self.element(i) {
            Some(v) => v,
            None => null,
        }
    }

    /// `self[i]`: `None` exactly where serde_json reads `null`.
    pub fn element(&self, i: usize) -> (r: Option<&Json>)
        ensures
            r matches Some(v) ==> *v == index_pos(*self, i as int),
            r is None ==> index_pos(*self, i as int) == Json::Null,
    {
        match self {
            Json::Array(items) => if i < items.len() {
                Some(&items[i])
            } else {
                None
            },
            _ => None,
        }
    }

    /// `self.as_array()`.
    pub fn as_array(&self) -> (r: Option<&Vec<Json>>)
        ensures
            r matches Some(v) ==> *self == Json::Array(*v),
            r is None ==> !(*self is Array),
    {
        match self {
            Json::Array(items) => Some(items),
            _ => None,
        }
    }

    /// `self.as_str()`.
    pub fn as_str(&self) -> (r: Option<&str>)
        ensures
            r matches Some(s) ==> as_str_spec(*self) == Some(s@),
            r is None ==> as_str_spec(*self) is None,
    {
        match self {
            Json::Str(s) => Some(s.as_str()),
            _ => None,
        }
    }

    /// `self.as_u64()`.
    pub fn as_u64(&self) -> (r: Option<u64>)
        ensures
            r == as_u64_spec(*self),
    {
        match self {
            Json::Number(JsonNumber::PosInt(n)) => Some(*n),
            _ => None,
        }
    }

    /// `self.as_i64()`.
    pub fn as_i64(&self) -> (r: Option<i64>)
        ensures
            r == as_i64_spec(*self),
    {
        match self {
            Json::Number(JsonNumber::PosInt(n)) => if *n <= 0x7fff_ffff_ffff_ffff {
                Some(*n as i64)
            } else {
                None
            },
            Json::Number(JsonNumber::NegInt(n)) => Some(*n),
            _ => None,
        }
    }

    /// The compact JSON text of the value (`value.to_string()`).
    pub fn to_text(&self) -> (r: String)
        ensures
            r@ == json_text(*self),
            (match *self {
                Json::Str(s) => plain_json_text(s@) ==> r@ == seq!['"'] + s@ + seq!['"'],
                _ => true,
            }),
        decreases self,
    {
        match self {
            Json::Null => {
                let r = String::from_str("null");
                proof {
                    reveal_strlit("null");
                }
                r
            },
            Json::Bool(b) => {
                if *b {
                    let r = String::from_str("true");
                    proof {
                        reveal_strlit("true");
                    }
                    r
                } else {
                    let r = String::from_str("false");
                    proof {
                        reveal_strlit("false");
                    }
                    r
                }
            },
            Json::Number(JsonNumber::PosInt(n)) => decimal_string(*n),
            Json::Number(JsonNumber::NegInt(n)) => signed_decimal_string(*n),
            Json::Number(JsonNumber::Float(t)) => t.clone(),
            Json::Str(s) => {
                proof {
                    if plain_json_text(s@) {
                        lemma_plain_escaped(s@);
                    }
                }
                quote_json_string(s.as_str())
            },
            Json::Array(items) => {
                let mut r = String::from_str("[");
                proof {
                    reveal_strlit("[");
                }
                let mut i: usize = 0;
                while i < items.len()
                    invariant
                        i <= items@.len(),
                        *self == Json::Array(*items),
                        r@ == seq!['['] + list_text(items@.subrange(0, i as int)),
                    decreases items.len() - i,
                {
                    if i > 0 {
                        r.append(",");
                        proof {
                            reveal_strlit(",");
                        }
                    }
                    proof {
                        assert(decreases_to!(*self => self->Array_0));
                        assert(decreases_to!(*items => items@));
                        assert(decreases_to!(items@ => items@[i as int]));
                    }
                    let t = items[i].to_text();
                    r.append(t.as_str());
                    assert(items@.subrange(0, i + 1).subrange(0, i as int) =~= items@.subrange(
                        0,
                        i as int,
                    ));
                    i = i + 1;
                }
                r.append("]");
                proof {
                    reveal_strlit("]");
                }
                assert(items@.subrange(0, items@.len() as int) =~= items@);
                r
            },
            Json::Object(members) => {
                let mut r = String::from_str("{");
                proof {
                    reveal_strlit("{");
                }
                let mut i: usize = 0;
                while i < members.len()
                    invariant
                        i <= members@.len(),
                        *self == Json::Object(*members),
                        r@ == seq!['{'] + members_text(members@.subrange(0, i as int)),
                    decreases members.len() - i,
                {
                    if i > 0 {
                        r.append(",");
                        proof {
                            reveal_strlit(",");
                        }
                    }
                    let k = quote_json_string(members[i].0.as_str());
                    r.append(k.as_str());
                    r.append(":");
                    proof {
                        reveal_strlit(":");
                        assert(decreases_to!(*self => self->Object_0));
                        assert(decreases_to!(*members => members@));
                        assert(decreases_to!(members@ => members@[i as int]));
                        assert(decreases_to!(members@[i as int] => members@[i as int].1));
                    }
                    let t = members[i].1.to_text();
                    r.append(t.as_str());
                    assert(members@.subrange(0, i + 1).subrange(0, i as int) =~= members@.subrange(
                        0,
                        i as int,
                    ));
                    i = i + 1;
                }
                r.append("}");
                proof {
                    reveal_strlit("}");
                }
                assert(members@.subrange(0, members@.len() as int) =~= members@);
                r
            },
        }
    }
}

} // verus!
