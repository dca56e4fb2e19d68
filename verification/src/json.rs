//! JSON values held as plain data, their canonical form and their text.

use vstd::prelude::*;
use crate::decimal::{decimal, signed_text, unsigned_text};
use crate::maps::put;
use crate::order::{
    inserted, is_text_before, lemma_text_transitive, lemma_text_trichotomy, sorted_by,
    strict_weak_order, text_before,
};
use crate::text::{join, joined, str_eq, views};

verus! {

/// A JSON number. What is neither an unsigned nor a negative 64-bit integer keeps its text.
#[derive(Debug, PartialEq, Eq)]
pub enum JsonNumber {
    Unsigned(u64),
    Negative(i64),
    Decimal(String),
}

/// A JSON value. An object keeps its members in the order in which they are walked.
#[derive(Debug, PartialEq, Eq)]
pub enum Json {
    Null,
    Bool(bool),
    Number(JsonNumber),
    Text(String),
    Array(Vec<Json>),
    Object(Vec<(String, Json)>),
}

/// The mathematical value of a JSON number.
pub enum JsonNumberView {
    Unsigned(u64),
    Negative(i64),
    Decimal(Seq<char>),
}

/// The mathematical value of a JSON document.
pub enum JsonView {
    Null,
    Bool(bool),
    Number(JsonNumberView),
    Text(Seq<char>),
    Array(Seq<JsonView>),
    Object(Seq<(Seq<char>, JsonView)>),
}

impl View for JsonNumber {
    type V = JsonNumberView;

    open spec fn view(&self) -> JsonNumberView {
        match *self {
            JsonNumber::Unsigned(n) => JsonNumberView::Unsigned(n),
            JsonNumber::Negative(n) => JsonNumberView::Negative(n),
            JsonNumber::Decimal(text) => JsonNumberView::Decimal(text@),
        }
    }
}

/// The view of a JSON value.
pub open spec fn json_view(value: Json) -> JsonView
    decreases value,
{
    match value {
        Json::Null => JsonView::Null,
        Json::Bool(b) => JsonView::Bool(b),
        Json::Number(n) => JsonView::Number(n@),
        Json::Text(text) => JsonView::Text(text@),
        Json::Array(items) => JsonView::Array(
            Seq::new(
                items@.len(),
                |i: int|
                    if 0 <= i < items@.len() {
                        json_view(items@[i])
                    } else {
                        JsonView::Null
                    },
            ),
        ),
        Json::Object(members) => JsonView::Object(
            Seq::new(
                members@.len(),
                |i: int|
                    if 0 <= i < members@.len() {
                        (members@[i].0@, json_view(members@[i].1))
                    } else {
                        (seq![], JsonView::Null)
                    },
            ),
        ),
    }
}

impl View for Json {
    type V = JsonView;

    open spec fn view(&self) -> JsonView {
        json_view(*self)
    }
}

/// The views of the members of an object.
pub open spec fn member_views(members: Seq<(String, Json)>) -> Seq<(Seq<char>, JsonView)> {
    members.map_values(|member: (String, Json)| (member.0@, member.1@))
}

/// An array's view holds the views of its items.
pub proof fn lemma_array_view(items: Vec<Json>)
    ensures
        Json::Array(items)@ == JsonView::Array(views(items@)),
{
    assert(Json::Array(items)@->Array_0 =~= views(items@));
}

/// An object's view holds the views of its members.
pub proof fn lemma_object_view(members: Vec<(String, Json)>)
    ensures
        Json::Object(members)@ == JsonView::Object(member_views(members@)),
{
    assert(Json::Object(members)@->Object_0 =~= member_views(members@));
}

/// The value of the first member named `key`.
pub open spec fn find_member(members: Seq<(Seq<char>, JsonView)>, key: Seq<char>) -> Option<JsonView>
    decreases members.len(),
{
    if members.len() == 0 {
        None
    } else if members[0].0 == key {
        Some(members[0].1)
    } else {
        find_member(members.drop_first(), key)
    }
}

impl JsonView {
    /// The value of the member named `key`, if this is an object that has it.
    pub open spec fn member(self, key: Seq<char>) -> Option<JsonView> {
        match self {
            JsonView::Object(members) => find_member(members, key),
            _ => None,
        }
    }

    /// The text, if this is one.
    pub open spec fn text(self) -> Option<Seq<char>> {
        match self {
            JsonView::Text(text) => Some(text),
            _ => None,
        }
    }

    /// The text of the member named `key`, if this is an object that has it and it is a text.
    pub open spec fn member_text(self, key: Seq<char>) -> Option<Seq<char>> {
        match self.member(key) {
            Some(value) => value.text(),
            None => None,
        }
    }
}

/// The order of members by their names.
pub open spec fn by_key() -> spec_fn((Seq<char>, JsonView), (Seq<char>, JsonView)) -> bool {
    |x: (Seq<char>, JsonView), y: (Seq<char>, JsonView)| text_before(x.0, y.0)
}

/// The members in the order of their names.
pub open spec fn sorted_members(members: Seq<(Seq<char>, JsonView)>) -> Seq<(Seq<char>, JsonView)> {
    sorted_by(members, by_key())
}

/// The canonical form of a value: the members of every object in the order of their names.
pub open spec fn canonical(value: JsonView) -> JsonView
    decreases value,
{
    match value {
        JsonView::Array(items) => JsonView::Array(canonical_items(items)),
        JsonView::Object(members) => JsonView::Object(sorted_members(canonical_members(members))),
        other => other,
    }
}

/// The canonical forms of the items of an array.
pub open spec fn canonical_items(items: Seq<JsonView>) -> Seq<JsonView>
    decreases items,
{
    Seq::new(
        items.len(),
        |i: int|
            if 0 <= i < items.len() {
                canonical(items[i])
            } else {
                JsonView::Null
            },
    )
}

/// The members of an object, in their order, with canonical values.
pub open spec fn canonical_members(members: Seq<(Seq<char>, JsonView)>) -> Seq<(Seq<char>, JsonView)>
    decreases members,
{
    Seq::new(
        members.len(),
        |i: int|
            if 0 <= i < members.len() {
                (members[i].0, canonical(members[i].1))
            } else {
                (seq![], JsonView::Null)
            },
    )
}

/// The lowercase hexadecimal digit of a number below sixteen.
pub open spec fn hex_digit(n: int) -> char {
    "0123456789abcdef"@[n]
}

/// A character as it stands in a string literal of JSON: quotation marks, backslashes and control
/// characters are escaped.
pub open spec fn json_char(c: char) -> Seq<char> {
    match c {
        '"' => "\\\""@,
        '\\' => "\\\\"@,
        '\u{8}' => "\\b"@,
        '\t' => "\\t"@,
        '\n' => "\\n"@,
        '\u{c}' => "\\f"@,
        '\r' => "\\r"@,
        _ => if (c as int) < 0x20 {
            "\\u00"@ + seq![hex_digit(c as int / 16), hex_digit(c as int % 16)]
        } else {
            seq![c]
        },
    }
}

/// The characters of a text as they stand in a string literal of JSON.
pub open spec fn json_chars(text: Seq<char>) -> Seq<char>
    decreases text.len(),
{
    if text.len() == 0 {
        seq![]
    } else {
        json_chars(text.drop_last()) + json_char(text.last())
    }
}

/// A text as a string literal of JSON.
pub open spec fn json_quoted(text: Seq<char>) -> Seq<char> {
    "\""@ + json_chars(text) + "\""@
}

/// Quotes a text with `serde_json::to_string`, which writes a string literal of JSON.
///
/// The claim is what stands in the literal: the text between quotation marks, in which quotation
/// marks, backslashes and the control characters below the space are escaped, by a letter where
/// there is one for them and else by their number, and nothing else.
#[verifier::external_body]
fn quote(text: &str) -> (r: String)
    ensures
        r@ == json_quoted(text@),
{
    serde_json::to_string(text).unwrap_or_default()
}

/// The compact JSON text of a value: no white space, members and items in their order.
pub open spec fn rendered(value: JsonView) -> Seq<char>
    decreases value,
{
    match value {
        JsonView::Null => "null"@,
        JsonView::Bool(b) => if b {
            "true"@
        } else {
            "false"@
        },
        JsonView::Number(JsonNumberView::Unsigned(n)) => decimal(n as int),
        JsonView::Number(JsonNumberView::Negative(n)) => decimal(n as int),
        JsonView::Number(JsonNumberView::Decimal(text)) => text,
        JsonView::Text(text) => json_quoted(text),
        JsonView::Array(items) => "["@ + joined(rendered_items(items), ","@) + "]"@,
        JsonView::Object(members) => "{"@ + joined(rendered_members(members), ","@) + "}"@,
    }
}

/// The compact texts of the items of an array.
pub open spec fn rendered_items(items: Seq<JsonView>) -> Seq<Seq<char>>
    decreases items,
{
    Seq::new(
        items.len(),
        |i: int|
            if 0 <= i < items.len() {
                rendered(items[i])
            } else {
                seq![]
            },
    )
}

/// The compact texts of the members of an object.
pub open spec fn rendered_members(members: Seq<(Seq<char>, JsonView)>) -> Seq<Seq<char>>
    decreases members,
{
    Seq::new(
        members.len(),
        |i: int|
            if 0 <= i < members.len() {
                json_quoted(members[i].0) + ":"@ + rendered(members[i].1)
            } else {
                seq![]
            },
    )
}

impl Clone for JsonNumber {
    fn clone(&self) -> (r: JsonNumber)
        ensures
            r@ == self@,
    {
        match self {
            JsonNumber::Unsigned(n) => JsonNumber::Unsigned(*n),
            JsonNumber::Negative(n) => JsonNumber::Negative(*n),
            JsonNumber::Decimal(text) => JsonNumber::Decimal(text.clone()),
        }
    }
}

impl Clone for Json {
    fn clone(&self) -> (r: Json)
        ensures
            r@ == self@,
        decreases self,
    {
        match self {
            Json::Null => Json::Null,
            Json::Bool(b) => Json::Bool(*b),
            Json::Number(n) => Json::Number(n.clone()),
            Json::Text(text) => Json::Text(text.clone()),
            Json::Array(items) => {
                let mut out: Vec<Json> = Vec::new();
                let mut i: usize = 0;
                while i < items.len()
                    invariant
                        *self == Json::Array(*items),
                        i <= items@.len(),
                        out@.len() == i,
                        forall|j: int| 0 <= j < i ==> (#[trigger] out@[j])@ == items@[j]@,
                    decreases items@.len() - i,
                {
                    assert(decreases_to!(self => self->Array_0@[i as int]));
                    out.push(items[i].clone());
                    i += 1;
                }
                proof {
                    lemma_array_view(out);
                    lemma_array_view(*items);
                    assert(views(out@) =~= views(items@));
                }
                Json::Array(out)
            },
            Json::Object(members) => {
                let mut out: Vec<(String, Json)> = Vec::new();
                let mut i: usize = 0;
                while i < members.len()
                    invariant
                        *self == Json::Object(*members),
                        i <= members@.len(),
                        out@.len() == i,
                        forall|j: int|
                            0 <= j < i ==> (#[trigger] out@[j]).0@ == members@[j].0@ && out@[j].1@
                                == members@[j].1@,
                    decreases members@.len() - i,
                {
                    assert(decreases_to!(self => self->Object_0@[i as int].1));
                    out.push((members[i].0.clone(), members[i].1.clone()));
                    i += 1;
                }
                proof {
                    lemma_object_view(out);
                    lemma_object_view(*members);
                    assert(member_views(out@) =~= member_views(members@));
                }
                Json::Object(out)
            },
        }
    }
}

/// A JSON text.
pub fn json_text(text: &str) -> (r: Json)
    ensures
        r@ == JsonView::Text(text@),
{
    Json::Text(text.to_owned())
}

/// A JSON text, or null where there is none.
pub open spec fn opt_text_view(text: Option<Seq<char>>) -> JsonView {
    match text {
        Some(text) => JsonView::Text(text),
        None => JsonView::Null,
    }
}

/// A JSON text, or null where there is none.
pub fn json_opt_text(text: &Option<String>) -> (r: Json)
    ensures
        r@ == opt_text_view(crate::text::view_opt(*text)),
{
    match text {
        Some(text) => json_text(text.as_str()),
        None => Json::Null,
    }
}

/// A JSON number.
pub fn json_number(n: u64) -> (r: Json)
    ensures
        r@ == JsonView::Number(JsonNumberView::Unsigned(n)),
{
    Json::Number(JsonNumber::Unsigned(n))
}

/// The number that stands for a signed integer.
pub open spec fn integer_view(n: i64) -> JsonNumberView {
    if n < 0 {
        JsonNumberView::Negative(n)
    } else {
        JsonNumberView::Unsigned(n as u64)
    }
}

/// A JSON number for a signed integer.
pub fn json_integer(n: i64) -> (r: Json)
    ensures
        r@ == JsonView::Number(integer_view(n)),
{
    if n < 0 {
        Json::Number(JsonNumber::Negative(n))
    } else {
        Json::Number(JsonNumber::Unsigned(n as u64))
    }
}

/// An object's member.
pub fn member(key: &str, value: Json) -> (r: (String, Json))
    ensures
        r.0@ == key@,
        r.1@ == value@,
{
    (key.to_owned(), value)
}

/// An object of the given members.
pub fn json_object(members: Vec<(String, Json)>) -> (r: Json)
    ensures
        r@ == JsonView::Object(member_views(members@)),
{
    proof {
        lemma_object_view(members);
    }
    Json::Object(members)
}

/// An array of the given items.
pub fn json_array(items: Vec<Json>) -> (r: Json)
    ensures
        r@ == JsonView::Array(views(items@)),
{
    proof {
        lemma_array_view(items);
    }
    Json::Array(items)
}

/// The value of the first member named `key`.
pub fn lookup<'a>(members: &'a Vec<(String, Json)>, key: &str) -> (r: Option<&'a Json>)
    ensures
        r matches Some(value) ==> find_member(member_views(members@), key@) == Some(value@),
        r is None ==> find_member(member_views(members@), key@) is None,
{
    let ghost all = member_views(members@);
    let mut i: usize = 0;
    assert(all.skip(0) == all);
    while i < members.len()
        invariant
            i <= members@.len(),
            all == member_views(members@),
            find_member(all, key@) == find_member(all.skip(i as int), key@),
        decreases members@.len() - i,
    {
        assert(all.skip(i as int)[0] == all[i as int]);
        if str_eq(members[i].0.as_str(), key) {
            return Some(&members[i].1);
        }
        assert(all.skip(i as int).drop_first() == all.skip(i + 1));
        i += 1;
    }
    None
}

impl Json {
    /// The value of the member named `key`, if this is an object that has it.
    pub fn get(&self, key: &str) -> (r: Option<&Json>)
        ensures
            r matches Some(value) ==> self@.member(key@) == Some(value@),
            r is None ==> self@.member(key@) is None,
    {
        match self {
            Json::Object(members) => {
                proof {
                    lemma_object_view(*members);
                }
                lookup(members, key)
            },
            _ => None,
        }
    }

    /// The text, if this is one.
    pub fn as_str(&self) -> (r: Option<&str>)
        ensures
            r matches Some(text) ==> self@.text() == Some(text@),
            r is None ==> self@.text() is None,
    {
        match self {
            Json::Text(text) => Some(text.as_str()),
            _ => None,
        }
    }

    /// The text of the member named `key`, if this is an object that has it and it is a text.
    pub fn get_str(&self, key: &str) -> (r: Option<&str>)
        ensures
            r matches Some(text) ==> self@.member_text(key@) == Some(text@),
            r is None ==> self@.member_text(key@) is None,
    {
        match self.get(key) {
            Some(value) => value.as_str(),
            None => None,
        }
    }

    /// The canonical form of the value.
    pub fn canonicalize(&self) -> (r: Json)
        ensures
            r@ == canonical(self@),
        decreases self,
    {
        match self {
            Json::Array(items) => {
                let mut out: Vec<Json> = Vec::new();
                let mut i: usize = 0;
                while i < items.len()
                    invariant
                        *self == Json::Array(*items),
                        i <= items@.len(),
                        out@.len() == i,
                        forall|j: int| 0 <= j < i ==> (#[trigger] out@[j])@ == canonical(items@[j]@),
                    decreases items@.len() - i,
                {
                    assert(decreases_to!(self => self->Array_0@[i as int]));
                    out.push(items[i].canonicalize());
                    i += 1;
                }
                proof {
                    lemma_array_view(out);
                    lemma_array_view(*items);
                    assert(views(out@) =~= canonical_items(views(items@)));
                }
                Json::Array(out)
            },
            Json::Object(members) => {
                let mut out: Vec<(String, Json)> = Vec::new();
                let mut i: usize = 0;
                while i < members.len()
                    invariant
                        *self == Json::Object(*members),
                        i <= members@.len(),
                        out@.len() == i,
                        forall|j: int|
                            0 <= j < i ==> (#[trigger] out@[j]).0@ == members@[j].0@ && out@[j].1@
                                == canonical(members@[j].1@),
                    decreases members@.len() - i,
                {
                    assert(decreases_to!(self => self->Object_0@[i as int].1));
                    out.push((members[i].0.clone(), members[i].1.canonicalize()));
                    i += 1;
                }
                let ghost unsorted = out@;
                let sorted = sort_members(out);
                proof {
                    lemma_object_view(sorted);
                    lemma_object_view(*members);
                    assert(member_views(unsorted) =~= canonical_members(member_views(members@)));
                }
                Json::Object(sorted)
            },
            other => other.clone(),
        }
    }

    /// The compact JSON text of the value.
    pub fn render(&self) -> (r: String)
        ensures
            r@ == rendered(self@),
        decreases self,
    {
        match self {
            Json::Null => "null".to_owned(),
            Json::Bool(b) => if *b {
                "true".to_owned()
            } else {
                "false".to_owned()
            },
            Json::Number(JsonNumber::Unsigned(n)) => unsigned_text(*n),
            Json::Number(JsonNumber::Negative(n)) => signed_text(*n),
            Json::Number(JsonNumber::Decimal(text)) => text.clone(),
            Json::Text(text) => quote(text.as_str()),
            Json::Array(items) => {
                let mut parts: Vec<String> = Vec::new();
                let mut i: usize = 0;
                while i < items.len()
                    invariant
                        *self == Json::Array(*items),
                        i <= items@.len(),
                        parts@.len() == i,
                        forall|j: int| 0 <= j < i ==> (#[trigger] parts@[j])@ == rendered(items@[j]@),
                    decreases items@.len() - i,
                {
                    assert(decreases_to!(self => self->Array_0@[i as int]));
                    parts.push(items[i].render());
                    i += 1;
                }
                let mut out = "[".to_owned();
                out.append(join(&parts, ",").as_str());
                out.append("]");
                proof {
                    lemma_array_view(*items);
                    assert(views(parts@) =~= rendered_items(views(items@)));
                }
                out
            },
            Json::Object(members) => {
                let mut parts: Vec<String> = Vec::new();
                let mut i: usize = 0;
                while i < members.len()
                    invariant
                        *self == Json::Object(*members),
                        i <= members@.len(),
                        parts@.len() == i,
                        forall|j: int|
                            0 <= j < i ==> (#[trigger] parts@[j])@ == json_quoted(members@[j].0@) + ":"@
                                + rendered(members@[j].1@),
                    decreases members@.len() - i,
                {
                    assert(decreases_to!(self => self->Object_0@[i as int].1));
                    let mut part = quote(members[i].0.as_str());
                    part.append(":");
                    part.append(members[i].1.render().as_str());
                    parts.push(part);
                    i += 1;
                }
                let mut out = "{".to_owned();
                out.append(join(&parts, ",").as_str());
                out.append("}");
                proof {
                    lemma_object_view(*members);
                    assert(views(parts@) =~= rendered_members(member_views(members@)));
                }
                out
            },
        }
    }
}

/// Puts a member among members in the order of their names, in place of the one of its name.
pub fn put_member(members: &mut Vec<(String, Json)>, key: &str, value: Json)
    ensures
        member_views(final(members)@) == put(member_views(old(members)@), key@, value@),
{
    let ghost all = member_views(members@);
    let mut i: usize = 0;
    assert(all.skip(0) =~= all);
    assert(put(all, key@, value@) =~= all.take(0) + put(all.skip(0), key@, value@));
    while i < members.len() && !str_eq(members[i].0.as_str(), key) && !is_text_before(
        key,
        members[i].0.as_str(),
    )
        invariant
            i <= members@.len(),
            members@ == old(members)@,
            all == member_views(members@),
            put(all, key@, value@) == all.take(i as int) + put(all.skip(i as int), key@, value@),
        decreases members@.len() - i,
    {
        proof {
            let rest = all.skip(i as int);
            assert(rest[0] == all[i as int]);
            assert(rest.drop_first() =~= all.skip(i + 1));
            assert(put(rest, key@, value@) == seq![rest[0]] + put(all.skip(i + 1), key@, value@));
            assert(all.take(i as int) + (seq![rest[0]] + put(all.skip(i + 1), key@, value@))
                =~= all.take(i + 1) + put(all.skip(i + 1), key@, value@));
        }
        i += 1;
    }
    let ghost rest = all.skip(i as int);
    if i < members.len() && str_eq(members[i].0.as_str(), key) {
        let _old = members.remove(i);
        members.insert(i, (key.to_owned(), value));
        proof {
            assert(rest[0] == all[i as int]);
            assert(member_views(members@) =~= all.take(i as int) + (seq![(key@, value@)]
                + rest.drop_first()));
        }
    } else {
        proof {
            if i < all.len() {
                assert(rest[0] == all[i as int]);
            } else {
                assert(rest =~= Seq::<(Seq<char>, JsonView)>::empty());
            }
            assert(put(rest, key@, value@) =~= seq![(key@, value@)] + rest);
        }
        members.insert(i, (key.to_owned(), value));
        assert(member_views(members@) =~= all.take(i as int) + (seq![(key@, value@)] + rest));
    }
}

/// Sorts members by their names.
pub fn sort_members(members: Vec<(String, Json)>) -> (r: Vec<(String, Json)>)
    ensures
        member_views(r@) == sorted_members(member_views(members@)),
{
    let ghost all = member_views(members@);
    let mut out: Vec<(String, Json)> = Vec::new();
    assert(all.take(0) == Seq::<(Seq<char>, JsonView)>::empty());
    assert(member_views(out@) =~= sorted_members(all.take(0)));
    for item in it: members
        invariant
            it.seq() == members@,
            all == member_views(members@),
            member_views(out@) == sorted_members(all.take(it.index())),
    {
        let mut at: usize = out.len();
        let ghost sorted = member_views(out@);
        let ghost x = (item.0@, item.1@);
        assert(sorted.take(sorted.len() as int) == sorted);
        assert(inserted(sorted, x, by_key()) == inserted(sorted, x, by_key()) + sorted.skip(
            sorted.len() as int,
        ));
        while at > 0 && is_text_before(item.0.as_str(), out[at - 1].0.as_str())
            invariant
                at <= out@.len(),
                x == (item.0@, item.1@),
                sorted == member_views(out@),
                inserted(sorted, x, by_key()) == inserted(sorted.take(at as int), x, by_key())
                    + sorted.skip(at as int),
            decreases at,
        {
            proof {
                let front = sorted.take(at as int);
                assert(front.last() == sorted[at - 1]);
                assert(front.drop_last() == sorted.take(at - 1));
                assert(inserted(front, x, by_key()) == inserted(sorted.take(at - 1), x, by_key()).push(
                    sorted[at - 1],
                ));
                assert(inserted(sorted.take(at - 1), x, by_key()).push(sorted[at - 1]) + sorted.skip(
                    at as int,
                ) == inserted(sorted.take(at - 1), x, by_key()) + sorted.skip(at - 1));
            }
            at -= 1;
        }
        proof {
            let front = sorted.take(at as int);
            if at > 0 {
                assert(front.last() == sorted[at - 1]);
            }
            assert(inserted(front, x, by_key()) == front.push(x));
            assert(front.push(x) + sorted.skip(at as int) == sorted.insert(at as int, x));
            let next = all.take(it.index() + 1);
            assert(next.drop_last() == all.take(it.index()));
            assert(next.last() == x);
        }
        out.insert(at, item);
        assert(member_views(out@) =~= sorted.insert(at as int, x));
    }
    assert(all.take(all.len() as int) == all);
    out
}

/// Names are ordered strictly.
pub proof fn lemma_by_key_order()
    ensures
        strict_weak_order(by_key()),
{
    let less = by_key();
    assert forall|x: (Seq<char>, JsonView), y: (Seq<char>, JsonView)| #[trigger]
        less(x, y) implies !less(y, x) by {
        lemma_text_trichotomy(x.0, y.0);
    }
    assert forall|
        x: (Seq<char>, JsonView),
        y: (Seq<char>, JsonView),
        z: (Seq<char>, JsonView),
    |
        #![trigger less(x, y), less(y, z)]
        !less(x, y) && !less(y, z) implies !less(x, z) by {
        lemma_text_trichotomy(x.0, y.0);
        lemma_text_trichotomy(y.0, z.0);
        lemma_text_trichotomy(x.0, z.0);
        if less(x, z) && x.0 != y.0 && y.0 != z.0 {
            lemma_text_transitive(z.0, y.0, x.0);
        }
    }
}

/// A member is the first of its name, and there where one has the name.
pub proof fn law_the_first_member_of_a_name_counts(
    members: Seq<(Seq<char>, JsonView)>,
    key: Seq<char>,
    k: int,
)
    ensures
        0 <= k < members.len() && members[k].0 == key && (forall|j: int|
            0 <= j < k ==> (#[trigger] members[j]).0 != key) ==> find_member(members, key) == Some(
            members[k].1,
        ),
        (forall|j: int| 0 <= j < members.len() ==> (#[trigger] members[j]).0 != key) ==> find_member(
            members,
            key,
        ) is None,
    decreases members.len(),
{
    if members.len() > 0 {
        let rest = members.drop_first();
        law_the_first_member_of_a_name_counts(rest, key, k - 1);
        assert forall|j: int| 0 <= j < rest.len() implies #[trigger] rest[j] == members[j + 1] by {}
    }
}

/// Only objects have members, and a member's text is what stands there as text.
pub proof fn law_only_objects_have_members(value: JsonView, key: Seq<char>, text: Seq<char>)
    ensures
        !(value is Object) ==> value.member(key) is None,
        value matches JsonView::Object(members) ==> value.member(key) == find_member(members, key),
        value.member_text(key) == Some(text) <==> value.member(key) == Some(JsonView::Text(text)),
{
}

/// A character stands for itself in a quoted text, but for quotation marks, backslashes and control
/// characters, which stand behind a backslash.
pub proof fn law_only_marks_and_controls_are_escaped(c: char)
    ensures
        (c as int) >= 0x20 && c != '"' && c != '\\' ==> json_char(c) == seq![c],
        (c as int) < 0x20 || c == '"' || c == '\\' ==> json_char(c).len() >= 2 && json_char(c)[0]
            == '\\',
        c == '"' ==> json_char(c) == seq!['\\', '"'],
        c == '\\' ==> json_char(c) == seq!['\\', '\\'],
        c == '\n' ==> json_char(c) == seq!['\\', 'n'],
        c == '\r' ==> json_char(c) == seq!['\\', 'r'],
        c == '\t' ==> json_char(c) == seq!['\\', 't'],
{
    reveal_strlit("\\\"");
    reveal_strlit("\\\\");
    reveal_strlit("\\b");
    reveal_strlit("\\t");
    reveal_strlit("\\n");
    reveal_strlit("\\f");
    reveal_strlit("\\r");
    reveal_strlit("\\u00");
    assert("\\\""@ =~= seq!['\\', '"']);
    assert("\\\\"@ =~= seq!['\\', '\\']);
    assert("\\n"@ =~= seq!['\\', 'n']);
    assert("\\r"@ =~= seq!['\\', 'r']);
    assert("\\t"@ =~= seq!['\\', 't']);
}

/// The text of a value is compact: items and members stand between brackets with a comma between
/// two and no space; a member is its quoted name, a colon and its value.
pub proof fn law_values_are_written_compactly(
    items: Seq<JsonView>,
    item: JsonView,
    members: Seq<(Seq<char>, JsonView)>,
    name: Seq<char>,
)
    ensures
        rendered(JsonView::Null) == "null"@,
        rendered(JsonView::Bool(true)) == "true"@,
        rendered(JsonView::Bool(false)) == "false"@,
        rendered(JsonView::Array(seq![])) == seq!['[', ']'],
        rendered(JsonView::Array(seq![item])) == seq!['['] + rendered(item) + seq![']'],
        items.len() > 0 ==> rendered(JsonView::Array(items.push(item))) == rendered(
            JsonView::Array(items),
        ).drop_last() + seq![','] + rendered(item) + seq![']'],
        rendered(JsonView::Object(seq![])) == seq!['{', '}'],
        rendered(JsonView::Object(seq![(name, item)])) == seq!['{'] + json_quoted(name) + seq![':']
            + rendered(item) + seq!['}'],
        members.len() > 0 ==> rendered(JsonView::Object(members.push((name, item)))) == rendered(
            JsonView::Object(members),
        ).drop_last() + seq![','] + json_quoted(name) + seq![':'] + rendered(item) + seq!['}'],
        rendered(JsonView::Text(name)) == json_quoted(name),
{
    reveal_strlit("[");
    reveal_strlit("]");
    reveal_strlit("{");
    reveal_strlit("}");
    reveal_strlit(",");
    reveal_strlit(":");
    assert("["@ =~= seq!['['] && "]"@ =~= seq![']'] && ","@ =~= seq![',']);
    assert("{"@ =~= seq!['{'] && "}"@ =~= seq!['}'] && ":"@ =~= seq![':']);
    let none = Seq::<JsonView>::empty();
    let nothing = Seq::<(Seq<char>, JsonView)>::empty();
    assert(rendered_items(none) =~= seq![]);
    assert(rendered_items(seq![item]) =~= seq![rendered(item)]);
    assert(rendered_members(nothing) =~= seq![]);
    let told = json_quoted(name) + ":"@ + rendered(item);
    assert(rendered_members(seq![(name, item)]) =~= seq![told]);
    if items.len() > 0 {
        let known = rendered_items(items);
        let all = rendered_items(items.push(item));
        assert(all =~= known.push(rendered(item)));
        assert(all.drop_last() =~= known);
        assert(rendered(JsonView::Array(items)).drop_last() =~= seq!['['] + joined(known, ","@));
    }
    if members.len() > 0 {
        let known = rendered_members(members);
        let all = rendered_members(members.push((name, item)));
        assert(all =~= known.push(told));
        assert(all.drop_last() =~= known);
        assert(rendered(JsonView::Object(members)).drop_last() =~= seq!['{'] + joined(known, ","@));
    }
}

/// A quoted text is its characters one by one between quotation marks.
pub proof fn law_texts_are_quoted_one_by_one(text: Seq<char>, c: char)
    ensures
        json_quoted(seq![]) == seq!['"', '"'],
        json_quoted(text.push(c)) == json_quoted(text).drop_last() + json_char(c) + seq!['"'],
{
    reveal_strlit("\"");
    assert("\""@ =~= seq!['"']);
    assert(json_chars(seq![]) =~= seq![]);
    assert(text.push(c).drop_last() =~= text);
    assert(json_quoted(text).drop_last() =~= seq!['"'] + json_chars(text));
}

} // verus!
