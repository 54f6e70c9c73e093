//! JSON values, as far as subjects look into them, and JSON text.

use crate::fields::{add_fields, field_members, fields_of, FieldMap};
use crate::text::chars_of;
use vstd::prelude::*;

verus! {

/// The text of a JSON value, as serde_json writes it.
#[derive(Debug, PartialEq, Eq)]
pub struct JsonText {
    text: String,
}

impl View for JsonText {
    type V = Seq<char>;

    closed spec fn view(&self) -> Seq<char> {
        self.text@
    }
}

impl Clone for JsonText {
    fn clone(&self) -> (copy: Self)
        ensures
            copy == *self,
    {
        JsonText { text: self.text.clone() }
    }
}

impl JsonText {
    /// The empty object, `{}`.
    pub fn empty_object() -> (json: Self)
        ensures
            json@ == seq!['{', '}'],
    {
        proof {
            reveal_strlit("{}");
            assert("{}"@ =~= seq!['{', '}']);
        }
        JsonText { text: "{}".to_owned() }
    }

    /// The text.
    pub fn as_str(&self) -> (text: &str)
        ensures
            text@ == self@,
    {
        self.text.as_str()
    }
}

/// A JSON value. Subjects tell `null` and strings apart from everything else;
/// everything else is kept as its JSON text.
#[derive(Debug, PartialEq, Eq)]
pub enum JsonValue {
    /// `null`.
    Null,
    /// A string.
    Text(String),
    /// A number, a boolean, an array or an object, as JSON text.
    Other(JsonText),
}

/// What a [`JsonValue`] holds.
pub enum JsonView {
    Null,
    Text(Seq<char>),
    Other(Seq<char>),
}

impl View for JsonValue {
    type V = JsonView;

    open spec fn view(&self) -> JsonView {
        match *self {
            JsonValue::Null => JsonView::Null,
            JsonValue::Text(s) => JsonView::Text(s@),
            JsonValue::Other(s) => JsonView::Other(s@),
        }
    }
}

impl Clone for JsonValue {
    fn clone(&self) -> (copy: Self)
        ensures
            copy == *self,
    {
        match self {
            JsonValue::Null => JsonValue::Null,
            JsonValue::Text(s) => JsonValue::Text(s.clone()),
            JsonValue::Other(s) => JsonValue::Other(s.clone()),
        }
    }
}

/// The value that serde_json reads from a text, with its text as serde_json
/// writes it; `None` where it reads none.
pub uninterp spec fn json_of_text(text: Seq<char>) -> Option<JsonView>;

/// Calls `serde_json::from_str` for a `serde_json::Value` and, where that is
/// neither `null` nor a string, its `Display` formatting. Claimed is only that
/// the outcome depends on nothing but the text.
#[verifier::external_body]
fn read_json(text: &str) -> (value: Option<JsonValue>)
    ensures
        value is Some <==> json_of_text(text@) is Some,
        value matches Some(v) ==> json_of_text(text@) == Some(v@),
{
    match serde_json::from_str::<serde_json::Value>(text) {
        Ok(serde_json::Value::Null) => Some(JsonValue::Null),
        Ok(serde_json::Value::String(s)) => Some(JsonValue::Text(s)),
        Ok(other) => Some(JsonValue::Other(JsonText { text: other.to_string() })),
        Err(_) => None,
    }
}

impl JsonValue {
    /// The value that serde_json reads from a text; `None` where it reads none.
    pub fn from_json(text: &str) -> (value: Option<Self>)
        ensures
            value is Some <==> json_of_text(text@) is Some,
            value matches Some(v) ==> json_of_text(text@) == Some(v@),
    {
        read_json(text)
    }

    /// The empty object, `{}`.
    pub fn empty_object() -> (value: Self)
        ensures
            value@ == JsonView::Other(seq!['{', '}']),
    {
        JsonValue::Other(JsonText::empty_object())
    }

    /// The array of these values.
    pub fn array_of(items: &Vec<JsonValue>) -> (value: Self)
        ensures
            value@ == JsonView::Other(
                json_array(items@.map_values(|item: JsonValue| json_value(item@))),
            ),
    {
        let ghost want = items@.map_values(|item: JsonValue| json_value(item@));
        let mut texts: Vec<String> = Vec::new();
        let mut i: usize = 0;
        while i < items.len()
            invariant
                i <= items.len(),
                want == items@.map_values(|item: JsonValue| json_value(item@)),
                texts.deep_view() == want.take(i as int),
            decreases items.len() - i,
        {
            let ghost before = texts.deep_view();
            let text = items[i].to_json();
            texts.push(text);
            assert(texts.deep_view() =~= before.push(text@));
            assert(want.take(i + 1) =~= want.take(i as int).push(text@));
            i += 1;
        }
        assert(texts.deep_view() =~= want);
        JsonValue::Other(JsonText { text: array(&texts) })
    }

    /// The object with these members.
    pub fn object_of(fields: &FieldMap) -> (value: Self)
        ensures
            value@ == JsonView::Other(json_object(field_members(fields_of(fields@)))),
    {
        let mut members: Vec<(String, String)> = Vec::new();
        assert(members_view(members@) =~= seq![]);
        add_fields(&mut members, fields.list());
        assert(members_view(members@) =~= field_members(fields_of(fields@)));
        JsonValue::Other(JsonText { text: object(&members) })
    }

    /// Whether this is `null`.
    pub fn is_null(&self) -> (yes: bool)
        ensures
            yes == (self@ is Null),
    {
        match self {
            JsonValue::Null => true,
            _ => false,
        }
    }

    /// The JSON text of this value.
    pub fn to_json(&self) -> (text: String)
        ensures
            text@ == json_value(self@),
    {
        match self {
            JsonValue::Null => {
                proof {
                    reveal_strlit("null");
                    assert("null"@ =~= seq!['n', 'u', 'l', 'l']);
                }
                "null".to_owned()
            },
            JsonValue::Text(s) => quoted(s.as_str()),
            JsonValue::Other(s) => s.as_str().to_owned(),
        }
    }
}

/// `null`.
pub open spec fn json_null() -> Seq<char> {
    seq!['n', 'u', 'l', 'l']
}

/// The JSON text of a value.
pub open spec fn json_value(value: JsonView) -> Seq<char> {
    match value {
        JsonView::Null => json_null(),
        JsonView::Text(s) => json_string(s),
        JsonView::Other(s) => s,
    }
}

/// The hexadecimal digit of `n`, which is below sixteen.
pub open spec fn hex_char(n: int) -> char {
    if n < 10 {
        ('0' as int + n) as char
    } else {
        ('a' as int + n - 10) as char
    }
}

/// The letter by which a control character is written in a JSON string, where it
/// has one.
pub open spec fn json_letter(c: char) -> Option<char> {
    if c == '\u{8}' {
        Some('b')
    } else if c == '\t' {
        Some('t')
    } else if c == '\n' {
        Some('n')
    } else if c == '\u{c}' {
        Some('f')
    } else if c == '\r' {
        Some('r')
    } else {
        None
    }
}

/// A character inside a JSON string: `"` and `\` behind a `\`, a control
/// character by its letter or its number, every other one as it is.
pub open spec fn json_char(c: char) -> Seq<char> {
    if c == '"' || c == '\\' {
        seq!['\\', c]
    } else if let Some(letter) = json_letter(c) {
        seq!['\\', letter]
    } else if '\u{0}' <= c && c <= '\u{1f}' {
        seq!['\\', 'u', '0', '0', hex_char(c as int / 16), hex_char(c as int % 16)]
    } else {
        seq![c]
    }
}

/// The characters of a JSON string between its quotation marks.
pub open spec fn json_chars(s: Seq<char>) -> Seq<char>
    decreases s.len(),
{
    if s.len() == 0 {
        seq![]
    } else {
        json_chars(s.drop_last()) + json_char(s.last())
    }
}

/// A string as JSON text.
pub open spec fn json_string(s: Seq<char>) -> Seq<char> {
    seq!['"'] + json_chars(s) + seq!['"']
}

/// JSON texts with a comma between each two.
pub open spec fn json_commas(items: Seq<Seq<char>>) -> Seq<char>
    decreases items.len(),
{
    if items.len() == 0 {
        seq![]
    } else if items.len() == 1 {
        items[0]
    } else {
        json_commas(items.drop_last()) + seq![','] + items.last()
    }
}

/// An array of JSON texts.
pub open spec fn json_array(items: Seq<Seq<char>>) -> Seq<char> {
    seq!['['] + json_commas(items) + seq![']']
}

/// One member of an object.
pub open spec fn json_member(member: (Seq<char>, Seq<char>)) -> Seq<char> {
    json_string(member.0) + seq![':'] + member.1
}

/// An object with these members, in this order.
pub open spec fn json_object(members: Seq<(Seq<char>, Seq<char>)>) -> Seq<char> {
    seq!['{'] + json_commas(members.map_values(|m: (Seq<char>, Seq<char>)| json_member(m)))
        + seq!['}']
}

/// The hexadecimal digit of `n`.
fn hex(n: u8) -> (c: char)
    requires
        n < 16,
    ensures
        c == hex_char(n as int),
{
    if n < 10 {
        ('0' as u8 + n) as char
    } else {
        ('a' as u8 + (n - 10)) as char
    }
}

/// The letter by which a control character is written in a JSON string.
fn letter_of(c: char) -> (letter: Option<char>)
    ensures
        letter == json_letter(c),
{
    if c == '\u{8}' {
        Some('b')
    } else if c == '\t' {
        Some('t')
    } else if c == '\n' {
        Some('n')
    } else if c == '\u{c}' {
        Some('f')
    } else if c == '\r' {
        Some('r')
    } else {
        None
    }
}

/// A string as JSON text.
pub fn quoted(s: &str) -> (text: String)
    ensures
        text@ == json_string(s@),
{
    let chars = chars_of(s);
    let mut text = String::new();
    text.push('"');
    let mut i: usize = 0;
    assert(text@ =~= seq!['"'] + json_chars(s@.take(0)));
    while i < chars.len()
        invariant
            i <= chars.len(),
            chars@ == s@,
            text@ == seq!['"'] + json_chars(s@.take(i as int)),
        decreases chars.len() - i,
    {
        let c = chars[i];
        let ghost before = text@;
        if c == '"' || c == '\\' {
            text.push('\\');
            text.push(c);
        } else if let Some(letter) = letter_of(c) {
            text.push('\\');
            text.push(letter);
        } else if '\u{0}' <= c && c <= '\u{1f}' {
            let code: u8 = c as u8;
            text.push('\\');
            text.push('u');
            text.push('0');
            text.push('0');
            text.push(hex(code / 16));
            text.push(hex(code % 16));
        } else {
            text.push(c);
        }
        assert(text@ =~= before + json_char(c));
        assert(s@.take(i + 1).drop_last() =~= s@.take(i as int));
        assert(text@ =~= seq!['"'] + json_chars(s@.take(i + 1)));
        i += 1;
    }
    assert(s@.take(chars.len() as int) =~= s@);
    text.push('"');
    assert(text@ =~= json_string(s@));
    text
}

/// JSON texts with a comma between each two.
fn commas(items: &Vec<String>) -> (text: String)
    ensures
        text@ == json_commas(items.deep_view()),
{
    let mut text = String::new();
    let ghost all = items.deep_view();
    let mut i: usize = 0;
    while i < items.len()
        invariant
            i <= items.len(),
            all == items.deep_view(),
            text@ == json_commas(all.take(i as int)),
        decreases items.len() - i,
    {
        let ghost before = text@;
        if i > 0 {
            text.push(',');
        }
        text.append(items[i].as_str());
        assert(all.take(i + 1).drop_last() =~= all.take(i as int));
        if i > 0 {
            assert(text@ =~= before + seq![','] + items[i as int]@);
        } else {
            assert(text@ =~= items[0]@);
        }
        i += 1;
    }
    assert(all.take(items.len() as int) =~= all);
    text
}

/// An array of JSON texts.
pub fn array(items: &Vec<String>) -> (text: String)
    ensures
        text@ == json_array(items.deep_view()),
{
    let mut text = String::new();
    text.push('[');
    text.append(commas(items).as_str());
    text.push(']');
    assert(text@ =~= json_array(items.deep_view()));
    text
}

/// Members of an object: names and JSON texts.
pub open spec fn members_view(members: Seq<(String, String)>) -> Seq<(Seq<char>, Seq<char>)> {
    members.map_values(|m: (String, String)| (m.0@, m.1@))
}

/// An object with these members, in this order.
pub fn object(members: &Vec<(String, String)>) -> (text: String)
    ensures
        text@ == json_object(members_view(members@)),
{
    let ghost all = members_view(members@);
    let ghost texts = all.map_values(|m: (Seq<char>, Seq<char>)| json_member(m));
    let mut items: Vec<String> = Vec::new();
    let mut i: usize = 0;
    while i < members.len()
        invariant
            i <= members.len(),
            all == members_view(members@),
            texts == all.map_values(|m: (Seq<char>, Seq<char>)| json_member(m)),
            items.deep_view() == texts.take(i as int),
        decreases members.len() - i,
    {
        let ghost before = items.deep_view();
        let mut item = quoted(members[i].0.as_str());
        item.push(':');
        item.append(members[i].1.as_str());
        assert(item@ =~= json_member(all[i as int]));
        items.push(item);
        assert(items.deep_view() =~= before.push(item@));
        assert(texts.take(i + 1) =~= texts.take(i as int).push(json_member(all[i as int])));
        i += 1;
    }
    assert(items.deep_view() =~= texts);
    let mut text = String::new();
    text.push('{');
    text.append(commas(&items).as_str());
    text.push('}');
    assert(text@ =~= json_object(all));
    text
}

} // verus!
