//! Laws on JSON text: what is written can be read back, and nothing else can be
//! read from it.

use crate::fields::{field_members, Field};
use crate::json::{
    hex_char, json_array, json_char, json_chars, json_commas, json_member, json_object,
    json_string, json_value, members_view, JsonView,
};
use vstd::prelude::*;

verus! {

// --------------------------------------------------------------------- strings

/// What a hexadecimal digit stands for.
pub open spec fn hex_value(c: char) -> Option<int> {
    let n = c as int;
    if 48 <= n <= 57 {
        Some(n - 48)
    } else if 97 <= n <= 102 {
        Some(n - 87)
    } else if 65 <= n <= 70 {
        Some(n - 55)
    } else {
        None
    }
}

/// The character that a letter behind a `\` stands for.
pub open spec fn escape_value(c: char) -> Option<char> {
    if c == '"' || c == '\\' || c == '/' {
        Some(c)
    } else if c == 'b' {
        Some('\u{8}')
    } else if c == 'f' {
        Some('\u{c}')
    } else if c == 'n' {
        Some('\n')
    } else if c == 'r' {
        Some('\r')
    } else if c == 't' {
        Some('\t')
    } else {
        None
    }
}

/// The character that the text of a string begins with, and how much of the text
/// it takes; `None` where the string is over or is no string. Characters by
/// number are read where the number is below 256.
pub open spec fn read_char(text: Seq<char>) -> Option<(char, int)> {
    if text.len() == 0 || text[0] == '"' || (text[0] as int) < 32 {
        None
    } else if text[0] != '\\' {
        Some((text[0], 1))
    } else if text.len() < 2 {
        None
    } else if text[1] == 'u' {
        if text.len() >= 6 && text[2] == '0' && text[3] == '0' {
            match (hex_value(text[4]), hex_value(text[5])) {
                (Some(h), Some(l)) => Some(((h * 16 + l) as char, 6)),
                _ => None,
            }
        } else {
            None
        }
    } else {
        match escape_value(text[1]) {
            Some(c) => Some((c, 2)),
            None => None,
        }
    }
}

/// The string that a text begins with, from behind its first quotation mark to
/// before its last one, and what follows the last one.
pub open spec fn read_string(text: Seq<char>) -> Option<(Seq<char>, Seq<char>)>
    decreases text.len(),
{
    if text.len() > 0 && text[0] == '"' {
        Some((Seq::empty(), text.skip(1)))
    } else {
        match read_char(text) {
            Some((c, n)) => if 0 < n <= text.len() {
                match read_string(text.skip(n)) {
                    Some((s, rest)) => Some((seq![c] + s, rest)),
                    None => None,
                }
            } else {
                None
            },
            None => None,
        }
    }
}

/// A string is read back from its JSON text, whatever follows.
pub proof fn law_string_reads_back(s: Seq<char>, rest: Seq<char>)
    ensures
        json_string(s).len() >= 2,
        json_string(s)[0] == '"',
        read_string(json_string(s).skip(1) + rest) == Some((s, rest)),
    decreases s.len(),
{
    let text = json_string(s).skip(1) + rest;
    if s.len() == 0 {
        assert(json_chars(s) =~= seq![]);
        assert(text =~= seq!['"'] + rest);
        assert(text.skip(1) =~= rest);
        assert(s =~= Seq::empty());
    } else {
        let tail = s.skip(1);
        law_string_reads_back(tail, rest);
        lemma_first_char(s);
        let c = s[0];
        let after = json_string(tail).skip(1) + rest;
        assert(text =~= json_char(c) + after);
        lemma_char_reads_back(c, after);
        assert(text.skip(json_char(c).len() as int) =~= after);
        assert(seq![c] + tail =~= s);
    }
}

proof fn lemma_first_char(s: Seq<char>)
    requires
        s.len() > 0,
    ensures
        json_chars(s) == json_char(s[0]) + json_chars(s.skip(1)),
    decreases s.len(),
{
    if s.len() == 1 {
        assert(s.drop_last() =~= seq![]);
        assert(s.skip(1) =~= seq![]);
        assert(json_chars(s) =~= json_char(s[0]) + json_chars(s.skip(1)));
    } else {
        lemma_first_char(s.drop_last());
        assert(s.drop_last().skip(1) =~= s.skip(1).drop_last());
        assert(json_chars(s) =~= json_char(s[0]) + json_chars(s.skip(1)));
    }
}

proof fn lemma_char_reads_back(c: char, rest: Seq<char>)
    ensures
        json_char(c).len() > 0,
        json_char(c)[0] != '"',
        read_char(json_char(c) + rest) == Some((c, json_char(c).len() as int)),
{
    let text = json_char(c) + rest;
    let n = c as int;
    if 0 <= n < 32 {
        assert(n / 16 < 2 && n / 16 * 16 + n % 16 == n);
        let (h, l) = (hex_char(n / 16), hex_char(n % 16));
        assert(hex_value(h) == Some(n / 16));
        assert(hex_value(l) == Some(n % 16));
    }
}

/// A character inside a string stands for itself, unless it is `"`, `\` or a
/// control character: the two stand behind a `\`, and so does the letter of the
/// control characters that have one; the others are written by number.
pub proof fn law_string_characters(c: char)
    ensures
        ({
            let text = json_string(seq![c]);
            let inner = text.subrange(1, text.len() - 1);
            &&& text.len() >= 2 && text[0] == '"' && text[text.len() - 1] == '"'
            &&& c as int >= 32 && c != '"' && c != '\\' ==> inner == seq![c]
            &&& c == '"' || c == '\\' ==> inner == seq!['\\', c]
            &&& c == '\n' ==> inner == seq!['\\', 'n']
            &&& c == '\r' ==> inner == seq!['\\', 'r']
            &&& c == '\t' ==> inner == seq!['\\', 't']
            &&& c == '\u{8}' ==> inner == seq!['\\', 'b']
            &&& c == '\u{c}' ==> inner == seq!['\\', 'f']
            &&& (c as int) < 32 && c != '\n' && c != '\r' && c != '\t' && c != '\u{8}' && c
                != '\u{c}' ==> {
                &&& inner.len() == 6
                &&& inner.take(4) == seq!['\\', 'u', '0', '0']
                &&& 48 <= inner[4] as int <= 49 && inner[4] as int - 48 == c as int / 16
                &&& c as int % 16 < 10 ==> inner[5] as int == 48 + c as int % 16
                &&& c as int % 16 >= 10 ==> inner[5] as int == 87 + c as int % 16
            }
        }),
{
    let one = seq![c];
    assert(one.drop_last() =~= seq![]);
    assert(json_chars(one.drop_last()) =~= seq![]);
    assert(json_chars(one) =~= json_char(c));
    let text = json_string(one);
    assert(text.subrange(1, text.len() - 1) =~= json_char(c));
    if (c as int) < 32 {
        assert(c as int / 16 < 2);
    }
}

/// The text of a string is that of its parts, put together inside one pair of
/// quotation marks.
#[verifier::rlimit(40)]
pub proof fn law_string_parts(a: Seq<char>, b: Seq<char>)
    ensures
        json_string(Seq::empty()) == seq!['"', '"'],
        json_string(a + b) == json_string(a).drop_last() + json_string(b).skip(1),
    decreases b.len(),
{
    assert(json_chars(Seq::empty()) =~= seq![]);
    assert(json_string(Seq::empty()) =~= seq!['"', '"']);
    if b.len() == 0 {
        assert(a + b =~= a);
        assert(b =~= Seq::empty());
        assert(json_string(a) =~= json_string(a).drop_last() + seq!['"']);
        assert(json_string(b).skip(1) =~= seq!['"']);
    } else {
        law_string_parts(a, b.drop_last());
        assert((a + b).drop_last() =~= a + b.drop_last());
        let init = json_string(a + b.drop_last());
        assert(json_string(a).drop_last() =~= seq!['"'] + json_chars(a));
        assert(json_string(b).skip(1) =~= json_chars(b) + seq!['"']);
        assert(json_string(b.drop_last()).skip(1) =~= json_chars(b.drop_last()) + seq!['"']);
        assert(init.drop_last() =~= seq!['"'] + json_chars(a) + json_chars(b.drop_last()));
        assert(json_chars(a + b.drop_last()) =~= init.subrange(1, init.len() - 1));
        assert(json_chars(a + b.drop_last()) =~= json_chars(a) + json_chars(b.drop_last()));
        assert(json_string(a + b) =~= json_string(a).drop_last() + json_string(b).skip(1));
    }
}

/// Where one string ends is plain from its text: the texts of two strings with
/// anything behind them are the same only where the strings are.
pub proof fn law_strings_are_told_apart(a: Seq<char>, x: Seq<char>, b: Seq<char>, y: Seq<char>)
    requires
        json_string(a) + x == json_string(b) + y,
    ensures
        a == b,
        x == y,
{
    law_string_reads_back(a, x);
    law_string_reads_back(b, y);
    assert(json_string(a).skip(1) + x =~= (json_string(a) + x).skip(1));
    assert(json_string(b).skip(1) + y =~= (json_string(b) + y).skip(1));
}

// --------------------------------------------------- values, arrays and objects

/// A value is written as `null`, as a string, or as the text that it is.
pub proof fn law_value_texts(s: Seq<char>)
    ensures
        json_value(JsonView::Null) == seq!['n', 'u', 'l', 'l'],
        json_value(JsonView::Text(s)) == json_string(s),
        json_value(JsonView::Other(s)) == s,
{
}

/// An array is its items between brackets, a comma between each two.
pub proof fn law_array_texts(items: Seq<Seq<char>>, item: Seq<char>)
    ensures
        json_array(Seq::empty()) == seq!['[', ']'],
        json_array(seq![item]) == seq!['['] + item + seq![']'],
        items.len() > 0 ==> json_array(items.push(item)) == json_array(items).drop_last()
            + seq![','] + item + seq![']'],
{
    assert(json_array(Seq::empty()) =~= seq!['[', ']']);
    assert(items.push(item).drop_last() =~= items);
    if items.len() > 0 {
        assert(json_array(items).drop_last() =~= seq!['['] + json_commas(items));
        assert(json_array(items.push(item)) =~= json_array(items).drop_last() + seq![','] + item
            + seq![']']);
    }
}

/// An object is its members between braces, a comma between each two; a member
/// is its name as a string, a colon and its value.
pub proof fn law_object_texts(
    members: Seq<(Seq<char>, Seq<char>)>,
    name: Seq<char>,
    value: Seq<char>,
)
    ensures
        json_object(Seq::empty()) == seq!['{', '}'],
        json_object(seq![(name, value)]) == seq!['{'] + json_string(name) + seq![':'] + value
            + seq!['}'],
        members.len() > 0 ==> json_object(members.push((name, value))) == json_object(
            members,
        ).drop_last() + seq![','] + json_string(name) + seq![':'] + value + seq!['}'],
{
    let text = |m: (Seq<char>, Seq<char>)| json_member(m);
    assert(Seq::<(Seq<char>, Seq<char>)>::empty().map_values(text) =~= seq![]);
    assert(json_object(Seq::empty()) =~= seq!['{', '}']);
    assert(seq![(name, value)].map_values(text) =~= seq![json_member((name, value))]);
    assert(json_object(seq![(name, value)]) =~= seq!['{'] + json_string(name) + seq![':'] + value
        + seq!['}']);
    let texts = members.map_values(text);
    let more = members.push((name, value)).map_values(text);
    assert(more.drop_last() =~= texts);
    assert(more.last() == json_member((name, value)));
    if members.len() > 0 {
        assert(json_object(members).drop_last() =~= seq!['{'] + json_commas(texts));
        assert(json_object(members.push((name, value))) =~= json_object(members).drop_last()
            + seq![','] + json_string(name) + seq![':'] + value + seq!['}']);
    }
}

/// Members keep their names, their values and their order.
pub proof fn law_members(fields: Seq<Field>, list: Seq<(String, String)>)
    ensures
        field_members(fields).len() == fields.len(),
        forall|i: int|
            0 <= i < fields.len() ==> #[trigger] field_members(fields)[i] == (
                fields[i].0,
                json_value(fields[i].1),
            ),
        members_view(list).len() == list.len(),
        forall|i: int|
            0 <= i < list.len() ==> #[trigger] members_view(list)[i] == (list[i].0@, list[i].1@),
{
}

// ------------------------------------------------- what texts say of the values

/// Whether what follows a value ends it: a comma or a closing bracket.
pub open spec fn ends_value(rest: Seq<char>) -> bool {
    rest.len() > 0 && (rest[0] == ',' || rest[0] == ']' || rest[0] == '}')
}

/// Whether two values have the same text, with more of an array or object behind
/// it, only where they are the same. Numbers, booleans, arrays and objects that
/// serde_json writes are told apart so; a text that is none of these need not be.
pub open spec fn told_apart(a: JsonView, b: JsonView) -> bool {
    forall|x: Seq<char>, y: Seq<char>|
        ends_value(x) && ends_value(y) && #[trigger] (json_value(a) + x) == #[trigger] (json_value(
            b,
        ) + y) ==> a == b
}

/// Whether the values of two lists are told apart, place by place.
pub open spec fn all_told_apart(a: Seq<Field>, b: Seq<Field>) -> bool {
    forall|i: int| 0 <= i < a.len() && i < b.len() ==> told_apart(a[i].1, #[trigger] b[i].1)
}

/// `null` and strings are told apart from each other.
pub proof fn law_null_and_strings_are_told_apart(s: Seq<char>, t: Seq<char>)
    ensures
        told_apart(JsonView::Text(s), JsonView::Text(t)),
        told_apart(JsonView::Null, JsonView::Text(t)),
        told_apart(JsonView::Text(s), JsonView::Null),
        told_apart(JsonView::Null, JsonView::Null),
{
    law_string_reads_back(s, Seq::empty());
    law_string_reads_back(t, Seq::empty());
    let (a, b) = (JsonView::Text(s), JsonView::Text(t));
    assert forall|x: Seq<char>, y: Seq<char>|
        ends_value(x) && ends_value(y) && #[trigger] (json_value(a) + x) == #[trigger] (json_value(
            b,
        ) + y) implies a == b by {
        law_strings_are_told_apart(s, x, t, y);
    }
    let null = JsonView::Null;
    assert forall|x: Seq<char>, y: Seq<char>|
        ends_value(x) && ends_value(y) implies #[trigger] (json_value(null) + x)
        != #[trigger] (json_value(b) + y) by {
        assert((json_value(null) + x)[0] == 'n');
        assert((json_value(b) + y)[0] == '"');
    }
    assert forall|x: Seq<char>, y: Seq<char>|
        ends_value(x) && ends_value(y) implies #[trigger] (json_value(a) + x)
        != #[trigger] (json_value(null) + y) by {
        assert((json_value(a) + x)[0] == '"');
        assert((json_value(null) + y)[0] == 'n');
    }
}

/// A comma stands behind the first text where there are more.
proof fn lemma_first_comma(first: Seq<char>, items: Seq<Seq<char>>)
    ensures
        json_commas(seq![first] + items) == if items.len() == 0 {
            first
        } else {
            first + seq![','] + json_commas(items)
        },
    decreases items.len(),
{
    let all = seq![first] + items;
    if items.len() == 0 {
        assert(all =~= seq![first]);
    } else {
        assert(all.drop_last() =~= seq![first] + items.drop_last());
        lemma_first_comma(first, items.drop_last());
        if items.len() == 1 {
            assert(json_commas(all.drop_last()) =~= first);
        }
        assert(json_commas(all) =~= first + seq![','] + json_commas(items));
    }
}

/// The texts of the members of an object, a comma between each two.
spec fn fields_text(fields: Seq<Field>) -> Seq<char> {
    json_commas(field_members(fields).map_values(|m: (Seq<char>, Seq<char>)| json_member(m)))
}

proof fn lemma_first_field(fields: Seq<Field>)
    requires
        fields.len() > 0,
    ensures
        fields_text(fields) == json_string(fields[0].0) + seq![':'] + json_value(fields[0].1) + (
        if fields.len() == 1 {
            Seq::<char>::empty()
        } else {
            seq![','] + fields_text(fields.skip(1))
        }),
{
    let text = |m: (Seq<char>, Seq<char>)| json_member(m);
    let all = field_members(fields).map_values(text);
    let rest = field_members(fields.skip(1)).map_values(text);
    let first = json_string(fields[0].0) + seq![':'] + json_value(fields[0].1);
    assert(all =~= seq![first] + rest);
    lemma_first_comma(first, rest);
    if fields.len() == 1 {
        assert(first + Seq::<char>::empty() =~= first);
    } else {
        assert(first + (seq![','] + json_commas(rest)) =~= first + seq![','] + json_commas(rest));
    }
}

/// What follows the first of some members: the others, the brace and the rest.
spec fn after_first(fields: Seq<Field>, rest: Seq<char>) -> Seq<char> {
    if fields.len() == 1 {
        seq!['}'] + rest
    } else {
        seq![','] + (fields_text(fields.skip(1)) + seq!['}'] + rest)
    }
}

proof fn lemma_after_first(fields: Seq<Field>, rest: Seq<char>)
    requires
        fields.len() > 0,
    ensures
        fields_text(fields) + seq!['}'] + rest == json_string(fields[0].0) + (seq![':'] + (
        json_value(fields[0].1) + after_first(fields, rest))),
        ends_value(after_first(fields, rest)),
{
    lemma_first_field(fields);
    assert(fields_text(fields) + seq!['}'] + rest =~= json_string(fields[0].0) + (seq![':'] + (
    json_value(fields[0].1) + after_first(fields, rest))));
}

#[verifier::rlimit(40)]
proof fn lemma_one_field_is_told_apart(a: Field, x: Seq<char>, b: Field, y: Seq<char>)
    requires
        told_apart(a.1, b.1),
        ends_value(x),
        ends_value(y),
        json_string(a.0) + (seq![':'] + (json_value(a.1) + x)) == json_string(b.0) + (seq![':'] + (
        json_value(b.1) + y)),
    ensures
        a == b,
        x == y,
{
    let value_a = json_value(a.1) + x;
    let value_b = json_value(b.1) + y;
    law_strings_are_told_apart(a.0, seq![':'] + value_a, b.0, seq![':'] + value_b);
    assert((seq![':'] + value_a).skip(1) =~= value_a);
    assert((seq![':'] + value_b).skip(1) =~= value_b);
    assert(value_a == value_b);
    assert(a.1 == b.1);
    assert(x =~= value_a.skip(json_value(a.1).len() as int));
    assert(y =~= value_b.skip(json_value(b.1).len() as int));
}

/// The texts of members and a brace begin with a brace only where there are no
/// members.
proof fn lemma_members_begin(fields: Seq<Field>, rest: Seq<char>)
    ensures
        (fields_text(fields) + seq!['}'] + rest)[0] == if fields.len() == 0 {
            '}'
        } else {
            '"'
        },
        fields.len() == 0 ==> fields_text(fields) + seq!['}'] + rest == seq!['}'] + rest,
{
    if fields.len() > 0 {
        lemma_after_first(fields, rest);
        law_string_reads_back(fields[0].0, Seq::empty());
    } else {
        assert(fields_text(fields) =~= seq![]);
        assert(fields_text(fields) + seq!['}'] + rest =~= seq!['}'] + rest);
    }
}

#[verifier::rlimit(40)]
proof fn lemma_fields_are_told_apart(a: Seq<Field>, x: Seq<char>, b: Seq<Field>, y: Seq<char>)
    requires
        all_told_apart(a, b),
        fields_text(a) + seq!['}'] + x == fields_text(b) + seq!['}'] + y,
    ensures
        a == b,
        x == y,
    decreases a.len(),
{
    lemma_members_begin(a, x);
    lemma_members_begin(b, y);
    if a.len() == 0 {
        assert((seq!['}'] + x).skip(1) =~= x);
        assert((seq!['}'] + y).skip(1) =~= y);
        assert(a =~= b);
    } else {
        lemma_after_first(a, x);
        lemma_after_first(b, y);
        let (more_a, more_b) = (after_first(a, x), after_first(b, y));
        assert(told_apart(a[0].1, b[0].1));
        lemma_one_field_is_told_apart(a[0], more_a, b[0], more_b);
        assert(more_a[0] == more_b[0]);
        assert(more_a.skip(1) == more_b.skip(1));
        if a.len() == 1 {
            assert(more_a.skip(1) =~= x);
            assert(more_b.skip(1) =~= y);
            assert(a =~= b);
        } else {
            let (rest_a, rest_b) = (a.skip(1), b.skip(1));
            assert(more_a.skip(1) =~= fields_text(rest_a) + seq!['}'] + x);
            assert(more_b.skip(1) =~= fields_text(rest_b) + seq!['}'] + y);
            assert forall|i: int| 0 <= i < rest_a.len() && i < rest_b.len() implies told_apart(
                rest_a[i].1,
                #[trigger] rest_b[i].1,
            ) by {
                assert(told_apart(a[i + 1].1, b[i + 1].1));
            }
            lemma_fields_are_told_apart(rest_a, x, rest_b, y);
            assert(a =~= seq![a[0]] + rest_a);
            assert(b =~= seq![b[0]] + rest_b);
        }
    }
}

/// The texts of two objects, with anything behind them, are the same only where
/// their members are, provided that their values are told apart.
pub proof fn law_objects_are_told_apart(a: Seq<Field>, x: Seq<char>, b: Seq<Field>, y: Seq<char>)
    requires
        all_told_apart(a, b),
        json_object(field_members(a)) + x == json_object(field_members(b)) + y,
    ensures
        a == b,
        x == y,
{
    let left = json_object(field_members(a)) + x;
    let right = json_object(field_members(b)) + y;
    assert(left.skip(1) =~= fields_text(a) + seq!['}'] + x);
    assert(right.skip(1) =~= fields_text(b) + seq!['}'] + y);
    lemma_fields_are_told_apart(a, x, b, y);
}

#[verifier::rlimit(40)]
proof fn lemma_strings_of_array(a: Seq<Seq<char>>, b: Seq<Seq<char>>)
    requires
        ({
            let text = |s: Seq<char>| json_string(s);
            json_commas(a.map_values(text)) + seq![']'] == json_commas(b.map_values(text)) + seq![
                ']',
            ]
        }),
    ensures
        a == b,
    decreases a.len(),
{
    let text = |s: Seq<char>| json_string(s);
    let close = seq![']'];
    let left = json_commas(a.map_values(text)) + close;
    let right = json_commas(b.map_values(text)) + close;
    if a.len() > 0 {
        assert(a.map_values(text) =~= seq![json_string(a[0])] + a.skip(1).map_values(text));
        lemma_first_comma(json_string(a[0]), a.skip(1).map_values(text));
        law_string_reads_back(a[0], Seq::empty());
        assert(left[0] == '"');
    } else {
        assert(left[0] == ']');
    }
    if b.len() > 0 {
        assert(b.map_values(text) =~= seq![json_string(b[0])] + b.skip(1).map_values(text));
        lemma_first_comma(json_string(b[0]), b.skip(1).map_values(text));
        law_string_reads_back(b[0], Seq::empty());
        assert(right[0] == '"');
    } else {
        assert(right[0] == ']');
    }
    if a.len() == 0 {
        assert(a =~= b);
    } else {
        let more_a: Seq<char> = if a.len() == 1 {
            close
        } else {
            seq![','] + json_commas(a.skip(1).map_values(text)) + close
        };
        let more_b: Seq<char> = if b.len() == 1 {
            close
        } else {
            seq![','] + json_commas(b.skip(1).map_values(text)) + close
        };
        assert(left =~= json_string(a[0]) + more_a);
        assert(right =~= json_string(b[0]) + more_b);
        law_strings_are_told_apart(a[0], more_a, b[0], more_b);
        assert(more_a[0] == more_b[0]);
        if a.len() == 1 {
            assert(a =~= b);
        } else {
            assert(more_a.skip(1) =~= json_commas(a.skip(1).map_values(text)) + close);
            assert(more_b.skip(1) =~= json_commas(b.skip(1).map_values(text)) + close);
            lemma_strings_of_array(a.skip(1), b.skip(1));
            assert(a =~= seq![a[0]] + a.skip(1));
            assert(b =~= seq![b[0]] + b.skip(1));
        }
    }
}

/// Two arrays of strings have the same text only where they hold the same
/// strings in the same order.
pub proof fn law_string_arrays_are_told_apart(a: Seq<Seq<char>>, b: Seq<Seq<char>>)
    requires
        json_array(a.map_values(|s: Seq<char>| json_string(s))) == json_array(
            b.map_values(|s: Seq<char>| json_string(s)),
        ),
    ensures
        a == b,
{
    let text = |s: Seq<char>| json_string(s);
    let left = json_array(a.map_values(text));
    let right = json_array(b.map_values(text));
    assert(left.skip(1) =~= json_commas(a.map_values(text)) + seq![']']);
    assert(right.skip(1) =~= json_commas(b.map_values(text)) + seq![']']);
    lemma_strings_of_array(a, b);
}

#[verifier::rlimit(40)]
proof fn lemma_objects_of_array(a: Seq<Seq<Field>>, b: Seq<Seq<Field>>)
    requires
        forall|i: int| 0 <= i < a.len() && i < b.len() ==> all_told_apart(a[i], #[trigger] b[i]),
        ({
            let text = |fields: Seq<Field>| json_object(field_members(fields));
            json_commas(a.map_values(text)) + seq![']'] == json_commas(b.map_values(text)) + seq![
                ']',
            ]
        }),
    ensures
        a == b,
    decreases a.len(),
{
    let text = |fields: Seq<Field>| json_object(field_members(fields));
    let close = seq![']'];
    let left = json_commas(a.map_values(text)) + close;
    let right = json_commas(b.map_values(text)) + close;
    if a.len() > 0 {
        assert(a.map_values(text) =~= seq![text(a[0])] + a.skip(1).map_values(text));
        lemma_first_comma(text(a[0]), a.skip(1).map_values(text));
        assert(left[0] == '{');
    } else {
        assert(left[0] == ']');
    }
    if b.len() > 0 {
        assert(b.map_values(text) =~= seq![text(b[0])] + b.skip(1).map_values(text));
        lemma_first_comma(text(b[0]), b.skip(1).map_values(text));
        assert(right[0] == '{');
    } else {
        assert(right[0] == ']');
    }
    if a.len() == 0 {
        assert(a =~= b);
    } else {
        let more_a: Seq<char> = if a.len() == 1 {
            close
        } else {
            seq![','] + json_commas(a.skip(1).map_values(text)) + close
        };
        let more_b: Seq<char> = if b.len() == 1 {
            close
        } else {
            seq![','] + json_commas(b.skip(1).map_values(text)) + close
        };
        assert(left =~= text(a[0]) + more_a);
        assert(right =~= text(b[0]) + more_b);
        assert(all_told_apart(a[0], b[0]));
        law_objects_are_told_apart(a[0], more_a, b[0], more_b);
        assert(more_a[0] == more_b[0]);
        if a.len() == 1 {
            assert(a =~= b);
        } else {
            let (rest_a, rest_b) = (a.skip(1), b.skip(1));
            assert(more_a.skip(1) =~= json_commas(rest_a.map_values(text)) + close);
            assert(more_b.skip(1) =~= json_commas(rest_b.map_values(text)) + close);
            assert forall|i: int| 0 <= i < rest_a.len() && i < rest_b.len() implies all_told_apart(
                rest_a[i],
                #[trigger] rest_b[i],
            ) by {
                assert(all_told_apart(a[i + 1], b[i + 1]));
            }
            lemma_objects_of_array(rest_a, rest_b);
            assert(a =~= seq![a[0]] + rest_a);
            assert(b =~= seq![b[0]] + rest_b);
        }
    }
}

/// Two arrays of objects have the same text only where they hold the same
/// objects in the same order, provided that their values are told apart.
pub proof fn law_object_arrays_are_told_apart(a: Seq<Seq<Field>>, b: Seq<Seq<Field>>)
    requires
        forall|i: int| 0 <= i < a.len() && i < b.len() ==> all_told_apart(a[i], #[trigger] b[i]),
        json_array(a.map_values(|fields: Seq<Field>| json_object(field_members(fields))))
            == json_array(b.map_values(|fields: Seq<Field>| json_object(field_members(fields)))),
    ensures
        a == b,
{
    let text = |fields: Seq<Field>| json_object(field_members(fields));
    let left = json_array(a.map_values(text));
    let right = json_array(b.map_values(text));
    assert(left.skip(1) =~= json_commas(a.map_values(text)) + seq![']']);
    assert(right.skip(1) =~= json_commas(b.map_values(text)) + seq![']']);
    lemma_objects_of_array(a, b);
}

} // verus!
