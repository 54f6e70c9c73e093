//! Laws on how deep JSON text is nested.

use crate::json::{
    hex_char, json_array, json_char, json_chars, json_commas, json_member,
    json_object, json_string,
};
use crate::nesting::{levels, scan, step, Scan};
use vstd::prelude::*;

verus! {

/// Where a reader stands behind a text that it began to read at `at`.
pub open spec fn read_on(at: Scan, s: Seq<char>) -> Scan
    decreases s.len(),
{
    if s.len() == 0 {
        at
    } else {
        step(read_on(at, s.drop_last()), s.last())
    }
}

/// The larger of two numbers.
pub open spec fn larger(a: int, b: int) -> int {
    if a >= b {
        a
    } else {
        b
    }
}

/// Whether a reader finds a text nested `n` levels deep, and stands behind it as
/// deep as before it.
pub open spec fn is_nested(s: Seq<char>, n: int) -> bool {
    &&& n >= 0
    &&& forall|at: Scan|
        !at.in_string && !at.escaped && at.depth <= at.deepest ==> #[trigger] read_on(at, s) == (
        Scan { deepest: larger(at.deepest, at.depth + n), ..at })
}

/// The largest of some numbers, `0` where there are none.
pub open spec fn largest(numbers: Seq<int>) -> int
    decreases numbers.len(),
{
    if numbers.len() == 0 {
        0
    } else {
        larger(largest(numbers.drop_last()), numbers.last())
    }
}

proof fn lemma_read_on_add(at: Scan, a: Seq<char>, b: Seq<char>)
    ensures
        read_on(at, a + b) == read_on(read_on(at, a), b),
    decreases b.len(),
{
    if b.len() == 0 {
        assert(a + b =~= a);
    } else {
        lemma_read_on_add(at, a, b.drop_last());
        assert((a + b).drop_last() =~= a + b.drop_last());
    }
}

proof fn lemma_read_one(at: Scan, c: char)
    ensures
        read_on(at, seq![c]) == step(at, c),
{
    assert(seq![c].drop_last() =~= seq![]);
    assert(read_on(at, seq![c].drop_last()) == at);
}

proof fn lemma_scan_is_read_on(s: Seq<char>)
    ensures
        scan(s) == read_on(
            Scan { depth: 0, deepest: 0, in_string: false, escaped: false },
            s,
        ),
    decreases s.len(),
{
    if s.len() > 0 {
        lemma_scan_is_read_on(s.drop_last());
    }
}

/// A text that is nested `n` levels deep has that many.
pub proof fn law_levels(s: Seq<char>, n: int)
    requires
        is_nested(s, n),
    ensures
        levels(s) == n,
{
    lemma_scan_is_read_on(s);
}

/// A string is not nested, whatever stands in it.
pub proof fn law_strings_are_flat(s: Seq<char>)
    ensures
        is_nested(json_string(s), 0),
        levels(json_string(s)) == 0,
{
    let mark = seq!['"'];
    let text = json_string(s);
    assert forall|at: Scan|
        !at.in_string && !at.escaped && at.depth <= at.deepest implies #[trigger] read_on(at, text)
        == (Scan { deepest: larger(at.deepest, at.depth + 0), ..at }) by {
        let inside = Scan { in_string: true, ..at };
        lemma_read_on_add(at, mark + json_chars(s), mark);
        lemma_read_on_add(at, mark, json_chars(s));
        lemma_read_one(at, '"');
        lemma_inside_string(inside, s);
        lemma_read_one(inside, '"');
    }
    law_levels(text, 0);
}

proof fn lemma_inside_string(at: Scan, s: Seq<char>)
    requires
        at.in_string,
        !at.escaped,
    ensures
        read_on(at, json_chars(s)) == at,
    decreases s.len(),
{
    if s.len() > 0 {
        let c = s.last();
        let init = json_chars(s.drop_last());
        lemma_inside_string(at, s.drop_last());
        lemma_read_on_add(at, init, json_char(c));
        lemma_one_char(at, c);
    }
}

proof fn lemma_one_char(at: Scan, c: char)
    requires
        at.in_string,
        !at.escaped,
    ensures
        read_on(at, json_char(c)) == at,
{
    let text = json_char(c);
    let behind = Scan { escaped: true, ..at };
    if text.len() == 1 {
        assert(text =~= seq![c]);
        lemma_read_one(at, c);
    } else {
        let rest = text.skip(2);
        assert(text =~= seq![text[0]] + seq![text[1]] + rest);
        lemma_read_on_add(at, seq![text[0]] + seq![text[1]], rest);
        lemma_read_on_add(at, seq![text[0]], seq![text[1]]);
        lemma_read_one(at, '\\');
        lemma_read_one(behind, text[1]);
        if text.len() == 2 {
            assert(rest =~= seq![]);
        } else {
            let n = c as int;
            let (h, l) = (hex_char(n / 16), hex_char(n % 16));
            assert(n / 16 < 2 && n % 16 < 16);
            assert(rest =~= seq!['0'] + seq!['0'] + seq![h] + seq![l]);
            lemma_read_on_add(at, seq!['0'] + seq!['0'] + seq![h], seq![l]);
            lemma_read_on_add(at, seq!['0'] + seq!['0'], seq![h]);
            lemma_read_on_add(at, seq!['0'], seq!['0']);
            lemma_read_one(at, '0');
            lemma_read_one(at, h);
            lemma_read_one(at, l);
        }
    }
}

/// A text without brackets and quotation marks, such as `null` or a number, is not
/// nested.
pub proof fn law_plain_texts_are_flat(s: Seq<char>)
    requires
        forall|i: int|
            0 <= i < s.len() ==> #[trigger] s[i] != '"' && s[i] != '[' && s[i] != ']' && s[i] != '{'
                && s[i] != '}',
    ensures
        is_nested(s, 0),
        levels(s) == 0,
    decreases s.len(),
{
    if s.len() > 0 {
        let init = s.drop_last();
        assert forall|i: int| 0 <= i < init.len() implies #[trigger] init[i] != '"' && init[i]
            != '[' && init[i] != ']' && init[i] != '{' && init[i] != '}' by {
            assert(init[i] == s[i]);
        }
        law_plain_texts_are_flat(init);
        let last = s[s.len() - 1];
        assert(last != '"' && last != '[' && last != ']' && last != '{' && last != '}');
        assert forall|at: Scan|
            !at.in_string && !at.escaped && at.depth <= at.deepest implies #[trigger] read_on(at, s)
            == (Scan { deepest: larger(at.deepest, at.depth + 0), ..at }) by {
            assert(read_on(at, init) == (Scan { deepest: larger(at.deepest, at.depth + 0), ..at }));
        }
    }
    law_levels(s, 0);
}

proof fn lemma_nested_add(a: Seq<char>, m: int, b: Seq<char>, n: int)
    requires
        is_nested(a, m),
        is_nested(b, n),
    ensures
        is_nested(a + b, larger(m, n)),
{
    let both = larger(m, n);
    assert forall|at: Scan|
        !at.in_string && !at.escaped && at.depth <= at.deepest implies #[trigger] read_on(at, a + b)
        == (Scan { deepest: larger(at.deepest, at.depth + both), ..at }) by {
        lemma_read_on_add(at, a, b);
        let middle = Scan { deepest: larger(at.deepest, at.depth + m), ..at };
        assert(read_on(at, a) == middle);
        assert(read_on(middle, b) == (Scan {
            deepest: larger(middle.deepest, middle.depth + n),
            ..middle
        }));
    }
}

proof fn lemma_commas(items: Seq<Seq<char>>, depths: Seq<int>)
    requires
        items.len() == depths.len(),
        forall|i: int| 0 <= i < items.len() ==> is_nested(#[trigger] items[i], depths[i]),
    ensures
        is_nested(json_commas(items), largest(depths)),
    decreases items.len(),
{
    if items.len() == 0 {
        law_plain_texts_are_flat(json_commas(items));
    } else {
        let (init, before) = (items.drop_last(), depths.drop_last());
        assert forall|i: int| 0 <= i < init.len() implies is_nested(
            #[trigger] init[i],
            before[i],
        ) by {
            assert(is_nested(items[i], depths[i]));
        }
        lemma_commas(init, before);
        let at = items.len() - 1;
        assert(is_nested(items[at], depths[at]));
        if items.len() == 1 {
            assert(largest(before) == 0);
        } else {
            law_plain_texts_are_flat(seq![',']);
            lemma_nested_add(json_commas(init), largest(before), seq![','], 0);
            lemma_nested_add(
                json_commas(init) + seq![','],
                larger(largest(before), 0),
                items.last(),
                depths.last(),
            );
        }
    }
}

proof fn lemma_brackets(open: char, s: Seq<char>, close: char, n: int)
    requires
        is_nested(s, n),
        open == '[' && close == ']' || open == '{' && close == '}',
    ensures
        is_nested(seq![open] + s + seq![close], n + 1),
{
    let text = seq![open] + s + seq![close];
    assert forall|at: Scan|
        !at.in_string && !at.escaped && at.depth <= at.deepest implies #[trigger] read_on(at, text)
        == (Scan { deepest: larger(at.deepest, at.depth + (n + 1)), ..at }) by {
        lemma_read_on_add(at, seq![open] + s, seq![close]);
        lemma_read_on_add(at, seq![open], s);
        lemma_read_one(at, open);
        let inner = step(at, open);
        assert(inner.depth <= inner.deepest);
        let end = Scan { deepest: larger(inner.deepest, inner.depth + n), ..inner };
        assert(read_on(inner, s) == end);
        lemma_read_one(end, close);
    }
}

/// An array is one level deeper than the deepest of its items.
pub proof fn law_arrays_add_a_level(items: Seq<Seq<char>>, depths: Seq<int>)
    requires
        items.len() == depths.len(),
        forall|i: int| 0 <= i < items.len() ==> is_nested(#[trigger] items[i], depths[i]),
    ensures
        is_nested(json_array(items), largest(depths) + 1),
        levels(json_array(items)) == largest(depths) + 1,
{
    lemma_commas(items, depths);
    lemma_brackets('[', json_commas(items), ']', largest(depths));
    law_levels(json_array(items), largest(depths) + 1);
}

/// An object is one level deeper than the deepest of its values.
pub proof fn law_objects_add_a_level(members: Seq<(Seq<char>, Seq<char>)>, depths: Seq<int>)
    requires
        members.len() == depths.len(),
        forall|i: int| 0 <= i < members.len() ==> is_nested((#[trigger] members[i]).1, depths[i]),
    ensures
        is_nested(json_object(members), largest(depths) + 1),
        levels(json_object(members)) == largest(depths) + 1,
{
    let texts = members.map_values(|m: (Seq<char>, Seq<char>)| json_member(m));
    assert forall|i: int| 0 <= i < texts.len() implies is_nested(
        #[trigger] texts[i],
        depths[i],
    ) by {
        let member = members[i];
        assert(is_nested(member.1, depths[i]));
        law_strings_are_flat(member.0);
        law_plain_texts_are_flat(seq![':']);
        lemma_nested_add(json_string(member.0), 0, seq![':'], 0);
        lemma_nested_add(json_string(member.0) + seq![':'], 0, member.1, depths[i]);
    }
    lemma_commas(texts, depths);
    lemma_brackets('{', json_commas(texts), '}', largest(depths));
    law_levels(json_object(members), largest(depths) + 1);
}

} // verus!
