//! Laws on text: case, white space, lines, numerals.

use crate::decimal::{
    all_digits, decimal_text, decimal_value, is_digit, lemma_decimal_reads_back,
    lemma_padded_reads_back, padded_text,
    parsed_u32, without_plus,
};
use crate::lines::{
    first_of, lemma_first_of, lemma_unix_text_keeps, lines_of, split_text, trim_newlines, unix_text,
};
use crate::text::{
    ascii_lower, ascii_upper, blank_text, is_white, lower_text, same_ignoring_case, trim_end,
    trim_start, trim_text, upper_text,
};
use vstd::prelude::*;

verus! {

/// Upper case moves the letters `a` to `z` by 32 and nothing else; lower case
/// moves `A` to `Z` back.
pub proof fn law_case(s: Seq<char>)
    ensures
        upper_text(s).len() == s.len(),
        lower_text(s).len() == s.len(),
        forall|i: int|
            0 <= i < s.len() ==> if 97 <= s[i] as int <= 122 {
                (#[trigger] upper_text(s)[i]) as int == s[i] as int - 32
            } else {
                upper_text(s)[i] == s[i]
            },
        forall|i: int|
            0 <= i < s.len() ==> if 65 <= s[i] as int <= 90 {
                (#[trigger] lower_text(s)[i]) as int == s[i] as int + 32
            } else {
                lower_text(s)[i] == s[i]
            },
{
    assert forall|i: int| 0 <= i < s.len() implies if 97 <= s[i] as int <= 122 {
        (#[trigger] upper_text(s)[i]) as int == s[i] as int - 32
    } else {
        upper_text(s)[i] == s[i]
    } by {
        assert(upper_text(s)[i] == ascii_upper(s[i]));
    }
    assert forall|i: int| 0 <= i < s.len() implies if 65 <= s[i] as int <= 90 {
        (#[trigger] lower_text(s)[i]) as int == s[i] as int + 32
    } else {
        lower_text(s)[i] == s[i]
    } by {
        assert(lower_text(s)[i] == ascii_lower(s[i]));
    }
}

/// Whether two characters are the same letter or the same character.
pub open spec fn same_letter(a: char, b: char) -> bool {
    ||| a == b
    ||| 65 <= a as int <= 90 && b as int == a as int + 32
    ||| 65 <= b as int <= 90 && a as int == b as int + 32
}

/// Two texts are the same ignoring case where they are so character by
/// character.
pub proof fn law_same_ignoring_case(a: Seq<char>, b: Seq<char>)
    ensures
        same_ignoring_case(a, b) <==> a.len() == b.len() && forall|i: int|
            0 <= i < a.len() ==> same_letter(#[trigger] a[i], b[i]),
{
    law_case(a);
    law_case(b);
    let (x, y) = (lower_text(a), lower_text(b));
    if same_ignoring_case(a, b) {
        assert forall|i: int| 0 <= i < a.len() implies same_letter(#[trigger] a[i], b[i]) by {
            assert(x[i] == y[i]);
        }
    }
    if a.len() == b.len() && forall|i: int|
        0 <= i < a.len() ==> same_letter(#[trigger] a[i], b[i]) {
        assert forall|i: int| 0 <= i < a.len() implies x[i] == y[i] by {
            assert(same_letter(a[i], b[i]));
        }
        assert(x =~= y);
    }
}

/// Trimming takes white space off both ends, all of it, and nothing else.
pub proof fn law_trim(before: Seq<char>, text: Seq<char>, after: Seq<char>)
    requires
        forall|i: int| 0 <= i < before.len() ==> is_white(#[trigger] before[i]),
        forall|i: int| 0 <= i < after.len() ==> is_white(#[trigger] after[i]),
        text.len() > 0 ==> !is_white(text[0]) && !is_white(text.last()),
    ensures
        trim_text(before + text + after) == text,
{
    if text.len() == 0 {
        let all = before + text + after;
        assert forall|i: int| 0 <= i < all.len() implies is_white(#[trigger] all[i]) by {
            if i < before.len() {
                assert(all[i] == before[i]);
            } else {
                assert(all[i] == after[i - before.len()]);
            }
        }
        lemma_trim_start_of_blank(all);
        assert(text =~= seq![]);
    } else {
        lemma_trim_start(before, text + after);
        assert(before + text + after =~= before + (text + after));
        lemma_trim_end(text, after);
    }
}

proof fn lemma_trim_start_of_blank(s: Seq<char>)
    requires
        forall|i: int| 0 <= i < s.len() ==> is_white(#[trigger] s[i]),
    ensures
        trim_start(s) == Seq::<char>::empty(),
    decreases s.len(),
{
    if s.len() > 0 {
        assert(is_white(s[0]));
        let rest = s.skip(1);
        assert forall|i: int| 0 <= i < rest.len() implies is_white(#[trigger] rest[i]) by {
            assert(rest[i] == s[i + 1]);
        }
        lemma_trim_start_of_blank(rest);
    } else {
        assert(s =~= Seq::<char>::empty());
    }
}

proof fn lemma_trim_start(before: Seq<char>, text: Seq<char>)
    requires
        forall|i: int| 0 <= i < before.len() ==> is_white(#[trigger] before[i]),
        text.len() > 0 && !is_white(text[0]),
    ensures
        trim_start(before + text) == text,
    decreases before.len(),
{
    if before.len() > 0 {
        assert(is_white(before[0]));
        let rest = before.skip(1);
        assert forall|i: int| 0 <= i < rest.len() implies is_white(#[trigger] rest[i]) by {
            assert(rest[i] == before[i + 1]);
        }
        lemma_trim_start(rest, text);
        assert((before + text).skip(1) =~= rest + text);
    } else {
        assert(before + text =~= text);
    }
}

proof fn lemma_trim_end(text: Seq<char>, after: Seq<char>)
    requires
        forall|i: int| 0 <= i < after.len() ==> is_white(#[trigger] after[i]),
        text.len() > 0 && !is_white(text.last()),
    ensures
        trim_end(text + after) == text,
    decreases after.len(),
{
    if after.len() > 0 {
        assert(is_white(after[after.len() - 1]));
        let rest = after.drop_last();
        assert forall|i: int| 0 <= i < rest.len() implies is_white(#[trigger] rest[i]) by {
            assert(rest[i] == after[i]);
        }
        lemma_trim_end(text, rest);
        assert((text + after).drop_last() =~= text + rest);
    } else {
        assert(text + after =~= text);
    }
}

/// White space is tab to carriage return, space, and the other characters with
/// the Unicode property; a text is blank where it holds nothing else.
pub proof fn law_white_space(s: Seq<char>, c: char)
    ensures
        is_white(c) <==> ({
            let n = c as int;
            ||| 9 <= n <= 13
            ||| n == 32
            ||| n == 0x85
            ||| n == 0xa0
            ||| n == 0x1680
            ||| 0x2000 <= n <= 0x200a
            ||| n == 0x2028
            ||| n == 0x2029
            ||| n == 0x202f
            ||| n == 0x205f
            ||| n == 0x3000
        }),
        blank_text(Seq::empty()),
        blank_text(s.push(c)) <==> blank_text(s) && is_white(c),
{
    let t = s.push(c);
    if blank_text(t) {
        assert forall|i: int| 0 <= i < s.len() implies is_white(#[trigger] s[i]) by {
            assert(t[i] == s[i]);
        }
        assert(t[s.len() as int] == c);
    }
}

/// Each `\r\n` becomes a `\n`; a text without one stays as it is.
pub proof fn law_unix_text(a: Seq<char>, b: Seq<char>)
    ensures
        unix_text(a + seq!['\r', '\n'] + b) == unix_text(a) + seq!['\n'] + unix_text(b),
        (forall|i: int| 0 <= i < a.len() - 1 ==> !(#[trigger] a[i] == '\r' && a[i + 1] == '\n'))
            ==> unix_text(a) == a,
    decreases b.len(),
{
    let mark = seq!['\r', '\n'];
    let all = a + mark + b;
    if b.len() == 0 {
        assert(all.take(all.len() - 2) =~= a);
        assert(unix_text(b) =~= seq![]);
        assert(unix_text(a) + seq!['\n'] + unix_text(b) =~= unix_text(a).push('\n'));
    } else if b.len() >= 2 && b.last() == '\n' && b[b.len() - 2] == '\r' {
        let rest = b.take(b.len() - 2);
        law_unix_text(a, rest);
        assert(all.take(all.len() - 2) =~= a + mark + rest);
        assert(unix_text(a) + seq!['\n'] + unix_text(b) =~= (unix_text(a) + seq!['\n'] + unix_text(
            rest,
        )).push('\n'));
    } else {
        let rest = b.drop_last();
        law_unix_text(a, rest);
        assert(all.drop_last() =~= a + mark + rest);
        assert(all[all.len() - 2] == (if b.len() >= 2 {
            b[b.len() - 2]
        } else {
            '\n'
        }));
        assert(unix_text(a) + seq!['\n'] + unix_text(b) =~= (unix_text(a) + seq!['\n'] + unix_text(
            rest,
        )).push(b.last()));
    }
    if forall|i: int| 0 <= i < a.len() - 1 ==> !(#[trigger] a[i] == '\r' && a[i + 1] == '\n') {
        lemma_unix_text_keeps(a);
    }
}

/// Trimming newlines takes off all that stand at the end, and nothing else.
pub proof fn law_trim_newlines(text: Seq<char>, n: nat)
    requires
        text.len() == 0 || text.last() != '\n',
    ensures
        trim_newlines(text + Seq::new(n, |i: int| '\n')) == text,
    decreases n,
{
    let tail = Seq::new(n, |i: int| '\n');
    if n > 0 {
        let m = (n - 1) as nat;
        law_trim_newlines(text, m);
        assert((text + tail).drop_last() =~= text + Seq::new(m, |i: int| '\n'));
    } else {
        assert(text + tail =~= text);
    }
}

/// A text is cut at its first separator, and what follows is cut further; one
/// without a separator is not cut.
pub proof fn law_split(a: Seq<char>, sep: char, b: Seq<char>)
    requires
        !a.contains(sep),
    ensures
        split_text(a + seq![sep] + b, sep) == seq![a] + split_text(b, sep),
        split_text(a, sep) == seq![a],
{
    let all = a + seq![sep] + b;
    lemma_first_is(all, sep, a.len() as int);
    assert forall|i: int| 0 <= i < a.len() implies a[i] != sep by {
        assert(a.contains(a[i]));
    }
    lemma_first_of(a, sep);
    assert(all.take(a.len() as int) =~= a);
    assert(all.skip(a.len() as int + 1) =~= b);
}

/// The first place of a character is the one with none before it.
proof fn lemma_first_is(s: Seq<char>, c: char, at: int)
    requires
        0 <= at < s.len(),
        s[at] == c,
        !s.take(at).contains(c),
    ensures
        first_of(s, c) == at,
{
    lemma_first_of(s, c);
    if first_of(s, c) < at {
        assert(s.take(at)[first_of(s, c)] == c);
    }
}

/// The lines of a text: its first line without its `\n` or `\r\n`, and the lines
/// of what follows. What follows the last `\n` is a line where there is any.
pub proof fn law_lines(a: Seq<char>, b: Seq<char>)
    requires
        !a.contains('\n'),
    ensures
        a.len() == 0 || a.last() != '\r' ==> lines_of(a + seq!['\n'] + b) == seq![a] + lines_of(b),
        lines_of(a + seq!['\r', '\n'] + b) == seq![a] + lines_of(b),
        a.len() > 0 ==> lines_of(a) == seq![a],
        lines_of(Seq::empty()) == Seq::<Seq<char>>::empty(),
{
    let one = a + seq!['\n'] + b;
    let two = a + seq!['\r', '\n'] + b;
    let bare = a + seq!['\r'];
    assert forall|i: int| 0 <= i < a.len() implies a[i] != '\n' by {
        assert(a.contains(a[i]));
    }
    assert(one.take(a.len() as int) =~= a);
    assert(two.take(a.len() as int + 1) =~= bare);
    assert(!bare.contains('\n'));
    lemma_first_is(one, '\n', a.len() as int);
    lemma_first_is(two, '\n', a.len() as int + 1);
    lemma_first_of(a, '\n');
    assert(one.skip(a.len() as int + 1) =~= b);
    assert(two.skip(a.len() as int + 2) =~= b);
    assert(bare.drop_last() =~= a);
}

/// A number below ten is written as its digit, and ten times a number and a
/// digit as that number and the digit. Four digits are always written.
pub proof fn law_numerals(n: nat, d: nat)
    requires
        d < 10,
    ensures
        decimal_text(d).len() == 1 && decimal_text(d)[0] as int == 48 + d,
        n > 0 ==> decimal_text(n * 10 + d) == decimal_text(n) + decimal_text(d),
        padded_text(n).len() >= 4,
        padded_text(n).len() > 4 ==> padded_text(n) == decimal_text(n),
        decimal_text(n).is_suffix_of(padded_text(n)),
        forall|i: int|
            0 <= i < padded_text(n).len() - decimal_text(n).len() ==> #[trigger] padded_text(n)[i]
                == '0',
{
    let m = n * 10 + d;
    if n > 0 {
        assert(m >= 10);
        assert(m / 10 == n && m % 10 == d);
        assert(decimal_text(n).push(decimal_text(d)[0]) =~= decimal_text(n) + decimal_text(d));
    }
    let digits = decimal_text(n);
    let padded = padded_text(n);
    assert(digits =~= padded.skip(padded.len() - digits.len()));
}

/// The numeral of a number begins with a zero only where the number is zero.
pub proof fn law_no_leading_zero(n: nat)
    ensures
        decimal_text(n).len() > 0,
        n > 0 ==> decimal_text(n)[0] != '0',
        n < 10 ==> decimal_text(n).len() == 1,
    decreases n,
{
    if n >= 10 {
        law_no_leading_zero(n / 10);
        law_numerals(n / 10, n % 10);
        assert(n / 10 * 10 + n % 10 == n);
        assert(decimal_text(n)[0] == decimal_text(n / 10)[0]);
    } else {
        law_numerals(1, n);
    }
}

/// A number is read from its digits one by one, an optional `+` before them; a
/// text that holds anything else, or nothing, or too large a number, is none.
pub proof fn law_reading_numbers(s: Seq<char>, c: char)
    ensures
        48 <= c as int <= 57 ==> parsed_u32(seq![c]) == Some((c as int - 48) as u32),
        all_digits(s) && 48 <= c as int <= 57 ==> parsed_u32(s.push(c)) == (match parsed_u32(s) {
            Some(v) if v * 10 + (c as int - 48) <= u32::MAX => Some(
                (v * 10 + (c as int - 48)) as u32,
            ),
            _ => None,
        }),
        all_digits(s) ==> parsed_u32(seq!['+'] + s) == parsed_u32(s),
        !all_digits(s) && !(s.len() > 0 && s[0] == '+') ==> parsed_u32(s) is None,
        !all_digits(s) ==> parsed_u32(seq!['+'] + s) is None,
        all_digits(s) <==> s.len() > 0 && forall|i: int|
            0 <= i < s.len() ==> 48 <= (#[trigger] s[i]) as int <= 57,
{
    assert((seq!['+'] + s).skip(1) =~= s);
    if 48 <= c as int <= 57 {
        let one = seq![c];
        assert(one.drop_last() =~= seq![]);
        assert(decimal_value(one.drop_last()) == 0);
        assert(is_digit(one[0]));
        assert(without_plus(one) == one);
        if all_digits(s) {
            let t = s.push(c);
            assert forall|i: int| 0 <= i < t.len() implies is_digit(#[trigger] t[i]) by {
                if i < s.len() {
                    assert(is_digit(s[i]));
                }
            }
            assert(is_digit(s[0]));
            assert(without_plus(s) == s && without_plus(t) == t);
            assert(t.drop_last() =~= s);
            assert(decimal_value(t) == decimal_value(s) * 10 + (c as int - 48));
        }
    }
    if all_digits(s) {
        assert(is_digit(s[0]));
        assert(without_plus(s) == s);
    }
    assert(all_digits(s) <==> s.len() > 0 && forall|i: int|
        0 <= i < s.len() ==> 48 <= (#[trigger] s[i]) as int <= 57) by {
        if all_digits(s) {
            assert forall|i: int| 0 <= i < s.len() implies 48 <= (#[trigger] s[i]) as int <= 57 by {
                assert(is_digit(s[i]));
            }
        }
    }
}

/// Every `u32` is read back from its numeral, with and without zeros before it.
pub proof fn law_numbers_read_back(n: u32)
    ensures
        parsed_u32(decimal_text(n as nat)) == Some(n),
        parsed_u32(padded_text(n as nat)) == Some(n),
{
    lemma_decimal_reads_back(n as nat);
    lemma_padded_reads_back(n);
    let text = decimal_text(n as nat);
    assert(is_digit(text[0]));
    assert(without_plus(text) == text);
}

} // verus!
