//! Line endings, lines, and text cut at a separator.

use crate::text::{chars_of, text_of};
use vstd::prelude::*;

verus! {

// ---------------------------------------------------------------- line endings

/// `s` with every `\r\n` replaced by `\n`: each `\r` that stands directly
/// before a `\n` is gone, everything else is kept.
pub open spec fn unix_text(s: Seq<char>) -> Seq<char>
    decreases s.len(),
{
    if s.len() == 0 {
        s
    } else if s.len() >= 2 && s.last() == '\n' && s[s.len() - 2] == '\r' {
        unix_text(s.take(s.len() - 2)).push('\n')
    } else {
        unix_text(s.drop_last()).push(s.last())
    }
}

/// `s` with every `\n` replaced by `\r\n`.
pub open spec fn dos_text(s: Seq<char>) -> Seq<char>
    decreases s.len(),
{
    if s.len() == 0 {
        s
    } else if s.last() == '\n' {
        dos_text(s.drop_last()).push('\r').push('\n')
    } else {
        dos_text(s.drop_last()).push(s.last())
    }
}

/// Whether `\r\n` stands somewhere in `s`.
pub open spec fn has_crlf(s: Seq<char>) -> bool {
    exists|i: int| 0 <= i < s.len() - 1 && #[trigger] s[i] == '\r' && s[i + 1] == '\n'
}

/// `s` with every `\r\n` replaced by `\n`.
pub fn to_unix(s: &str) -> (out: String)
    ensures
        out@ == unix_text(s@),
{
    let chars = chars_of(s);
    let mut out: Vec<char> = Vec::new();
    let mut i: usize = 0;
    while i < chars.len()
        invariant
            i <= chars.len(),
            chars@ == s@,
            out@ == unix_text(s@.take(i as int)),
            i > 0 && s@[i - 1] == '\r' ==> out@ == unix_text(s@.take(i - 1)).push('\r'),
        decreases chars.len() - i,
    {
        let c = chars[i];
        let ghost cut = s@.take(i + 1);
        assert(cut.drop_last() =~= s@.take(i as int));
        assert(cut.last() == c);
        if c == '\n' && i > 0 && chars[i - 1] == '\r' {
            assert(cut.take(cut.len() - 2) =~= s@.take(i - 1));
            out.pop();
            assert(out@ =~= unix_text(s@.take(i - 1)));
        }
        out.push(c);
        i += 1;
    }
    assert(s@.take(chars.len() as int) =~= s@);
    text_of(&out, 0, out.len())
}

/// A text without `\r\n` is left as it is.
pub proof fn lemma_unix_text_keeps(s: Seq<char>)
    requires
        !has_crlf(s),
    ensures
        unix_text(s) == s,
    decreases s.len(),
{
    if s.len() > 0 {
        let init = s.drop_last();
        assert forall|i: int| 0 <= i < init.len() - 1 && #[trigger] init[i] == '\r' implies init[i
            + 1] != '\n' by {
            assert(s[i] == '\r');
        }
        lemma_unix_text_keeps(init);
        if s.len() >= 2 && s.last() == '\n' && s[s.len() - 2] == '\r' {
            assert(has_crlf(s));
        }
        assert(unix_text(s) =~= s);
    }
}

/// Reading back a text that was written with `\r\n` line endings gives the
/// text with `\n` line endings.
pub proof fn lemma_unix_undoes_dos(s: Seq<char>)
    ensures
        unix_text(dos_text(s)) == s,
    decreases s.len(),
{
    if s.len() > 0 {
        let init = s.drop_last();
        lemma_unix_undoes_dos(init);
        let d = dos_text(s);
        if s.last() == '\n' {
            assert(d.take(d.len() - 2) =~= dos_text(init));
        } else {
            assert(d.drop_last() =~= dos_text(init));
        }
        assert(unix_text(d) =~= s);
    }
}

/// `s` without the `\r`s at its end.
pub open spec fn trim_crs(s: Seq<char>) -> Seq<char>
    decreases s.len(),
{
    if s.len() > 0 && s.last() == '\r' {
        trim_crs(s.drop_last())
    } else {
        s
    }
}

/// `s` with `\n` line endings: the `\r`s that stand before a `\n`, one or more,
/// are gone, everything else is kept.
pub open spec fn lf_text(s: Seq<char>) -> Seq<char>
    decreases s.len(),
{
    if s.len() == 0 {
        s
    } else if s.last() == '\n' {
        trim_crs(lf_text(s.drop_last())).push('\n')
    } else {
        lf_text(s.drop_last()).push(s.last())
    }
}

/// `s` without the `\r`s and `\n`s at its end.
pub open spec fn trim_line_ends(s: Seq<char>) -> Seq<char>
    decreases s.len(),
{
    if s.len() > 0 && (s.last() == '\n' || s.last() == '\r') {
        trim_line_ends(s.drop_last())
    } else {
        s
    }
}

/// Whether a `\r` stands before a `\n` or at the end of `s`.
pub open spec fn has_cr_ending(s: Seq<char>) -> bool {
    has_crlf(s) || (s.len() > 0 && s.last() == '\r')
}

/// `s` with `\n` line endings, whatever number of `\r`s stood before them.
pub fn to_lf(s: &str) -> (out: String)
    ensures
        out@ == lf_text(s@),
{
    let chars = chars_of(s);
    let mut out: Vec<char> = Vec::new();
    let mut i: usize = 0;
    while i < chars.len()
        invariant
            i <= chars.len(),
            chars@ == s@,
            out@ == lf_text(s@.take(i as int)),
        decreases chars.len() - i,
    {
        let c = chars[i];
        let ghost before = lf_text(s@.take(i as int));
        assert(s@.take(i + 1).drop_last() =~= s@.take(i as int));
        if c == '\n' {
            while out.len() > 0 && out[out.len() - 1] == '\r'
                invariant
                    trim_crs(out@) == trim_crs(before),
                decreases out.len(),
            {
                out.pop();
            }
            assert(trim_crs(out@) == out@);
        }
        out.push(c);
        i += 1;
    }
    assert(s@.take(chars.len() as int) =~= s@);
    text_of(&out, 0, out.len())
}

/// `s` without the `\r`s and `\n`s at its end.
pub fn without_line_ends(s: &str) -> (out: String)
    ensures
        out@ == trim_line_ends(s@),
{
    let chars = chars_of(s);
    let mut to: usize = chars.len();
    assert(s@.take(to as int) =~= s@);
    while to > 0 && (chars[to - 1] == '\n' || chars[to - 1] == '\r')
        invariant
            to <= chars.len(),
            chars@ == s@,
            trim_line_ends(s@) == trim_line_ends(s@.take(to as int)),
        decreases to,
    {
        assert(s@.take(to as int).drop_last() =~= s@.take(to - 1));
        to -= 1;
    }
    assert(s@.take(to as int) =~= s@.subrange(0, to as int));
    text_of(&chars, 0, to)
}

/// What is left is a part of the text at its start, and no `\r` ends it.
pub proof fn lemma_trim_crs(s: Seq<char>)
    ensures
        trim_crs(s).is_prefix_of(s),
        trim_crs(s).len() == 0 || trim_crs(s).last() != '\r',
    decreases s.len(),
{
    if s.len() > 0 && s.last() == '\r' {
        lemma_trim_crs(s.drop_last());
    }
}

/// No `\r\n` is left in a text with `\n` line endings, and its last character
/// is what it was.
pub proof fn lemma_lf_text(s: Seq<char>)
    ensures
        !has_crlf(lf_text(s)),
        s.len() > 0 ==> lf_text(s).len() > 0 && lf_text(s).last() == s.last(),
        s.len() == 0 ==> lf_text(s).len() == 0,
    decreases s.len(),
{
    if s.len() > 0 {
        let before = lf_text(s.drop_last());
        let out = lf_text(s);
        lemma_lf_text(s.drop_last());
        lemma_trim_crs(before);
        assert forall|i: int| 0 <= i < out.len() - 1 && #[trigger] out[i] == '\r' implies out[i + 1]
            != '\n' by {
            if s.last() == '\n' {
                let kept = trim_crs(before);
                assert(kept[i] == before[i]);
                if i < kept.len() - 1 {
                    assert(kept[i + 1] == before[i + 1]);
                }
            } else {
                assert(before[i] == '\r');
            }
        }
    }
}

/// A text without `\r\n` has `\n` line endings already.
pub proof fn lemma_lf_text_keeps(s: Seq<char>)
    requires
        !has_crlf(s),
    ensures
        lf_text(s) == s,
    decreases s.len(),
{
    if s.len() > 0 {
        let init = s.drop_last();
        assert forall|i: int| 0 <= i < init.len() - 1 && #[trigger] init[i] == '\r' implies init[i
            + 1] != '\n' by {
            assert(s[i] == '\r');
        }
        lemma_lf_text_keeps(init);
        if s.last() == '\n' && init.len() > 0 && init.last() == '\r' {
            assert(s[s.len() - 2] == '\r');
        }
        assert(lf_text(s) =~= s);
    }
}

/// What is trimmed is `\r`s and `\n`s, and all of those at the end.
pub proof fn lemma_trim_line_ends(s: Seq<char>)
    ensures
        trim_line_ends(s).is_prefix_of(s),
        trim_line_ends(s).len() > 0 ==> trim_line_ends(s).last() != '\n' && trim_line_ends(
            s,
        ).last() != '\r',
        forall|i: int| trim_line_ends(s).len() <= i < s.len() ==> s[i] == '\n' || s[i] == '\r',
    decreases s.len(),
{
    if s.len() > 0 && (s.last() == '\n' || s.last() == '\r') {
        lemma_trim_line_ends(s.drop_last());
        assert forall|i: int| trim_line_ends(s).len() <= i < s.len() implies s[i] == '\n' || s[i]
            == '\r' by {
            if i < s.len() - 1 {
                assert(s.drop_last()[i] == s[i]);
            }
        }
    }
}

/// Line endings are trimmed alike with and without the `\r`s at the end.
proof fn lemma_trim_crs_first(s: Seq<char>)
    ensures
        trim_line_ends(trim_crs(s)) == trim_line_ends(s),
    decreases s.len(),
{
    if s.len() > 0 && s.last() == '\r' {
        lemma_trim_crs_first(s.drop_last());
    }
}

/// It does not matter whether line endings are trimmed first or made `\n`s first.
pub proof fn lemma_trim_lf_text(s: Seq<char>)
    ensures
        trim_line_ends(lf_text(s)) == lf_text(trim_line_ends(s)),
    decreases s.len(),
{
    if s.len() > 0 {
        let init = s.drop_last();
        let out = lf_text(s);
        lemma_trim_lf_text(init);
        lemma_lf_text(s);
        if s.last() == '\n' {
            let kept = trim_crs(lf_text(init));
            assert(out.drop_last() =~= kept);
            lemma_trim_crs_first(lf_text(init));
        } else {
            assert(out.drop_last() =~= lf_text(init));
        }
    }
}

/// It does not matter whether each `\r\n` was made a `\n` before.
pub proof fn lemma_lf_text_of_unix_text(s: Seq<char>)
    ensures
        lf_text(unix_text(s)) == lf_text(s),
    decreases s.len(),
{
    if s.len() > 0 {
        let init = s.drop_last();
        let out = unix_text(s);
        if s.len() >= 2 && s.last() == '\n' && s[s.len() - 2] == '\r' {
            let before = s.take(s.len() - 2);
            lemma_lf_text_of_unix_text(before);
            assert(out.drop_last() =~= unix_text(before));
            assert(init.drop_last() =~= before);
            assert(lf_text(init).drop_last() =~= lf_text(before));
        } else {
            lemma_lf_text_of_unix_text(init);
            assert(out.drop_last() =~= unix_text(init));
        }
    }
}

/// Where no `\r` ends a line, `\n`s are all there is to trim.
pub proof fn lemma_trim_line_ends_is_trim_newlines(s: Seq<char>)
    requires
        !has_cr_ending(s),
    ensures
        trim_line_ends(s) == trim_newlines(s),
    decreases s.len(),
{
    if s.len() > 0 && s.last() == '\n' {
        let init = s.drop_last();
        assert forall|i: int| 0 <= i < init.len() - 1 && #[trigger] init[i] == '\r' implies init[i
            + 1] != '\n' by {
            assert(s[i] == '\r');
        }
        if init.len() > 0 && init.last() == '\r' {
            assert(s[s.len() - 2] == '\r');
        }
        lemma_trim_line_ends_is_trim_newlines(init);
    }
}

/// `s` without the `\n`s at its end.
pub open spec fn trim_newlines(s: Seq<char>) -> Seq<char>
    decreases s.len(),
{
    if s.len() > 0 && s.last() == '\n' {
        trim_newlines(s.drop_last())
    } else {
        s
    }
}

/// `s` without the `\n`s at its end.
pub fn without_final_newlines(s: &str) -> (out: String)
    ensures
        out@ == trim_newlines(s@),
{
    let chars = chars_of(s);
    let mut to: usize = chars.len();
    assert(s@.take(to as int) =~= s@);
    while to > 0 && chars[to - 1] == '\n'
        invariant
            to <= chars.len(),
            chars@ == s@,
            trim_newlines(s@) == trim_newlines(s@.take(to as int)),
        decreases to,
    {
        assert(s@.take(to as int).drop_last() =~= s@.take(to - 1));
        to -= 1;
    }
    assert(s@.take(to as int) =~= s@.subrange(0, to as int));
    text_of(&chars, 0, to)
}

/// What is trimmed is `\n`s, and all of those at the end.
pub proof fn lemma_trim_newlines(s: Seq<char>)
    ensures
        trim_newlines(s).is_prefix_of(s),
        trim_newlines(s).len() == 0 || trim_newlines(s).last() != '\n',
        forall|i: int| trim_newlines(s).len() <= i < s.len() ==> s[i] == '\n',
    decreases s.len(),
{
    if s.len() > 0 && s.last() == '\n' {
        lemma_trim_newlines(s.drop_last());
        assert forall|i: int| trim_newlines(s).len() <= i < s.len() implies s[i] == '\n' by {
            if i < s.len() - 1 {
                assert(s.drop_last()[i] == '\n');
            }
        }
    }
}

/// Trimming does not see the `\n` that is put behind a text.
pub proof fn lemma_trim_newlines_push(s: Seq<char>)
    ensures
        trim_newlines(s.push('\n')) == trim_newlines(s),
{
    assert(s.push('\n').drop_last() =~= s);
}

// ---------------------------------------------------------------- separators

/// The first place of `c` in `s`; the length of `s` where there is none.
pub open spec fn first_of(s: Seq<char>, c: char) -> int
    decreases s.len(),
{
    if s.len() == 0 || s[0] == c {
        0
    } else {
        1 + first_of(s.skip(1), c)
    }
}

/// The last place of `c` in `s`; `-1` where there is none.
pub open spec fn last_of(s: Seq<char>, c: char) -> int
    decreases s.len(),
{
    if s.len() == 0 {
        -1
    } else if s.last() == c {
        s.len() - 1
    } else {
        last_of(s.drop_last(), c)
    }
}

pub proof fn lemma_first_of(s: Seq<char>, c: char)
    ensures
        0 <= first_of(s, c) <= s.len(),
        first_of(s, c) < s.len() ==> s[first_of(s, c)] == c,
        forall|i: int| 0 <= i < first_of(s, c) ==> s[i] != c,
    decreases s.len(),
{
    if s.len() > 0 && s[0] != c {
        let rest = s.skip(1);
        lemma_first_of(rest, c);
        assert forall|i: int| 0 <= i < first_of(s, c) implies s[i] != c by {
            if i > 0 {
                assert(rest[i - 1] != c);
            }
        }
    }
}

pub proof fn lemma_last_of(s: Seq<char>, c: char)
    ensures
        -1 <= last_of(s, c) < s.len(),
        last_of(s, c) >= 0 ==> s[last_of(s, c)] == c,
        forall|i: int| last_of(s, c) < i < s.len() ==> s[i] != c,
    decreases s.len(),
{
    if s.len() > 0 && s.last() != c {
        lemma_last_of(s.drop_last(), c);
        assert forall|i: int| last_of(s, c) < i < s.len() implies s[i] != c by {
            if i < s.len() - 1 {
                assert(s.drop_last()[i] != c);
            }
        }
    }
}

/// The place of `c` is the one with no `c` behind it.
pub proof fn lemma_last_of_is(s: Seq<char>, c: char, at: int)
    requires
        0 <= at < s.len(),
        s[at] == c,
        forall|i: int| at < i < s.len() ==> s[i] != c,
    ensures
        last_of(s, c) == at,
{
    lemma_last_of(s, c);
}

/// The first place of `c` in `chars` at or behind `from`.
pub fn find_from(chars: &Vec<char>, from: usize, c: char) -> (at: usize)
    requires
        from <= chars.len(),
    ensures
        at == from + first_of(chars@.skip(from as int), c),
        from <= at <= chars.len(),
{
    let mut at: usize = from;
    while at < chars.len() && chars[at] != c
        invariant
            from <= at <= chars.len(),
            from + first_of(chars@.skip(from as int), c) == at + first_of(
                chars@.skip(at as int),
                c,
            ),
        decreases chars.len() - at,
    {
        assert(chars@.skip(at as int).skip(1) =~= chars@.skip(at + 1));
        at += 1;
    }
    at
}

/// `s` cut at every `sep`: one part more than there are `sep`s.
pub open spec fn split_text(s: Seq<char>, sep: char) -> Seq<Seq<char>>
    decreases s.len(),
    via split_text_shrinks
{
    let at = first_of(s, sep);
    if at >= s.len() {
        seq![s]
    } else {
        seq![s.take(at)] + split_text(s.skip(at + 1), sep)
    }
}

#[via_fn]
proof fn split_text_shrinks(s: Seq<char>, sep: char) {
    lemma_first_of(s, sep);
}

/// `s` cut at every `sep`.
pub fn split(s: &str, sep: char) -> (parts: Vec<String>)
    ensures
        parts.deep_view() == split_text(s@, sep),
{
    let chars = chars_of(s);
    let mut parts: Vec<String> = Vec::new();
    let mut from: usize = 0;
    assert(s@.skip(0) =~= s@);
    assert(parts.deep_view() + split_text(s@.skip(0), sep) =~= split_text(s@, sep));
    loop
        invariant
            from <= chars.len(),
            chars@ == s@,
            parts.deep_view() + split_text(s@.skip(from as int), sep) == split_text(s@, sep),
        decreases chars.len() - from,
    {
        let at = find_from(&chars, from, sep);
        let part = text_of(&chars, from, at);
        let ghost rest = s@.skip(from as int);
        let ghost before = parts.deep_view();
        assert(part@ =~= rest.take(at - from));
        parts.push(part);
        assert(parts.deep_view() =~= before.push(part@));
        if at >= chars.len() {
            assert(rest.take(at - from) =~= rest);
            assert(parts.deep_view() =~= before + seq![rest]);
            return parts;
        }
        assert(rest.skip(at - from + 1) =~= s@.skip(at + 1));
        assert(before + (seq![part@] + split_text(s@.skip(at + 1), sep)) =~= parts.deep_view()
            + split_text(s@.skip(at + 1), sep));
        from = at + 1;
    }
}

/// A line without the `\r` that belongs to its line ending.
pub open spec fn drop_cr(line: Seq<char>) -> Seq<char> {
    if line.len() > 0 && line.last() == '\r' {
        line.drop_last()
    } else {
        line
    }
}

/// The lines of `s`, each without its line ending (`\n` or `\r\n`). The last
/// line needs none, and a line ending at the end of `s` starts no new line.
pub open spec fn lines_of(s: Seq<char>) -> Seq<Seq<char>>
    decreases s.len(),
    via lines_of_shrinks
{
    let at = first_of(s, '\n');
    if s.len() == 0 {
        seq![]
    } else if at >= s.len() {
        seq![s]
    } else {
        seq![drop_cr(s.take(at))] + lines_of(s.skip(at + 1))
    }
}

#[via_fn]
proof fn lines_of_shrinks(s: Seq<char>) {
    lemma_first_of(s, '\n');
}

/// The lines of `s`, each without its line ending.
pub fn lines(s: &str) -> (out: Vec<String>)
    ensures
        out.deep_view() == lines_of(s@),
{
    let chars = chars_of(s);
    let mut out: Vec<String> = Vec::new();
    let mut from: usize = 0;
    assert(s@.skip(0) =~= s@);
    assert(out.deep_view() + lines_of(s@.skip(0)) =~= lines_of(s@));
    while from < chars.len()
        invariant
            from <= chars.len(),
            chars@ == s@,
            out.deep_view() + lines_of(s@.skip(from as int)) == lines_of(s@),
        decreases chars.len() - from,
    {
        let at = find_from(&chars, from, '\n');
        let ghost rest = s@.skip(from as int);
        let ghost before = out.deep_view();
        if at >= chars.len() {
            let line = text_of(&chars, from, at);
            assert(line@ =~= rest);
            out.push(line);
            assert(out.deep_view() =~= before + seq![rest]);
            return out;
        }
        let end = if at > from && chars[at - 1] == '\r' {
            at - 1
        } else {
            at
        };
        let line = text_of(&chars, from, end);
        assert(line@ =~= drop_cr(rest.take(at - from)));
        out.push(line);
        assert(out.deep_view() =~= before.push(line@));
        assert(rest.skip(at - from + 1) =~= s@.skip(at + 1));
        assert(before + (seq![line@] + lines_of(s@.skip(at + 1))) =~= out.deep_view() + lines_of(
            s@.skip(at + 1),
        ));
        from = at + 1;
    }
    assert(out.deep_view() + lines_of(s@.skip(from as int)) =~= out.deep_view());
    out
}

} // verus!
