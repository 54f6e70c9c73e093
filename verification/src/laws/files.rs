//! Laws on subject files: how they are read, what is written, and where.

use crate::lines::{
    has_crlf, lemma_last_of, lemma_last_of_is, lemma_lf_text_keeps, lemma_trim_lf_text, lf_text,
    trim_crs, trim_line_ends, unix_text,
};
use crate::parser::{
    assembled, delimiter_at, delimiter_line, first_delimiter, lemma_first_delimiter,
    parse_error_texts, parses_to, split_file, split_rest, without_bom, DocView, Frontmatter,
    MarkdownDoc, MissingDelimiter, ParseError,
};
use crate::paths::{
    body_start, end_before, is_idle, join_path, lemma_used_end, lemma_used_end_local, name_of,
    parent_of, tail_start, used_end,
};
use crate::writer::{
    after_step, atomic_steps, document_text, frontmatter_text, is_readable, normal_body,
    step_failure_text, steps_view, tmp_path, Disk, FileStep, RenderError, StepView,
};
use vstd::prelude::*;

verus! {

// -------------------------------------------------------------------- reading

/// Whether a line begins at `at` that is three hyphens and nothing else.
pub open spec fn is_rule_at(s: Seq<char>, at: int) -> bool {
    &&& 0 <= at && at + 3 <= s.len()
    &&& s.subrange(at, at + 3) == seq!['-', '-', '-']
    &&& at == 0 || s[at - 1] == '\n'
    &&& at + 3 == s.len() || s[at + 3] == '\n'
}

proof fn lemma_rule(s: Seq<char>, at: int)
    ensures
        is_rule_at(s, at) <==> delimiter_at(s, at),
{
    if 0 <= at && at + 3 <= s.len() {
        let part = s.subrange(at, at + 3);
        assert(part[0] == s[at] && part[1] == s[at + 1] && part[2] == s[at + 2]);
        if delimiter_at(s, at) {
            assert(part =~= seq!['-', '-', '-']);
        }
    }
}

/// What follows the opening `---` line splits at the first `---` line in it, and
/// does not split where there is none. Put together again, the parts are what was
/// split.
#[verifier::rlimit(40)]
pub proof fn law_rest_splits_at_its_first_rule(rest: Seq<char>)
    ensures
        match split_rest(rest) {
            Ok((yaml, body)) => {
                &&& rest == yaml + seq!['-', '-', '-', '\n'] + body || body.len() == 0 && rest
                    == yaml + seq!['-', '-', '-']
                &&& yaml.len() == 0 || yaml[yaml.len() - 1] == '\n'
                &&& forall|at: int| !is_rule_at(yaml, at)
            },
            Err(missing) => {
                &&& missing == MissingDelimiter::Closing
                &&& forall|at: int| !is_rule_at(rest, at)
            },
        },
{
    let rule = seq!['-', '-', '-', '\n'];
    lemma_first_delimiter(rest, 0);
    if let Some(at) = first_delimiter(rest, 0) {
        let (yaml, body) = split_rest(rest)->Ok_0;
        lemma_rule(rest, at);
        assert forall|i: int| !is_rule_at(yaml, i) by {
            if is_rule_at(yaml, i) {
                assert(yaml.subrange(i, i + 3) =~= rest.subrange(i, i + 3));
                if i + 3 == yaml.len() {
                    assert(yaml[i + 2] == yaml.subrange(i, i + 3)[2]);
                }
                assert(is_rule_at(rest, i));
                lemma_rule(rest, i);
            }
        }
        if at + 3 < rest.len() {
            assert(rest =~= yaml + rule + body);
        } else {
            assert(rest =~= yaml + seq!['-', '-', '-']);
        }
    } else {
        assert forall|at: int| !is_rule_at(rest, at) by {
            lemma_rule(rest, at);
        }
    }
}

/// The text of a file as it is read: without a byte order mark at its start, and
/// with `\n` for `\r\n`.
pub open spec fn text_as_read(input: Seq<char>) -> Seq<char> {
    unix_text(
        if input.len() > 0 && input[0] as int == 0xfeff {
            input.skip(1)
        } else {
            input
        },
    )
}

/// A file splits unless it does not begin with a `---` line or no other such line
/// follows.
#[verifier::rlimit(40)]
pub proof fn law_files_that_do_not_split(input: Seq<char>)
    ensures
        ({
            let text = text_as_read(input);
            let opened = text.len() >= 4 && text.take(4) == seq!['-', '-', '-', '\n'];
            let split = split_file(input);
            &&& split == Err::<(Seq<char>, Seq<char>), _>(MissingDelimiter::Opening) <==> !opened
            &&& split == Err::<(Seq<char>, Seq<char>), _>(MissingDelimiter::Closing) <==> opened
                && forall|at: int| !is_rule_at(text.skip(4), at)
        }),
{
    let text = text_as_read(input);
    assert(text == unix_text(without_bom(input)));
    if text.len() >= 4 {
        assert(delimiter_line() == seq!['-', '-', '-', '\n']);
        assert(delimiter_line().is_prefix_of(text) <==> text.take(4) == delimiter_line());
        let rest = text.skip(4);
        lemma_first_delimiter(rest, 0);
        if let Some(at) = first_delimiter(rest, 0) {
            lemma_rule(rest, at);
        } else {
            assert forall|at: int| !is_rule_at(rest, at) by {
                lemma_rule(rest, at);
            }
        }
    } else {
        assert(!delimiter_line().is_prefix_of(text));
    }
}

/// A file splits at the first `---` line behind the one that it begins with: put
/// together again, the parts are the file.
#[verifier::rlimit(40)]
pub proof fn law_file_splits_at_its_rules(input: Seq<char>)
    requires
        split_file(input) is Ok,
    ensures
        ({
            let text = text_as_read(input);
            let (yaml, body) = split_file(input)->Ok_0;
            &&& text == seq!['-', '-', '-', '\n'] + yaml + seq!['-', '-', '-', '\n'] + body
                || body.len() == 0 && text == seq!['-', '-', '-', '\n'] + yaml + seq!['-', '-', '-']
            &&& yaml.len() == 0 || yaml[yaml.len() - 1] == '\n'
            &&& forall|at: int| !is_rule_at(yaml, at)
        }),
{
    let text = text_as_read(input);
    let rule = seq!['-', '-', '-', '\n'];
    assert(text == unix_text(without_bom(input)));
    assert(delimiter_line() == rule);
    let rest = text.skip(4);
    assert(text.take(4) =~= rule);
    assert(text =~= rule + rest);
    let (yaml, body) = split_file(input)->Ok_0;
    law_rest_splits_at_its_first_rule(rest);
    assert(rule + (yaml + rule + body) =~= rule + yaml + rule + body);
    assert(rule + (yaml + seq!['-', '-', '-']) =~= rule + yaml + seq!['-', '-', '-']);
}

/// Reading a file hands the text between its `---` lines to the decoder. What the
/// decoder makes of it and the body as it stands in the file are the document; what
/// it says against it is the error. Without its `---` lines a file is not read.
pub proof fn law_reading<F: FnOnce(String) -> Result<Frontmatter, String>>(
    decode: F,
    input: Seq<char>,
    doc: Result<MarkdownDoc, ParseError>,
)
    requires
        parses_to(decode, input, doc),
    ensures
        split_file(input) matches Ok((yaml, body)) ==> exists|
            text: String,
            decoded: Result<Frontmatter, String>,
        |
            {
                &&& text@ == yaml
                &&& #[trigger] decode.ensures((text,), decoded)
                &&& decoded matches Ok(fm) ==> (doc matches Ok(d) && d.frontmatter == fm && d.body@
                    == body)
                &&& decoded matches Err(cause) ==> doc == Err::<MarkdownDoc, _>(
                    ParseError::Frontmatter(cause),
                )
            },
        split_file(input) matches Err(missing) ==> doc == Err::<MarkdownDoc, _>(
            ParseError::Delimiter(missing),
        ),
{
    if let Ok((yaml, body)) = split_file(input) {
        let (text, decoded) = choose|text: String, decoded: Result<Frontmatter, String>|
            text@ == yaml && #[trigger] decode.ensures((text,), decoded)
                && assembled(body, decoded, doc);
        assert(decode.ensures((text,), decoded));
    }
}

/// What is said of a file that is not read names the `---` line that it lacks, or
/// gives the decoder's own words as the cause.
pub proof fn law_reading_messages(cause: String)
    ensures
        parse_error_texts(ParseError::Delimiter(MissingDelimiter::Opening)) == seq![
            "missing opening `---` frontmatter delimiter"@,
        ],
        parse_error_texts(ParseError::Delimiter(MissingDelimiter::Closing)) == seq![
            "missing closing `---` frontmatter delimiter"@,
        ],
        parse_error_texts(ParseError::Frontmatter(cause)) == seq![
            "failed to parse YAML frontmatter"@,
            cause@,
        ],
{
}

// --------------------------------------------------------------------- bodies

/// Whether a text is made of `\r` and `\n` alone.
pub open spec fn is_line_ends(s: Seq<char>) -> bool {
    forall|i: int| 0 <= i < s.len() ==> #[trigger] s[i] == '\r' || s[i] == '\n'
}

/// Whether `\r\n` stands in a text.
pub open spec fn holds_crlf(s: Seq<char>) -> bool {
    exists|i: int| 0 <= i && i + 1 < s.len() && #[trigger] s[i] == '\r' && s[i + 1] == '\n'
}

/// A text without `\r\n` has `\n` line endings already; a `\r\n` in a text becomes
/// the `\n` that it would be. The line endings at the end of a text are taken off,
/// all of them and nothing else.
pub proof fn law_line_endings(a: Seq<char>, b: Seq<char>, tail: Seq<char>)
    ensures
        !holds_crlf(a) ==> lf_text(a) == a,
        lf_text(a + seq!['\r', '\n'] + b) == lf_text(a + seq!['\n'] + b),
        is_line_ends(tail) && (a.len() == 0 || a[a.len() - 1] != '\r' && a[a.len() - 1] != '\n')
            ==> trim_line_ends(a + tail) == a,
    decreases tail.len(),
{
    if !holds_crlf(a) {
        assert(!has_crlf(a)) by {
            if has_crlf(a) {
                let i = choose|i: int|
                    0 <= i < a.len() - 1 && #[trigger] a[i] == '\r' && a[i + 1] == '\n';
                assert(holds_crlf(a));
            }
        }
        lemma_lf_text_keeps(a);
    }
    lemma_lf_text_of_crlf(a, b);
    if is_line_ends(tail) {
        if tail.len() > 0 {
            let init = tail.drop_last();
            assert forall|i: int| 0 <= i < init.len() implies #[trigger] init[i] == '\r' || init[i]
                == '\n' by {
                assert(tail[i] == '\r' || tail[i] == '\n');
            }
            law_line_endings(a, b, init);
            let last = tail[tail.len() - 1];
            assert(last == '\r' || last == '\n');
            assert((a + tail).drop_last() =~= a + init);
        } else {
            assert(a + tail =~= a);
        }
    }
}

/// A body without `\r\n` is written as it is but for the line endings at its end, of
/// which one `\n` is left.
pub proof fn law_body_is_kept(text: Seq<char>, tail: Seq<char>)
    requires
        !holds_crlf(text),
        text.len() == 0 || text[text.len() - 1] != '\r' && text[text.len() - 1] != '\n',
        is_line_ends(tail),
    ensures
        normal_body(text + tail) == text + seq!['\n'],
    decreases tail.len(),
{
    if tail.len() > 0 {
        let init = tail.drop_last();
        assert forall|i: int| 0 <= i < init.len() implies #[trigger] init[i] == '\r' || init[i]
            == '\n' by {
            assert(tail[i] == '\r' || tail[i] == '\n');
        }
        law_body_is_kept(text, init);
        let last = tail[tail.len() - 1];
        assert(last == '\r' || last == '\n');
        assert((text + tail).drop_last() =~= text + init);
    } else {
        assert(text + tail =~= text);
        assert(!has_crlf(text)) by {
            if has_crlf(text) {
                let i = choose|i: int|
                    0 <= i < text.len() - 1 && #[trigger] text[i] == '\r' && text[i + 1] == '\n';
                assert(holds_crlf(text));
            }
        }
        lemma_lf_text_keeps(text);
        assert(text.push('\n') =~= text + seq!['\n']);
    }
}

/// A body with a `\r\n` is written like the one with a `\n` in its place.
pub proof fn law_crlf_is_written_as_lf(a: Seq<char>, b: Seq<char>)
    ensures
        normal_body(a + seq!['\r', '\n'] + b) == normal_body(a + seq!['\n'] + b),
{
    let dos = a + seq!['\r', '\n'] + b;
    let unix = a + seq!['\n'] + b;
    lemma_lf_text_of_crlf(a, b);
    lemma_trim_lf_text(dos);
    lemma_trim_lf_text(unix);
}

proof fn lemma_lf_text_of_crlf(a: Seq<char>, b: Seq<char>)
    ensures
        lf_text(a + seq!['\r', '\n'] + b) == lf_text(a + seq!['\n'] + b),
    decreases b.len(),
{
    let dos = a + seq!['\r', '\n'] + b;
    let unix = a + seq!['\n'] + b;
    if b.len() == 0 {
        let bare = a.push('\r');
        assert(dos.drop_last() =~= bare);
        assert(unix.drop_last() =~= a);
        assert(bare.drop_last() =~= a);
        assert(lf_text(bare) == lf_text(a).push('\r'));
        assert(lf_text(a).push('\r').drop_last() =~= lf_text(a));
        assert(trim_crs(lf_text(bare)) == trim_crs(lf_text(a)));
    } else {
        assert(dos.drop_last() =~= a + seq!['\r', '\n'] + b.drop_last());
        assert(unix.drop_last() =~= a + seq!['\n'] + b.drop_last());
        lemma_lf_text_of_crlf(a, b.drop_last());
    }
}

/// The file of a document is a `---` line, the text of its frontmatter, a `---`
/// line, and its body in the normal form; there is none where the frontmatter has
/// no text.
pub proof fn law_document_text(doc: DocView)
    ensures
        match frontmatter_text(doc.frontmatter) {
            Ok(yaml) => document_text(doc) == Ok::<_, RenderError>(
                seq!['-', '-', '-', '\n'] + yaml + seq!['-', '-', '-', '\n'] + normal_body(
                    doc.body,
                ),
            ),
            Err(error) => document_text(doc) == Err::<Seq<char>, _>(error),
        },
{
}

/// A frontmatter text can be read back where it ends in `\n`, holds no `\r` and no
/// `---` line.
pub proof fn law_readable_texts(yaml: Seq<char>)
    ensures
        is_readable(yaml) <==> {
            &&& yaml.len() > 0 && yaml[yaml.len() - 1] == '\n'
            &&& forall|i: int| 0 <= i < yaml.len() ==> #[trigger] yaml[i] != '\r'
            &&& forall|at: int| !is_rule_at(yaml, at)
        },
{
    assert forall|at: int| is_rule_at(yaml, at) == delimiter_at(yaml, at) by {
        lemma_rule(yaml, at);
    }
    if is_readable(yaml) {
        assert forall|i: int| 0 <= i < yaml.len() implies #[trigger] yaml[i] != '\r' by {
            assert(yaml.contains(yaml[i]));
        }
    }
    if forall|at: int| !is_rule_at(yaml, at) {
        assert forall|at: int| !delimiter_at(yaml, at) by {
            lemma_rule(yaml, at);
        }
    }
}

// ---------------------------------------------------------------------- paths

/// A name stands below a directory behind one `/`; a name that begins with `/`
/// stands for itself.
pub proof fn law_joining_paths(base: Seq<char>, name: Seq<char>)
    ensures
        name.len() > 0 && name[0] == '/' ==> join_path(base, name) == name,
        !(name.len() > 0 && name[0] == '/') ==> {
            &&& base.len() == 0 ==> join_path(base, name) == name
            &&& join_path(base + seq!['/'], name) == base + seq!['/'] + name
            &&& base.len() > 0 && base[base.len() - 1] != '/' ==> join_path(base, name) == base
                + seq!['/'] + name
        },
{
    assert(base.len() == 0 ==> base + name =~= name);
}

/// Whether a text is a component of a path that counts: not empty, without `/`,
/// not `.`.
pub open spec fn is_component(c: Seq<char>) -> bool {
    &&& c.len() > 0
    &&& forall|i: int| 0 <= i < c.len() ==> #[trigger] c[i] != '/'
    &&& c != seq!['.']
}

/// Whether a path ends in a component that counts, or is `.`.
pub open spec fn ends_in_component(path: Seq<char>) -> bool {
    &&& path.len() > 0
    &&& path[path.len() - 1] != '/'
    &&& !(path.len() > 1 && path[path.len() - 1] == '.' && path[path.len() - 2] == '/')
}

/// The name of a path is its last component, and its parent what stands before
/// it; `..` is no name. Below `/` the parent is `/`.
#[verifier::rlimit(40)]
pub proof fn law_path_parts(dir: Seq<char>, c: Seq<char>)
    requires
        is_component(c),
    ensures
        ({
            let path = dir + seq!['/'] + c;
            &&& c != seq!['.', '.'] ==> name_of(path) == Some(c)
            &&& c == seq!['.', '.'] ==> name_of(path) is None
            &&& ends_in_component(dir) ==> parent_of(path) == Some(dir)
            &&& dir.len() == 0 ==> parent_of(path) == Some(seq!['/'])
            &&& c != seq!['.', '.'] ==> name_of(c) == Some(c)
            &&& c == seq!['.', '.'] ==> name_of(c) is None
            &&& parent_of(c) == Some(Seq::<char>::empty())
        }),
{
    let path = dir + seq!['/'] + c;
    let len = path.len() as int;
    let lo = body_start(path);
    let start = dir.len() as int + 1;
    let part = path.subrange(lo, len);
    if dir.len() > 0 {
        assert(part[dir.len() - lo] == '/');
        assert forall|i: int| dir.len() - lo < i < part.len() implies part[i] != '/' by {
            assert(part[i] == c[i + lo - start]);
        }
        lemma_last_of_is(part, '/', dir.len() - lo);
    } else {
        assert(part =~= c);
        lemma_last_of(c, '/');
        assert(path.take(1) =~= seq!['/']);
    }
    assert(tail_start(path, lo, len) == start);
    assert(path.subrange(start, len) =~= c);
    assert(used_end(path, lo, len) == len);
    if ends_in_component(dir) {
        let n = dir.len() as int;
        assert(end_before(lo, start) == n);
        assert(path.take(n) =~= dir);
        assert(dir.take(n) =~= dir);
        lemma_used_end_local(path, dir, lo, n);
        assert(body_start(dir) == lo);
        lemma_ends_in_component(dir);
    }
    lemma_single_component(c);
}

proof fn lemma_single_component(c: Seq<char>)
    requires
        is_component(c),
    ensures
        c != seq!['.', '.'] ==> name_of(c) == Some(c),
        c == seq!['.', '.'] ==> name_of(c) is None,
        parent_of(c) == Some(Seq::<char>::empty()),
{
    let len = c.len() as int;
    assert(c[0] != '/');
    assert(c.len() > 1 ==> c[1] != '/');
    assert(c.len() == 1 && c[0] == '.' ==> c =~= seq!['.']);
    assert(body_start(c) == 0);
    assert(c.subrange(0, len) =~= c);
    lemma_last_of(c, '/');
    assert(tail_start(c, 0, len) == 0);
    assert(used_end(c, 0, len) == len);
    assert(c.take(0) =~= Seq::<char>::empty());
    assert(used_end(c, 0, 0) == 0);
}

proof fn lemma_ends_in_component(dir: Seq<char>)
    requires
        ends_in_component(dir),
    ensures
        used_end(dir, body_start(dir), dir.len() as int) == dir.len(),
{
    let lo = body_start(dir);
    let n = dir.len() as int;
    if lo < n {
        let part = dir.subrange(lo, n);
        lemma_last_of(part, '/');
        let start = tail_start(dir, lo, n);
        let tail = dir.subrange(start, n);
        if start == n {
            assert(part[n - lo - 1] == '/');
        }
        if tail == seq!['.'] {
            assert(tail.len() == seq!['.'].len());
            assert(tail[0] == '.');
            assert(start == n - 1);
            if start > lo {
                assert(part[start - lo - 1] == '/');
                assert(dir[start - 1] == '/');
            }
        }
        assert(!is_idle(tail));
    }
}

/// Neither does a `/` or a `/.` in the middle of a path make a difference to its
/// parent.
#[verifier::rlimit(40)]
pub proof fn law_idle_middles(dir: Seq<char>, c: Seq<char>)
    requires
        is_component(c),
    ensures
        parent_of(dir + seq!['/'] + seq!['/'] + c) == parent_of(dir + seq!['/'] + c),
        parent_of(dir + seq!['/', '.'] + seq!['/'] + c) == parent_of(dir + seq!['/'] + c),
{
    let slash = dir + seq!['/'];
    let dot = dir + seq!['/', '.'];
    lemma_parent_of_component(slash, c);
    lemma_parent_of_component(dot, c);
    if dir.len() > 0 {
        lemma_parent_of_component(dir, c);
        lemma_idle_used_end(dir, slash);
        lemma_idle_used_end(dir, dot);
        let lo = body_start(dir);
        let n = dir.len() as int;
        lemma_used_end(dir, lo, n);
        let end = used_end(dir, lo, n);
        assert(slash.take(end) =~= dir.take(end));
        assert(dot.take(end) =~= dir.take(end));
    } else {
        law_path_parts(dir, c);
        assert(slash =~= seq!['/']);
        assert(dot =~= seq!['/', '.']);
        assert(body_start(slash) == 1 && body_start(dot) == 1);
        assert(used_end(slash, 1, 1) == 1);
        let part = dot.subrange(1, 2);
        assert(part =~= seq!['.']);
        lemma_last_of(part, '/');
        assert(part[0] == '.');
        assert(tail_start(dot, 1, 2) == 1);
        assert(used_end(dot, 1, 1) == 1);
        assert(used_end(dot, 1, 2) == 1);
        assert(slash.take(1) =~= seq!['/']);
        assert(dot.take(1) =~= seq!['/']);
    }
}

/// The parent of a component below a path is what is left of the path without the
/// end that does not count.
proof fn lemma_parent_of_component(dir: Seq<char>, c: Seq<char>)
    requires
        is_component(c),
        dir.len() > 0,
    ensures
        parent_of(dir + seq!['/'] + c) == Some(
            dir.take(used_end(dir, body_start(dir), dir.len() as int)),
        ),
{
    let path = dir + seq!['/'] + c;
    let len = path.len() as int;
    let lo = body_start(path);
    let n = dir.len() as int;
    let part = path.subrange(lo, len);
    assert(part[n - lo] == '/');
    assert forall|i: int| n - lo < i < part.len() implies part[i] != '/' by {
        assert(part[i] == c[i + lo - n - 1]);
    }
    lemma_last_of_is(part, '/', n - lo);
    assert(tail_start(path, lo, len) == n + 1);
    assert(path.subrange(n + 1, len) =~= c);
    assert(used_end(path, lo, len) == len);
    assert(end_before(lo, n + 1) == n);
    assert(path.take(n) =~= dir);
    assert(dir.take(n) =~= dir);
    lemma_used_end_local(path, dir, lo, n);
    assert(body_start(dir) == lo);
    lemma_used_end(dir, lo, n);
    let end = used_end(dir, lo, n);
    assert(path.take(end) =~= dir.take(end));
}

/// A `/` or a `/.` at the end of a path does not count.
proof fn lemma_idle_used_end(path: Seq<char>, longer: Seq<char>)
    requires
        path.len() > 0,
        longer == path + seq!['/'] || longer == path + seq!['/', '.'],
    ensures
        body_start(longer) == body_start(path),
        used_end(longer, body_start(path), longer.len() as int) == used_end(
            path,
            body_start(path),
            path.len() as int,
        ),
{
    let lo = body_start(path);
    let n = path.len() as int;
    let len = longer.len() as int;
    let part = longer.subrange(lo, len);
    assert(part[n - lo] == '/');
    assert forall|i: int| n - lo < i < part.len() implies part[i] != '/' by {
        assert(part[i] == longer[i + lo]);
    }
    lemma_last_of_is(part, '/', n - lo);
    let tail = longer.subrange(n + 1, len);
    assert(tail =~= seq![] || tail =~= seq!['.']);
    assert(tail_start(longer, lo, len) == n + 1);
    assert(is_idle(tail));
    assert(end_before(lo, n + 1) == n);
    assert(longer.take(n) =~= path);
    assert(path.take(n) =~= path);
    lemma_used_end_local(longer, path, lo, n);
}

/// A `/` or a `/.` at the end of a path makes no difference to its name and its
/// parent.
pub proof fn law_idle_ends(path: Seq<char>)
    requires
        path.len() > 0,
    ensures
        name_of(path + seq!['/']) == name_of(path),
        parent_of(path + seq!['/']) == parent_of(path),
        name_of(path + seq!['/', '.']) == name_of(path),
        parent_of(path + seq!['/', '.']) == parent_of(path),
{
    lemma_idle_end(path, path + seq!['/']);
    lemma_idle_end(path, path + seq!['/', '.']);
}

#[verifier::rlimit(40)]
proof fn lemma_idle_end(path: Seq<char>, longer: Seq<char>)
    requires
        path.len() > 0,
        longer == path + seq!['/'] || longer == path + seq!['/', '.'],
    ensures
        name_of(longer) == name_of(path),
        parent_of(longer) == parent_of(path),
{
    let lo = body_start(path);
    let n = path.len() as int;
    lemma_idle_used_end(path, longer);
    let hi = used_end(path, lo, n);
    lemma_used_end(path, lo, n);
    assert(longer.subrange(lo, hi) =~= path.subrange(lo, hi));
    let start = tail_start(path, lo, hi);
    if hi > lo {
        lemma_last_of(path.subrange(lo, hi), '/');
        assert(longer.subrange(start, hi) =~= path.subrange(start, hi));
        let before = end_before(lo, start);
        assert(longer.take(before) =~= path.take(before));
        lemma_used_end_local(longer, path, lo, before);
        lemma_used_end(path, lo, before);
        let end = used_end(path, lo, before);
        assert(longer.take(end) =~= path.take(end));
    }
}

/// The empty path, `/`, `/.` and `.` have no name; of these only `.` has a parent,
/// which is the empty path.
pub proof fn law_paths_without_a_name()
    ensures
        name_of(Seq::empty()) is None,
        parent_of(Seq::empty()) is None,
        name_of(seq!['/']) is None,
        parent_of(seq!['/']) is None,
        name_of(seq!['/', '.']) is None,
        parent_of(seq!['/', '.']) is None,
        name_of(seq!['.']) is None,
        parent_of(seq!['.']) == Some(Seq::<char>::empty()),
{
    let path = seq!['/', '.'];
    let part = path.subrange(1, 2);
    assert(part =~= seq!['.']);
    lemma_last_of(part, '/');
    assert(part[0] == '.');
    assert(tail_start(path, 1, 2) == 1);
    assert(used_end(path, 1, 1) == 1);
    assert(used_end(path, 1, 2) == 1);
}

// -------------------------------------------------------------- atomic writes

/// The file in a directory is staged under its own path with `.tmp` behind it.
pub proof fn law_staging_path(dir: Seq<char>, name: Seq<char>)
    requires
        ends_in_component(dir) || dir.len() == 0,
        is_component(name),
        name != seq!['.', '.'],
    ensures
        tmp_path(dir + seq!['/'] + name) == dir + seq!['/'] + name + seq!['.', 't', 'm', 'p'],
        tmp_path(name) == name + seq!['.', 't', 'm', 'p'],
{
    law_path_parts(dir, name);
    lemma_staged_below(dir, name);
    let path = dir + seq!['/'] + name;
    if dir.len() == 0 {
        lemma_staging_of(path, seq!['/'], name);
    } else {
        lemma_staging_of(path, dir, name);
    }
    lemma_staging_of(name, Seq::empty(), name);
}

proof fn lemma_staging_of(path: Seq<char>, parent: Seq<char>, name: Seq<char>)
    requires
        name_of(path) == Some(name),
        parent_of(path) == Some(parent),
    ensures
        tmp_path(path) == join_path(parent, name + seq!['.', 't', 'm', 'p']),
{
}

proof fn lemma_staged_below(dir: Seq<char>, name: Seq<char>)
    requires
        ends_in_component(dir) || dir.len() == 0,
        is_component(name),
    ensures
        ({
            let staged = name + seq!['.', 't', 'm', 'p'];
            let whole = dir + seq!['/'] + name + seq!['.', 't', 'm', 'p'];
            &&& dir.len() > 0 ==> join_path(dir, staged) == whole
            &&& dir.len() == 0 ==> join_path(seq!['/'], staged) == whole
            &&& join_path(Seq::empty(), staged) == staged
        }),
{
    let staged = name + seq!['.', 't', 'm', 'p'];
    let whole = dir + seq!['/'] + name + seq!['.', 't', 'm', 'p'];
    assert(staged[0] == name[0]);
    assert(dir + seq!['/'] + staged =~= whole);
    if dir.len() == 0 {
        assert(seq!['/'] + staged =~= whole);
    }
    assert(Seq::<char>::empty() + staged =~= staged);
}

/// The file in a directory is written in three steps: the directory is made, the
/// whole text goes into the staging file, and that is renamed to the path.
pub proof fn law_writing_a_file(dir: Seq<char>, name: Seq<char>, text: Seq<char>)
    requires
        ends_in_component(dir) || dir.len() == 0,
        is_component(name),
        name != seq!['.', '.'],
    ensures
        ({
            let path = dir + seq!['/'] + name;
            let staging = path + seq!['.', 't', 'm', 'p'];
            let steps = atomic_steps(path, text);
            &&& steps.len() == 3
            &&& dir.len() > 0 ==> steps[0] == StepView::CreateDirs(dir)
            &&& dir.len() == 0 ==> steps[0] == StepView::CreateDirs(seq!['/'])
            &&& steps[1] == StepView::Write(staging, text)
            &&& steps[2] == StepView::Rename(staging, path)
        }),
{
    law_staging_path(dir, name);
    law_path_parts(dir, name);
}

/// Whatever the path, its parent is made where it has one, the whole text goes into
/// the staging file, and that is renamed to the path, in this order.
pub proof fn law_steps_of_a_write(path: Seq<char>, text: Seq<char>)
    ensures
        ({
            let steps = atomic_steps(path, text);
            let n = steps.len() as int;
            &&& n == if parent_of(path) is Some {
                3int
            } else {
                2int
            }
            &&& parent_of(path) matches Some(dir) ==> steps[0] == StepView::CreateDirs(dir)
            &&& steps[n - 2] == StepView::Write(tmp_path(path), text)
            &&& steps[n - 1] == StepView::Rename(tmp_path(path), path)
        }),
{
}

/// Steps show what they say, one by one.
pub proof fn law_steps_show_what_they_say(steps: Seq<FileStep>, i: int)
    requires
        0 <= i < steps.len(),
    ensures
        steps_view(steps).len() == steps.len(),
        steps_view(steps)[i] == (match steps[i] {
            FileStep::CreateDirs(dir) => StepView::CreateDirs(dir@),
            FileStep::Write(path, text) => StepView::Write(path@, text@),
            FileStep::Rename(from, to) => StepView::Rename(from@, to@),
            FileStep::Remove(path) => StepView::Remove(path@),
        }),
{
}

/// A write makes its text the contents of its file, a rename takes contents from
/// one path to another, a removal takes a file away; nothing else is touched.
pub proof fn law_steps_on_disk(
    disk: Disk,
    path: Seq<char>,
    to: Seq<char>,
    text: Seq<char>,
    other: Seq<char>,
)
    requires
        other != path,
        other != to,
        path != to,
    ensures
        after_step(disk, StepView::CreateDirs(path)) == disk,
        after_step(disk, StepView::Write(path, text)).contains_pair(path, text),
        after_step(disk, StepView::Rename(path, to)).contains_pair(to, disk[path]),
        !after_step(disk, StepView::Rename(path, to)).contains_key(path),
        !after_step(disk, StepView::Remove(path)).contains_key(path),
        forall|step: StepView|
            step == StepView::Write(path, text) || step == StepView::Rename(path, to) || step
                == StepView::Remove(path) ==> {
                let after = #[trigger] after_step(disk, step);
                &&& after.contains_key(other) == disk.contains_key(other)
                &&& disk.contains_key(other) ==> after[other] == disk[other]
            },
{
}

/// What is said of a step that failed names what it was to do and its paths.
pub proof fn law_step_messages(path: Seq<char>, other: Seq<char>)
    ensures
        step_failure_text(StepView::CreateDirs(path)) == "creating parent dir "@ + path,
        step_failure_text(StepView::Write(path, other)) == "writing tmp file "@ + path,
        step_failure_text(StepView::Rename(path, other)) == "renaming "@ + path + " -> "@ + other,
        step_failure_text(StepView::Remove(path)) == "removing "@ + path,
{
}

} // verus!
