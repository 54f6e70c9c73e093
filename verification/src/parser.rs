//! Subject files taken apart.
//!
//! A subject file is a YAML frontmatter block between two `---` lines,
//! followed by a Markdown body. Both `\n` and `\r\n` line endings are read; a
//! byte order mark at the start is ignored.

use crate::fields::FieldMap;
use crate::json::{JsonValue, JsonView};
use crate::lines::{
    dos_text, has_crlf, lemma_unix_text_keeps, lemma_unix_undoes_dos, to_unix, unix_text,
};
use crate::subject::{attachments_view, opt_text, Attachment, AttachmentView, SubjectStatus};
use crate::text::{chars_of, strip_prefix, text_of};
use crate::time::Timestamp;
use vstd::prelude::*;

verus! {

/// The structured fields of a subject file.
#[derive(Debug, PartialEq, Eq)]
pub struct Frontmatter {
    /// The fully-qualified id, such as `markdown:TASK-0001`.
    pub id: String,
    /// The subject kind.
    pub kind: String,
    /// A short title for people.
    pub title: String,
    /// The normalized status.
    pub status: SubjectStatus,
    /// A priority from 0 to 4.
    pub priority: Option<u8>,
    /// Who is to work on it.
    pub assignee: Option<String>,
    /// Labels.
    pub labels: Vec<String>,
    /// The id of the parent subject.
    pub parent_id: Option<String>,
    /// When it was created.
    pub created_at: Timestamp,
    /// When it was last updated.
    pub updated_at: Timestamp,
    /// The status in the words of the backend.
    pub native_status: Option<String>,
    /// The workflow dispatch label.
    pub dispatch_label: Option<String>,
    /// What else the backend has to say of the status.
    pub status_metadata: JsonValue,
    /// Attachments.
    pub attachments: Vec<Attachment>,
    /// Fields beyond those above.
    pub custom_fields: FieldMap,
}

/// What a [`Frontmatter`] holds.
#[verifier::ext_equal]
pub struct FrontmatterView {
    pub id: Seq<char>,
    pub kind: Seq<char>,
    pub title: Seq<char>,
    pub status: SubjectStatus,
    pub priority: Option<u8>,
    pub assignee: Option<Seq<char>>,
    pub labels: Seq<Seq<char>>,
    pub parent_id: Option<Seq<char>>,
    pub created_at: Timestamp,
    pub updated_at: Timestamp,
    pub native_status: Option<Seq<char>>,
    pub dispatch_label: Option<Seq<char>>,
    pub status_metadata: JsonView,
    pub attachments: Seq<AttachmentView>,
    pub custom_fields: Map<Seq<char>, JsonView>,
}

impl View for Frontmatter {
    type V = FrontmatterView;

    open spec fn view(&self) -> FrontmatterView {
        FrontmatterView {
            id: self.id@,
            kind: self.kind@,
            title: self.title@,
            status: self.status,
            priority: self.priority,
            assignee: opt_text(self.assignee),
            labels: self.labels.deep_view(),
            parent_id: opt_text(self.parent_id),
            created_at: self.created_at,
            updated_at: self.updated_at,
            native_status: opt_text(self.native_status),
            dispatch_label: opt_text(self.dispatch_label),
            status_metadata: self.status_metadata@,
            attachments: attachments_view(self.attachments@),
            custom_fields: self.custom_fields@,
        }
    }
}

/// A frontmatter with every optional field in its empty form.
pub open spec fn plain_frontmatter(
    id: Seq<char>,
    kind: Seq<char>,
    title: Seq<char>,
    status: SubjectStatus,
    created_at: Timestamp,
    updated_at: Timestamp,
) -> FrontmatterView {
    FrontmatterView {
        id,
        kind,
        title,
        status,
        priority: None,
        assignee: None,
        labels: seq![],
        parent_id: None,
        created_at,
        updated_at,
        native_status: None,
        dispatch_label: None,
        status_metadata: JsonView::Other(seq!['{', '}']),
        attachments: seq![],
        custom_fields: Map::empty(),
    }
}

impl Frontmatter {
    /// A frontmatter with the structural fields filled in and every optional
    /// field in its empty form.
    pub fn new(
        id: &str,
        kind: &str,
        title: &str,
        status: SubjectStatus,
        created_at: Timestamp,
        updated_at: Timestamp,
    ) -> (frontmatter: Self)
        ensures
            frontmatter@ == plain_frontmatter(id@, kind@, title@, status, created_at, updated_at),
    {
        let frontmatter = Frontmatter {
            id: id.to_owned(),
            kind: kind.to_owned(),
            title: title.to_owned(),
            status,
            priority: None,
            assignee: None,
            labels: Vec::new(),
            parent_id: None,
            created_at,
            updated_at,
            native_status: None,
            dispatch_label: None,
            status_metadata: JsonValue::empty_object(),
            attachments: Vec::new(),
            custom_fields: FieldMap::new(),
        };
        assert(frontmatter@ =~= plain_frontmatter(
            id@,
            kind@,
            title@,
            status,
            created_at,
            updated_at,
        ));
        frontmatter
    }
}

impl Clone for Frontmatter {
    fn clone(&self) -> (copy: Self)
        ensures
            copy@ == self@,
    {
        let copy = Frontmatter {
            id: self.id.clone(),
            kind: self.kind.clone(),
            title: self.title.clone(),
            status: self.status,
            priority: self.priority,
            assignee: self.assignee.clone(),
            labels: self.labels.clone(),
            parent_id: self.parent_id.clone(),
            created_at: self.created_at,
            updated_at: self.updated_at,
            native_status: self.native_status.clone(),
            dispatch_label: self.dispatch_label.clone(),
            status_metadata: self.status_metadata.clone(),
            attachments: self.attachments.clone(),
            custom_fields: self.custom_fields.clone(),
        };
        assert(copy@.labels =~= self@.labels);
        assert(copy@.attachments =~= self@.attachments);
        assert(copy@ =~= self@);
        copy
    }
}

/// A subject file: its frontmatter and its body. The body is kept as it is
/// read; writing brings its line endings in order.
#[derive(Debug, PartialEq, Eq)]
pub struct MarkdownDoc {
    /// The frontmatter.
    pub frontmatter: Frontmatter,
    /// What follows the closing `---` line. May be empty.
    pub body: String,
}

/// What a [`MarkdownDoc`] holds.
#[verifier::ext_equal]
pub struct DocView {
    pub frontmatter: FrontmatterView,
    pub body: Seq<char>,
}

impl View for MarkdownDoc {
    type V = DocView;

    open spec fn view(&self) -> DocView {
        DocView { frontmatter: self.frontmatter@, body: self.body@ }
    }
}

impl Clone for MarkdownDoc {
    fn clone(&self) -> (copy: Self)
        ensures
            copy@ == self@,
    {
        MarkdownDoc { frontmatter: self.frontmatter.clone(), body: self.body.clone() }
    }
}

/// The `---` line that a subject file lacks.
#[derive(Debug, Clone, Copy, PartialEq, Eq, Structural)]
pub enum MissingDelimiter {
    /// The one that opens the frontmatter.
    Opening,
    /// The one that closes it.
    Closing,
}

/// Why a subject file could not be read.
#[derive(Debug, PartialEq, Eq)]
pub enum ParseError {
    /// A `---` line is missing.
    Delimiter(MissingDelimiter),
    /// The frontmatter is not what it should be; in the words of the decoder.
    Frontmatter(String),
}

/// What is said of a file that could not be read: the first of these texts, and
/// the cause behind it where there is one.
pub open spec fn parse_error_texts(error: ParseError) -> Seq<Seq<char>> {
    match error {
        ParseError::Delimiter(MissingDelimiter::Opening) => seq![
            "missing opening `---` frontmatter delimiter"@,
        ],
        ParseError::Delimiter(MissingDelimiter::Closing) => seq![
            "missing closing `---` frontmatter delimiter"@,
        ],
        ParseError::Frontmatter(cause) => seq!["failed to parse YAML frontmatter"@, cause@],
    }
}

impl ParseError {
    /// What is said of a file that could not be read: the first of these texts,
    /// and the cause behind it where there is one.
    pub fn messages(self) -> (texts: Vec<String>)
        ensures
            texts.deep_view() == parse_error_texts(self),
    {
        let mut texts: Vec<String> = Vec::new();
        match self {
            ParseError::Delimiter(MissingDelimiter::Opening) => {
                texts.push("missing opening `---` frontmatter delimiter".to_owned());
            },
            ParseError::Delimiter(MissingDelimiter::Closing) => {
                texts.push("missing closing `---` frontmatter delimiter".to_owned());
            },
            ParseError::Frontmatter(cause) => {
                texts.push("failed to parse YAML frontmatter".to_owned());
                texts.push(cause);
            },
        }
        assert(texts.deep_view() =~= parse_error_texts(self));
        texts
    }
}

/// `---` and a line ending.
pub open spec fn delimiter_line() -> Seq<char> {
    seq!['-', '-', '-', '\n']
}

/// Whether a line that is `---` and nothing else begins at `at`.
pub open spec fn delimiter_at(s: Seq<char>, at: int) -> bool {
    &&& 0 <= at <= s.len() - 3
    &&& s[at] == '-' && s[at + 1] == '-' && s[at + 2] == '-'
    &&& at == 0 || s[at - 1] == '\n'
    &&& at + 3 == s.len() || s[at + 3] == '\n'
}

/// Whether some line of `s` is `---` and nothing else.
pub open spec fn has_delimiter(s: Seq<char>) -> bool {
    exists|at: int| delimiter_at(s, at)
}

/// The first `---` line of `s` that begins at `from` or behind it.
pub open spec fn first_delimiter(s: Seq<char>, from: int) -> Option<int>
    decreases s.len() - from,
{
    if from > s.len() - 3 {
        None
    } else if delimiter_at(s, from) {
        Some(from)
    } else {
        first_delimiter(s, from + 1)
    }
}

/// The frontmatter text and the body: what stands before the first `---` line,
/// and what stands behind it.
pub open spec fn split_rest(rest: Seq<char>) -> Result<(Seq<char>, Seq<char>), MissingDelimiter> {
    match first_delimiter(rest, 0) {
        Some(at) => Ok(
            (
                rest.take(at),
                if at + 3 < rest.len() {
                    rest.skip(at + 4)
                } else {
                    seq![]
                },
            ),
        ),
        None => Err(MissingDelimiter::Closing),
    }
}

/// The byte order mark.
pub open spec fn bom() -> char {
    '\u{feff}'
}

/// A text without a byte order mark at its start.
pub open spec fn without_bom(s: Seq<char>) -> Seq<char> {
    if s.len() > 0 && s[0] == bom() {
        s.skip(1)
    } else {
        s
    }
}

/// The frontmatter text and the body of a subject file.
pub open spec fn split_file(input: Seq<char>) -> Result<(Seq<char>, Seq<char>), MissingDelimiter> {
    let text = unix_text(without_bom(input));
    if delimiter_line().is_prefix_of(text) {
        split_rest(text.skip(4))
    } else {
        Err(MissingDelimiter::Opening)
    }
}

/// What [`first_delimiter`] finds is a `---` line, and the first one.
pub proof fn lemma_first_delimiter(s: Seq<char>, from: int)
    requires
        0 <= from,
    ensures
        first_delimiter(s, from) matches Some(at) ==> from <= at && delimiter_at(s, at) && (forall|
            i: int,
        |
            from <= i < at ==> !delimiter_at(s, i)),
        first_delimiter(s, from) is None ==> forall|i: int| from <= i ==> !delimiter_at(s, i),
    decreases s.len() - from,
{
    if from <= s.len() - 3 && !delimiter_at(s, from) {
        lemma_first_delimiter(s, from + 1);
    }
}

/// A `---` line with none before it is the first one.
pub proof fn lemma_first_delimiter_is(s: Seq<char>, at: int)
    requires
        delimiter_at(s, at),
        forall|i: int| 0 <= i < at ==> !delimiter_at(s, i),
    ensures
        first_delimiter(s, 0) == Some(at),
{
    lemma_first_delimiter(s, 0);
}

/// The frontmatter text and the body of what follows the opening `---` line.
///
/// The closing line is removed with its line ending; everything behind it is
/// the body.
pub fn split_on_delimiter(rest: &str) -> (parts: Result<(String, String), MissingDelimiter>)
    ensures
        match parts {
            Ok(pair) => split_rest(rest@) == Ok::<_, MissingDelimiter>((pair.0@, pair.1@)),
            Err(missing) => split_rest(rest@) == Err::<(Seq<char>, Seq<char>), _>(missing),
        },
{
    let chars = chars_of(rest);
    let len: usize = chars.len();
    let mut at: usize = 0;
    while at < len && len - at >= 3
        invariant
            at <= len,
            len == chars.len(),
            chars@ == rest@,
            first_delimiter(rest@, 0) == first_delimiter(rest@, at as int),
        decreases len - at,
    {
        if chars[at] == '-' && chars[at + 1] == '-' && chars[at + 2] == '-' && (at == 0 || chars[at
            - 1] == '\n') && (at + 3 == len || chars[at + 3] == '\n') {
            let yaml = text_of(&chars, 0, at);
            assert(yaml@ =~= rest@.take(at as int));
            let body = if at + 3 < len {
                text_of(&chars, at + 4, len)
            } else {
                String::new()
            };
            assert(at + 3 < len ==> body@ =~= rest@.skip(at + 4));
            assert(at + 3 >= len ==> body@ =~= seq![]);
            return Ok((yaml, body));
        }
        at += 1;
    }
    Err(MissingDelimiter::Closing)
}

/// The frontmatter text and the body of a subject file.
pub fn split_document(input: &str) -> (parts: Result<(String, String), MissingDelimiter>)
    ensures
        match parts {
            Ok(pair) => split_file(input@) == Ok::<_, MissingDelimiter>((pair.0@, pair.1@)),
            Err(missing) => split_file(input@) == Err::<(Seq<char>, Seq<char>), _>(missing),
        },
{
    let chars = chars_of(input);
    let start: usize = if chars.len() > 0 && chars[0] == '\u{feff}' {
        1
    } else {
        0
    };
    let unmarked = text_of(&chars, start, chars.len());
    assert(unmarked@ =~= without_bom(input@));
    let text = to_unix(unmarked.as_str());
    proof {
        reveal_strlit("---\n");
        assert("---\n"@ =~= delimiter_line());
    }
    match strip_prefix(text.as_str(), "---\n") {
        Some(rest) => split_on_delimiter(rest.as_str()),
        None => Err(MissingDelimiter::Opening),
    }
}

/// What reading a file comes to, given its parts and what the decoder made of
/// the frontmatter text.
pub open spec fn assembled(
    body: Seq<char>,
    decoded: Result<Frontmatter, String>,
    doc: Result<MarkdownDoc, ParseError>,
) -> bool {
    match decoded {
        Ok(frontmatter) => doc matches Ok(d) && d.frontmatter == frontmatter && d.body@ == body,
        Err(message) => doc == Err::<MarkdownDoc, _>(ParseError::Frontmatter(message)),
    }
}

/// Puts what the decoder made of the frontmatter text together with the body.
pub fn assemble(body: String, decoded: Result<Frontmatter, String>) -> (doc: Result<
    MarkdownDoc,
    ParseError,
>)
    ensures
        assembled(body@, decoded, doc),
{
    match decoded {
        Ok(frontmatter) => Ok(MarkdownDoc { frontmatter, body }),
        Err(message) => Err(ParseError::Frontmatter(message)),
    }
}

/// What reading the file `input` comes to with the decoder `decode`.
pub open spec fn parses_to<F: FnOnce(String) -> Result<Frontmatter, String>>(
    decode: F,
    input: Seq<char>,
    doc: Result<MarkdownDoc, ParseError>,
) -> bool {
    match split_file(input) {
        Ok((yaml, body)) => exists|text: String, decoded: Result<Frontmatter, String>|
            text@ == yaml && #[trigger] decode.ensures((text,), decoded) && assembled(
                body,
                decoded,
                doc,
            ),
        Err(missing) => doc == Err::<MarkdownDoc, _>(ParseError::Delimiter(missing)),
    }
}

/// Reads a subject file. `decode` turns the frontmatter text into a
/// [`Frontmatter`], or says why it cannot.
pub fn parse<F: FnOnce(String) -> Result<Frontmatter, String>>(input: &str, decode: F) -> (doc:
    Result<MarkdownDoc, ParseError>)
    requires
        forall|text: String| decode.requires((text,)),
    ensures
        parses_to(decode, input@, doc),
{
    match split_document(input) {
        Ok((yaml, body)) => {
            let decoded = decode(yaml);
            assemble(body, decoded)
        },
        Err(missing) => Err(ParseError::Delimiter(missing)),
    }
}

/// A file of the expected shape splits into its parts: an opening `---` line, a
/// frontmatter text without such a line, a closing `---` line, and the body,
/// which is kept as it is.
pub proof fn law_expected_shape(yaml: Seq<char>, body: Seq<char>)
    requires
        yaml.len() == 0 || yaml.last() == '\n',
        !has_crlf(yaml),
        !has_delimiter(yaml),
        !has_crlf(body),
    ensures
        split_file(delimiter_line() + yaml + delimiter_line() + body) == Ok::<_, MissingDelimiter>(
            (yaml, body),
        ),
        !has_crlf(delimiter_line() + yaml + delimiter_line() + body),
{
    let text = delimiter_line() + yaml + delimiter_line() + body;
    assert forall|i: int| 0 <= i < text.len() - 1 && #[trigger] text[i] == '\r' implies text[i + 1]
        != '\n' by {
        if 4 <= i < 4 + yaml.len() {
            assert(yaml[i - 4] == '\r');
            assert(i - 4 < yaml.len() - 1);
            assert(text[i + 1] == yaml[i - 4 + 1]);
        } else if i >= 8 + yaml.len() {
            assert(body[i - 8 - yaml.len()] == '\r');
            assert(text[i + 1] == body[i - 8 - yaml.len() + 1]);
        }
    }
    assert(text[0] == '-');
    assert(without_bom(text) == text);
    lemma_unix_text_keeps(text);
    assert(delimiter_line() =~= text.take(4));
    let rest = text.skip(4);
    assert(rest =~= yaml + delimiter_line() + body);
    let at = yaml.len() as int;
    assert(delimiter_at(rest, at));
    assert forall|i: int| 0 <= i < at implies !delimiter_at(rest, i) by {
        if delimiter_at(rest, i) {
            assert(rest[at - 1] == '\n');
            assert(rest[i + 3] == yaml[i + 3]);
            assert(delimiter_at(yaml, i));
        }
    }
    lemma_first_delimiter_is(rest, at);
    assert(rest.take(at) =~= yaml);
    assert(rest.skip(at + 4) =~= body);
}

/// A file is read alike whether its lines end in `\n` or in `\r\n`.
pub proof fn law_line_endings_read_alike(input: Seq<char>)
    requires
        !has_crlf(input),
    ensures
        split_file(dos_text(input)) == split_file(input),
{
    let dos = dos_text(input);
    lemma_dos_text_start(input);
    if input.len() > 0 && input[0] == bom() {
        let rest = input.skip(1);
        assert forall|i: int| 0 <= i < rest.len() - 1 && #[trigger] rest[i] == '\r' implies rest[i
            + 1] != '\n' by {
            assert(input[i + 1] == '\r');
        }
        lemma_unix_text_keeps(rest);
        lemma_unix_undoes_dos(rest);
    } else {
        lemma_unix_text_keeps(input);
        lemma_unix_undoes_dos(input);
    }
}

/// The first character of a text with `\r\n` line endings.
proof fn lemma_dos_text_start(s: Seq<char>)
    ensures
        s.len() > 0 ==> dos_text(s).len() > 0 && dos_text(s)[0] == (if s[0] == '\n' {
            '\r'
        } else {
            s[0]
        }),
        s.len() > 0 && s[0] != '\n' ==> dos_text(s).skip(1) == dos_text(s.skip(1)),
    decreases s.len(),
{
    if s.len() == 1 {
        assert(s.drop_last() =~= seq![]);
        assert(dos_text(s.drop_last()) =~= seq![]);
        if s[0] != '\n' {
            assert(dos_text(s).skip(1) =~= dos_text(s.skip(1)));
        }
    } else if s.len() > 1 {
        let init = s.drop_last();
        lemma_dos_text_start(init);
        if s[0] != '\n' {
            assert(s.skip(1).drop_last() =~= init.skip(1));
            assert(dos_text(s).skip(1) =~= dos_text(s.skip(1)));
        }
    }
}

/// A byte order mark before a file changes nothing.
pub proof fn law_byte_order_mark_is_ignored(input: Seq<char>)
    requires
        input.len() == 0 || input[0] != bom(),
    ensures
        split_file(seq![bom()] + input) == split_file(input),
{
    assert((seq![bom()] + input).skip(1) =~= input);
}

} // verus!
