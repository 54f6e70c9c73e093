//! Subject ids, and the files that they stand for.

use crate::config::{kind_path, ConfigView};
use crate::decimal::{parse_u32, parsed_u32};
use crate::error::{
    debug, debug_text, empty_kind_message, empty_kind_text, foreign_id_text, malformed_id_message,
    malformed_id_text, BackendError, ErrorView,
};
use crate::id_gen::{lemma_native_text, md, native_text};
use crate::lines::{last_of, lemma_last_of};
use crate::paths::{join_path, lemma_join_ends_in, name_of};
use crate::text::{
    ascii_lower, ascii_upper, chars_of, lower_text, same_ignoring_case, text_of, upper_text,
};
use vstd::prelude::*;

verus! {

/// Why a native id is not one.
pub enum IdFault {
    /// It is not something, `-` and a number.
    Malformed,
    /// Nothing stands before the `-`.
    EmptyKind,
}

/// The kind and the sequence number of a native id such as `TASK-0001`: what
/// stands before its last `-`, and the number behind it.
pub open spec fn native_parts(native: Seq<char>) -> Result<(Seq<char>, u32), IdFault> {
    let at = last_of(native, '-');
    if at < 0 {
        Err(IdFault::Malformed)
    } else {
        match parsed_u32(native.skip(at + 1)) {
            None => Err(IdFault::Malformed),
            Some(seq) => if at == 0 {
                Err(IdFault::EmptyKind)
            } else {
                Ok((native.take(at), seq))
            },
        }
    }
}

/// What is said of a native id that is not one.
pub open spec fn id_error(native: Seq<char>, fault: IdFault) -> ErrorView {
    ErrorView::InvalidRequest(
        match fault {
            IdFault::Malformed => malformed_id_text(debug_text(native)),
            IdFault::EmptyKind => empty_kind_text(debug_text(native)),
        },
    )
}

/// The native id of a subject id: what follows the prefix.
pub open spec fn native_of(config: ConfigView, id: Seq<char>) -> Result<Seq<char>, ErrorView> {
    if config.id_prefix.is_prefix_of(id) {
        Ok(id.skip(config.id_prefix.len() as int))
    } else {
        Err(ErrorView::InvalidRequest(foreign_id_text(debug_text(id), config.id_prefix)))
    }
}

/// The first of `kinds` that differs from `kind` in ASCII case at most; `kind`
/// itself where there is none.
pub open spec fn configured_kind(kinds: Seq<Seq<char>>, kind: Seq<char>) -> Seq<char>
    decreases kinds.len(),
{
    if kinds.len() == 0 {
        kind
    } else if same_ignoring_case(kinds[0], kind) {
        kinds[0]
    } else {
        configured_kind(kinds.skip(1), kind)
    }
}

/// Whether one of `kinds` differs from `kind` in ASCII case at most.
pub open spec fn is_configured(kinds: Seq<Seq<char>>, kind: Seq<char>) -> bool {
    exists|i: int| 0 <= i < kinds.len() && same_ignoring_case(#[trigger] kinds[i], kind)
}

/// The path of the file of a subject.
pub open spec fn subject_path(config: ConfigView, id: Seq<char>) -> Result<Seq<char>, ErrorView> {
    match native_of(config, id) {
        Err(error) => Err(error),
        Ok(native) => match native_parts(native) {
            Err(fault) => Err(id_error(native, fault)),
            Ok((kind_upper, _)) => Ok(
                join_path(
                    kind_path(config, configured_kind(config.kinds, lower_text(kind_upper))),
                    native + md(),
                ),
            ),
        },
    }
}

/// The kind and the sequence number of a native id such as `TASK-0001`.
pub fn split_native(native: &str) -> (parts: Result<(String, u32), BackendError>)
    ensures
        match parts {
            Ok((kind, seq)) => native_parts(native@) == Ok::<_, IdFault>((kind@, seq)),
            Err(error) => native_parts(native@) matches Err(fault) && error@ == id_error(
                native@,
                fault,
            ),
        },
{
    let chars = chars_of(native);
    let mut at: usize = chars.len();
    assert(native@.take(at as int) =~= native@);
    while at > 0 && chars[at - 1] != '-'
        invariant
            at <= chars.len(),
            chars@ == native@,
            last_of(native@, '-') == last_of(native@.take(at as int), '-'),
        decreases at,
    {
        assert(native@.take(at as int).drop_last() =~= native@.take(at - 1));
        at -= 1;
    }
    if at == 0 {
        return Err(BackendError::InvalidRequest(malformed_id_message(debug(native).as_str())));
    }
    assert(last_of(native@, '-') == at - 1);
    let number = text_of(&chars, at, chars.len());
    assert(number@ =~= native@.skip(at as int));
    match parse_u32(number.as_str()) {
        None => Err(BackendError::InvalidRequest(malformed_id_message(debug(native).as_str()))),
        Some(seq) => {
            if at == 1 {
                return Err(
                    BackendError::InvalidRequest(empty_kind_message(debug(native).as_str())),
                );
            }
            let kind = text_of(&chars, 0, at - 1);
            assert(kind@ =~= native@.take(at - 1));
            Ok((kind, seq))
        },
    }
}

/// A native id gives back the kind and the sequence number that it was made of.
pub proof fn law_native_id_splits(kind_upper: Seq<char>, seq: u32)
    requires
        kind_upper.len() > 0,
    ensures
        native_parts(native_text(kind_upper, seq)) == Ok::<_, IdFault>((kind_upper, seq)),
{
    lemma_native_text(kind_upper, seq);
}

/// Two subjects never share a file, where no `/` stands in their native ids.
pub proof fn law_files_are_not_shared(config: ConfigView, a: Seq<char>, b: Seq<char>)
    requires
        a != b,
        !a.skip(config.id_prefix.len() as int).contains('/'),
        !b.skip(config.id_prefix.len() as int).contains('/'),
        subject_path(config, a) is Ok,
        subject_path(config, b) is Ok,
    ensures
        subject_path(config, a) != subject_path(config, b),
{
    let skip = config.id_prefix.len() as int;
    lemma_path_ends_in_native(config, a);
    lemma_path_ends_in_native(config, b);
    let (x, y) = (a.skip(skip), b.skip(skip));
    if x + md() == y + md() {
        assert(x =~= (x + md()).take(x.len() as int));
        assert(y =~= (y + md()).take(y.len() as int));
        assert(a =~= config.id_prefix + x);
        assert(b =~= config.id_prefix + y);
    }
}

/// The name of the file of a subject is its native id and `.md`.
proof fn lemma_path_ends_in_native(config: ConfigView, id: Seq<char>)
    requires
        !id.skip(config.id_prefix.len() as int).contains('/'),
        subject_path(config, id) is Ok,
    ensures
        config.id_prefix.is_prefix_of(id),
        name_of(subject_path(config, id)->Ok_0) == Some(
            id.skip(config.id_prefix.len() as int) + md(),
        ),
{
    let native = id.skip(config.id_prefix.len() as int);
    let name = native + md();
    lemma_last_of(native, '-');
    assert forall|i: int| 0 <= i < name.len() implies name[i] != '/' by {
        if i < native.len() {
            assert(native.contains(native[i]));
        } else {
            assert(name[i] == md()[i - native.len()]);
        }
    }
    assert(name.len() > 3);
    let kind = native_parts(native)->Ok_0.0;
    lemma_join_ends_in(
        kind_path(config, configured_kind(config.kinds, lower_text(kind))),
        name,
    );
}

/// Lower case is the same whether a text was in upper case before or not.
pub proof fn lemma_case_does_not_matter(s: Seq<char>)
    ensures
        same_ignoring_case(lower_text(upper_text(s)), s),
{
    assert forall|c: char| ascii_lower(ascii_lower(#[trigger] ascii_upper(c))) == ascii_lower(c) by {
        if 'a' <= c && c <= 'z' {
            assert(ascii_upper(c) as int == c as int - 32);
        }
    }
    assert(lower_text(lower_text(upper_text(s))) =~= lower_text(s));
}

/// The configured kind does not depend on the case in which a kind is given.
pub proof fn lemma_configured_kind(kinds: Seq<Seq<char>>, a: Seq<char>, b: Seq<char>)
    requires
        same_ignoring_case(a, b),
        is_configured(kinds, a),
    ensures
        configured_kind(kinds, a) == configured_kind(kinds, b),
    decreases kinds.len(),
{
    if kinds.len() > 0 && !same_ignoring_case(kinds[0], a) {
        let i = choose|i: int| 0 <= i < kinds.len() && same_ignoring_case(#[trigger] kinds[i], a);
        assert(kinds.skip(1)[i - 1] == kinds[i]);
        lemma_configured_kind(kinds.skip(1), a, b);
    }
}

/// The configured kind is one of the configured kinds, and is the kind that was
/// given, case aside.
pub proof fn lemma_configured_kind_is_the_kind(kinds: Seq<Seq<char>>, kind: Seq<char>)
    requires
        is_configured(kinds, kind),
    ensures
        kinds.contains(configured_kind(kinds, kind)),
        same_ignoring_case(configured_kind(kinds, kind), kind),
        upper_text(configured_kind(kinds, kind)) == upper_text(kind),
    decreases kinds.len(),
{
    let found = configured_kind(kinds, kind);
    if same_ignoring_case(kinds[0], kind) {
        lemma_same_upper_case(found, kind);
    } else {
        let rest = kinds.skip(1);
        let i = choose|i: int| 0 <= i < kinds.len() && same_ignoring_case(#[trigger] kinds[i], kind);
        assert(rest[i - 1] == kinds[i]);
        lemma_configured_kind_is_the_kind(rest, kind);
        let j = choose|j: int| 0 <= j < rest.len() && rest[j] == found;
        assert(kinds[j + 1] == found);
    }
}

/// Texts that differ in case at most are the same in upper case.
proof fn lemma_same_upper_case(a: Seq<char>, b: Seq<char>)
    requires
        same_ignoring_case(a, b),
    ensures
        upper_text(a) == upper_text(b),
{
    assert forall|c: char| ascii_upper(#[trigger] ascii_lower(c)) == ascii_upper(c) by {
        if 'A' <= c && c <= 'Z' {
            assert(ascii_lower(c) as int == c as int + 32);
        }
    }
    assert(upper_text(lower_text(a)) =~= upper_text(a));
    assert(upper_text(lower_text(b)) =~= upper_text(b));
}

} // verus!
