//! Laws on ids, file names, messages and the configuration.

use crate::config::{config_from, kind_path, kinds_from, kinds_in, ConfigView, MarkdownConfig};
use crate::decimal::{is_digit, lemma_padded_reads_back, padded_text, parsed_u32};
use crate::error::{
    comma_list, debug_text, empty_kind_text, failed_text, foreign_id_text, malformed_id_text,
    unknown_kind_text, BackendError, ErrorView,
};
use crate::id_gen::{
    file_name_text, first_free, lemma_max_sequence, max_sequence, md, native_text, sequence_in,
};
use crate::ids::{
    configured_kind, id_error, is_configured, native_of, native_parts, subject_path, IdFault,
};
use crate::laws::requests::same_texts;
use crate::laws::text::{law_no_leading_zero, law_numerals, law_split, law_trim};
use crate::lines::{first_of, lemma_first_of, lemma_last_of, lemma_last_of_is, split_text};
use crate::paths::join_path;
use crate::text::{is_white, lower_text, same_ignoring_case, trim_end, trim_start, trim_text};
use vstd::prelude::*;

verus! {

// ------------------------------------------------------------------------ ids

/// A native id is a kind, a `-` and a number: the kind is all that stands before
/// the last `-`, and may not be empty.
pub proof fn law_native_ids(kind: Seq<char>, number: Seq<char>)
    requires
        forall|i: int| 0 <= i < number.len() ==> #[trigger] number[i] != '-',
    ensures
        native_parts(kind + seq!['-'] + number) == (match parsed_u32(number) {
            None => Err::<(Seq<char>, u32), _>(IdFault::Malformed),
            Some(n) => if kind.len() == 0 {
                Err(IdFault::EmptyKind)
            } else {
                Ok((kind, n))
            },
        }),
        native_parts(number) == Err::<(Seq<char>, u32), _>(IdFault::Malformed),
{
    let native = kind + seq!['-'] + number;
    let at = kind.len() as int;
    assert forall|i: int| at < i < native.len() implies native[i] != '-' by {
        assert(native[i] == number[i - at - 1]);
    }
    lemma_last_of_is(native, '-', at);
    assert(native.skip(at + 1) =~= number);
    assert(native.take(at) =~= kind);
    lemma_last_of(number, '-');
}

/// What is said of a native id that is not one shows the id.
pub proof fn law_native_id_messages(native: Seq<char>)
    ensures
        id_error(native, IdFault::Malformed) == ErrorView::InvalidRequest(
            "malformed id "@ + debug_text(native),
        ),
        id_error(native, IdFault::EmptyKind) == ErrorView::InvalidRequest(
            "malformed id "@ + debug_text(native) + " (empty kind)"@,
        ),
{
}

/// The native id is all that follows the prefix; an id without the prefix is
/// refused, and the message shows both.
pub proof fn law_ids_begin_with_the_prefix(config: ConfigView, id: Seq<char>, native: Seq<char>)
    ensures
        native_of(config, config.id_prefix + native) == Ok::<_, ErrorView>(native),
        (forall|n: Seq<char>| id != #[trigger] (config.id_prefix + n)) ==> native_of(config, id)
            == Err::<Seq<char>, _>(
            ErrorView::InvalidRequest(
                "subject id "@ + debug_text(id) + " is not a markdown id (expected `"@
                    + config.id_prefix + "` prefix)"@,
            ),
        ),
{
    let whole = config.id_prefix + native;
    let n = config.id_prefix.len() as int;
    assert(config.id_prefix =~= whole.take(n));
    assert(whole.skip(n) =~= native);
    if config.id_prefix.is_prefix_of(id) {
        assert(id =~= config.id_prefix + id.skip(n));
    }
}

/// A kind that is given stands for the first configured one that is the same
/// ignoring case, and for itself where there is none.
pub proof fn law_first_configured_kind(kinds: Seq<Seq<char>>, kind: Seq<char>, at: int)
    requires
        0 <= at <= kinds.len(),
        forall|i: int| 0 <= i < at ==> !same_ignoring_case(#[trigger] kinds[i], kind),
        at < kinds.len() ==> same_ignoring_case(kinds[at], kind),
    ensures
        configured_kind(kinds, kind) == if at < kinds.len() {
            kinds[at]
        } else {
            kind
        },
        is_configured(kinds, kind) <==> at < kinds.len(),
    decreases kinds.len(),
{
    if kinds.len() > 0 {
        if at > 0 {
            assert(!same_ignoring_case(kinds[0], kind));
            let rest = kinds.skip(1);
            assert forall|i: int| 0 <= i < at - 1 implies !same_ignoring_case(
                #[trigger] rest[i],
                kind,
            ) by {
                assert(!same_ignoring_case(kinds[i + 1], kind));
            }
            law_first_configured_kind(rest, kind, at - 1);
        }
    }
}

/// The file of a subject stands in the directory of its kind below the root, and
/// is named by the native id and `.md`.
pub proof fn law_subject_files(config: ConfigView, kind: Seq<char>, number: Seq<char>)
    requires
        kind.len() > 0,
        forall|i: int| 0 <= i < number.len() ==> #[trigger] number[i] != '-',
        parsed_u32(number) is Some,
    ensures
        ({
            let native = kind + seq!['-'] + number;
            let dir = join_path(config.root, configured_kind(config.kinds, lower_text(kind)));
            subject_path(config, config.id_prefix + native) == Ok::<_, ErrorView>(
                join_path(dir, native + seq!['.', 'm', 'd']),
            )
        }),
{
    let native = kind + seq!['-'] + number;
    law_native_ids(kind, number);
    law_ids_begin_with_the_prefix(config, Seq::empty(), native);
}

/// There is no file for an id that is refused; the error is the same.
pub proof fn law_no_file_without_an_id(config: ConfigView, id: Seq<char>, native: Seq<char>)
    ensures
        native_of(config, id) matches Err(error) ==> subject_path(config, id) == Err::<
            Seq<char>,
            _,
        >(error),
        native_parts(native) matches Err(fault) ==> subject_path(config, config.id_prefix + native)
            == Err::<Seq<char>, _>(id_error(native, fault)),
{
    law_ids_begin_with_the_prefix(config, id, native);
}

// ----------------------------------------------------------- sequence numbers

/// A native id is the kind, a `-` and the number in at least four digits, with
/// zeros before it only as far as these need; the file name is that and `.md`.
pub proof fn law_native_id_text(kind: Seq<char>, seq: u32)
    ensures
        ({
            let native = native_text(kind, seq);
            let digits = native.skip(kind.len() as int + 1);
            &&& native == kind + seq!['-'] + digits
            &&& digits.len() >= 4
            &&& forall|i: int| 0 <= i < digits.len() ==> 48 <= (#[trigger] digits[i]) as int <= 57
            &&& digits.len() > 4 ==> digits[0] != '0'
            &&& parsed_u32(digits) == Some(seq)
            &&& file_name_text(kind, seq) == native + seq!['.', 'm', 'd']
        }),
{
    let native = native_text(kind, seq);
    let digits = padded_text(seq as nat);
    assert(native.skip(kind.len() as int + 1) =~= digits);
    law_numerals(seq as nat, 0);
    lemma_padded_reads_back(seq);
    assert forall|i: int| 0 <= i < digits.len() implies 48 <= (#[trigger] digits[i]) as int
        <= 57 by {
        assert(is_digit(digits[i]));
    }
    law_no_leading_zero(seq as nat);
}

/// A kind, a `-`, a number and `.md`.
pub open spec fn numbered_name(kind: Seq<char>, number: Seq<char>) -> Seq<char> {
    kind + seq!['-'] + number + seq!['.', 'm', 'd']
}

/// A file name holds a sequence number of a kind where it is the kind, a `-`, the
/// number and `.md`, and no other does.
pub proof fn law_sequence_numbers_in_names(
    name: Seq<char>,
    kind: Seq<char>,
    number: Seq<char>,
)
    ensures
        sequence_in(numbered_name(kind, number), kind) == parsed_u32(number),
        (forall|t: Seq<char>| name != #[trigger] numbered_name(kind, t)) ==> sequence_in(
            name,
            kind,
        ) is None,
{
    let head = kind + seq!['-'];
    let whole = head + number + md();
    assert(head =~= whole.take(head.len() as int));
    assert(md() =~= whole.skip(whole.len() - 3));
    assert(whole.subrange(kind.len() as int + 1, whole.len() - 3) =~= number);
    if sequence_in(name, kind) is Some {
        let t = name.subrange(kind.len() as int + 1, name.len() - 3);
        assert(name =~= head + t + md());
        assert(name == numbered_name(kind, t));
    }
}

/// The first free number of a kind is 1 where no name holds one, and otherwise one
/// past the largest.
pub proof fn law_first_free_number(names: Seq<Seq<char>>, kind: Seq<char>, at: int)
    ensures
        (forall|i: int| 0 <= i < names.len() ==> #[trigger] sequence_in(names[i], kind) is None)
            ==> max_sequence(names, kind) is None && first_free(names, kind) == 1,
        0 <= at < names.len() && (sequence_in(names[at], kind) matches Some(best) && (forall|i: int|
            0 <= i < names.len() ==> (#[trigger] sequence_in(names[i], kind) matches Some(n) ==> n
                <= best))) ==> {
            let best = sequence_in(names[at], kind)->0;
            &&& max_sequence(names, kind) == Some(best)
            &&& best < u32::MAX ==> first_free(names, kind) == best + 1
        },
{
    lemma_max_sequence(names, kind);
    if 0 <= at < names.len() {
        assert(sequence_in(names[at], kind) matches Some(seq) ==> max_sequence(names, kind) matches
            Some(best) && seq <= best);
    }
}

// ------------------------------------------------------------------- messages

/// An error shows what it holds.
pub proof fn law_errors_show_what_they_hold(error: BackendError)
    ensures
        error matches BackendError::InvalidRequest(text) ==> error@ == ErrorView::InvalidRequest(
            text@,
        ),
        error matches BackendError::NotFound(id) ==> error@ == ErrorView::NotFound(id@),
        error matches BackendError::Other(texts) ==> (error@ matches ErrorView::Other(shown)
            && same_texts(shown, texts@)),
{
}

/// A list in a message has `, ` between each two items.
pub proof fn law_lists_in_messages(items: Seq<Seq<char>>, item: Seq<char>)
    ensures
        comma_list(Seq::empty()) == Seq::<char>::empty(),
        comma_list(seq![item]) == item,
        items.len() > 0 ==> comma_list(items.push(item)) == comma_list(items) + seq![',', ' ']
            + item,
{
    reveal_strlit(", ");
    assert(", "@ =~= seq![',', ' ']);
    assert(items.push(item).drop_last() =~= items);
}

/// What is said of an unknown kind shows it and all configured kinds; what is said
/// of a path that something could not be done to names the path and the reason; what
/// is said of an id shows the id, and the prefix where that is what it lacks.
pub proof fn law_other_messages(
    shown: Seq<char>,
    kinds: Seq<Seq<char>>,
    what: Seq<char>,
    path: Seq<char>,
    why: Seq<char>,
)
    ensures
        unknown_kind_text(shown, kinds) == "kind "@ + shown + " not in configured kinds ["@
            + comma_list(kinds) + "]"@,
        failed_text(what, path, why) == what + path + seq![':', ' '] + why,
        foreign_id_text(shown, path) == "subject id "@ + shown
            + " is not a markdown id (expected `"@ + path + "` prefix)"@,
        malformed_id_text(shown) == "malformed id "@ + shown,
        empty_kind_text(shown) == "malformed id "@ + shown + " (empty kind)"@,
{
    reveal_strlit(": ");
    assert(": "@ =~= seq![':', ' ']);
}

// -------------------------------------------------------------- configuration

/// A configuration shows what it holds, and the directory of a kind is the one of
/// its name below the root.
pub proof fn law_configuration_shows_its_fields(config: MarkdownConfig, kind: Seq<char>)
    ensures
        config@.root == config.root@,
        same_texts(config@.kinds, config.kinds@),
        config@.id_prefix == config.id_prefix@,
        kind_path(config@, kind) == join_path(config.root@, kind),
{
}

/// The root and the prefix are those of the environment where it has them; a
/// relative root is below the working directory. Without them they are
/// `.animus/subjects` below the working directory and `markdown:`. An unknown
/// working directory is `.`.
pub proof fn law_root_and_prefix(
    root: Seq<char>,
    absolute: bool,
    kinds: Option<Seq<char>>,
    prefix: Seq<char>,
    cwd: Option<Seq<char>>,
)
    requires
        root.len() > 0,
        prefix.len() > 0,
    ensures
        ({
            let none = Seq::<char>::empty();
            let here = match cwd {
                Some(dir) => dir,
                None => seq!['.'],
            };
            let given = config_from(Some(root), absolute, kinds, Some(prefix), cwd);
            let unset = config_from(None, absolute, kinds, None, cwd);
            let empty = config_from(Some(none), absolute, kinds, Some(none), cwd);
            &&& absolute ==> given.root == root
            &&& !absolute ==> given.root == join_path(here, root)
            &&& given.id_prefix == prefix
            &&& unset.root == join_path(here, ".animus/subjects"@)
            &&& unset.id_prefix == "markdown:"@
            &&& empty == unset
            &&& given.kinds == unset.kinds
        }),
{
}

/// Whether a list of kinds names none: it holds commas and white space only.
pub open spec fn names_no_kind(list: Seq<char>) -> bool {
    forall|i: int| 0 <= i < list.len() ==> #[trigger] list[i] == ',' || is_white(list[i])
}

/// The kinds of the environment are the texts between its commas, without the
/// white space around them; blank ones do not count. Where none is left the kind
/// is `task`.
#[verifier::rlimit(40)]
pub proof fn law_configured_kinds(
    root: Option<Seq<char>>,
    absolute: bool,
    prefix: Option<Seq<char>>,
    cwd: Option<Seq<char>>,
    first: Seq<char>,
    rest: Seq<char>,
)
    requires
        forall|i: int| 0 <= i < first.len() ==> #[trigger] first[i] != ',',
    ensures
        ({
            let kinds = |list: Option<Seq<char>>|
                config_from(root, absolute, list, prefix, cwd).kinds;
            let both = first + seq![','] + rest;
            &&& kinds(None) == seq!["task"@]
            &&& names_no_kind(rest) ==> kinds(Some(rest)) == seq!["task"@]
            &&& names_no_kind(first) ==> kinds(Some(both)) == kinds(Some(rest))
            &&& !names_no_kind(first) ==> kinds(Some(first)) == seq![trim_text(first)]
            &&& !names_no_kind(first) && names_no_kind(rest) ==> kinds(Some(both)) == seq![
                trim_text(first),
            ]
            &&& !names_no_kind(first) && !names_no_kind(rest) ==> kinds(Some(both)) == seq![
                trim_text(first),
            ] + kinds(Some(rest))
        }),
{
    let none = Seq::<char>::empty();
    let both = first + seq![','] + rest;
    assert(!first.contains(','));
    lemma_kinds_of_one(first);
    lemma_kinds_of_first(first, rest);
    lemma_named(rest);
    lemma_named(none);
    assert(kinds_in(split_text(none, ',')).len() == 0) by {
        assert(names_no_kind(none));
    }
    assert(kinds_from(None) == seq!["task"@]);
    if rest.len() == 0 {
        assert(rest =~= none);
    }
    if first.len() == 0 {
        assert(first =~= none);
    }
    assert(kinds_from(Some(rest)) == if names_no_kind(rest) {
        seq!["task"@]
    } else {
        kinds_in(split_text(rest, ','))
    });
    assert(both.len() > 0);
    let one = kinds_in(seq![first]);
    let more = kinds_in(split_text(rest, ','));
    if names_no_kind(first) {
        assert(one + more =~= more);
    } else if names_no_kind(rest) {
        assert(one + more =~= one);
    }
}

proof fn lemma_kinds_of_one(part: Seq<char>)
    requires
        !part.contains(','),
    ensures
        split_text(part, ',') == seq![part],
        names_no_kind(part) ==> kinds_in(seq![part]) == Seq::<Seq<char>>::empty(),
        !names_no_kind(part) ==> kinds_in(seq![part]) == seq![trim_text(part)],
{
    law_split(part, ',', Seq::empty());
    assert forall|i: int| 0 <= i < part.len() implies part[i] != ',' by {
        assert(part.contains(part[i]));
    }
    let list = seq![part];
    let cut = list.map_values(|p: Seq<char>| trim_text(p));
    assert(cut =~= seq![trim_text(part)]);
    assert(cut.drop_last() =~= Seq::<Seq<char>>::empty());
    reveal_with_fuel(Seq::filter, 2);
    if names_no_kind(part) {
        let none = Seq::<char>::empty();
        assert forall|i: int| 0 <= i < part.len() implies is_white(#[trigger] part[i]) by {}
        law_trim(part, none, none);
        assert(part + none + none =~= part);
        assert(kinds_in(list) =~= Seq::<Seq<char>>::empty());
    } else {
        let at = choose|at: int|
            0 <= at < part.len() && !(#[trigger] part[at] == ',' || is_white(part[at]));
        lemma_trim_keeps(part, at);
        assert(kinds_in(list) =~= seq![trim_text(part)]);
    }
}

proof fn lemma_kinds_of_first(first: Seq<char>, rest: Seq<char>)
    requires
        !first.contains(','),
    ensures
        kinds_in(split_text(first + seq![','] + rest, ',')) == kinds_in(seq![first]) + kinds_in(
            split_text(rest, ','),
        ),
{
    law_split(first, ',', rest);
    let trim = |p: Seq<char>| trim_text(p);
    let full = |kind: Seq<char>| kind.len() > 0;
    let a = seq![first];
    let b = split_text(rest, ',');
    assert((a + b).map_values(trim) =~= a.map_values(trim) + b.map_values(trim));
    Seq::filter_distributes_over_add(a.map_values(trim), b.map_values(trim), full);
}

/// A list names a kind where it holds more than commas and white space.
proof fn lemma_named(list: Seq<char>)
    ensures
        names_no_kind(list) <==> kinds_in(split_text(list, ',')).len() == 0,
    decreases list.len(),
{
    let at = first_of(list, ',');
    lemma_first_of(list, ',');
    if at >= list.len() {
        assert(!list.contains(','));
        lemma_kinds_of_one(list);
    } else {
        let (first, rest) = (list.take(at), list.skip(at + 1));
        assert(!first.contains(','));
        assert(list =~= first + seq![','] + rest);
        lemma_kinds_of_first(first, rest);
        lemma_kinds_of_one(first);
        lemma_named(rest);
        if names_no_kind(list) {
            assert forall|i: int| 0 <= i < first.len() implies #[trigger] first[i] == ','
                || is_white(first[i]) by {
                assert(list[i] == ',' || is_white(list[i]));
            }
            assert forall|i: int| 0 <= i < rest.len() implies #[trigger] rest[i] == ','
                || is_white(rest[i]) by {
                assert(list[i + at + 1] == ',' || is_white(list[i + at + 1]));
            }
        }
        if names_no_kind(first) && names_no_kind(rest) {
            assert forall|i: int| 0 <= i < list.len() implies #[trigger] list[i] == ','
                || is_white(list[i]) by {
                if i < at {
                    assert(list[i] == first[i]);
                } else if i > at {
                    assert(list[i] == rest[i - at - 1]);
                }
            }
        }
    }
}

/// Trimming leaves something of a text that is not blank.
proof fn lemma_trim_keeps(s: Seq<char>, at: int)
    requires
        0 <= at < s.len(),
        !is_white(s[at]),
    ensures
        trim_text(s).len() > 0,
{
    lemma_trim_start_keeps(s, at);
    let t = trim_start(s);
    let i = choose|i: int| 0 <= i < t.len() && !is_white(#[trigger] t[i]);
    lemma_trim_end_keeps(t, i);
}

proof fn lemma_trim_start_keeps(s: Seq<char>, at: int)
    requires
        0 <= at < s.len(),
        !is_white(s[at]),
    ensures
        exists|i: int| 0 <= i < trim_start(s).len() && !is_white(#[trigger] trim_start(s)[i]),
    decreases s.len(),
{
    if is_white(s[0]) {
        assert(s.skip(1)[at - 1] == s[at]);
        lemma_trim_start_keeps(s.skip(1), at - 1);
        assert(trim_start(s) == trim_start(s.skip(1)));
    } else {
        assert(trim_start(s) == s);
        assert(!is_white(trim_start(s)[0]));
    }
}

proof fn lemma_trim_end_keeps(s: Seq<char>, at: int)
    requires
        0 <= at < s.len(),
        !is_white(s[at]),
    ensures
        trim_end(s).len() > 0,
    decreases s.len(),
{
    if is_white(s.last()) {
        assert(s.drop_last()[at] == s[at]);
        lemma_trim_end_keeps(s.drop_last(), at);
    }
}

} // verus!
