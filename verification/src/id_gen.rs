//! Sequential ids for the subjects of one kind.
//!
//! A native id is the upper-case kind, a `-` and a sequence number padded to
//! four digits (`TASK-0001`); the file of a subject is named by it. The next
//! sequence number is one past the largest that exists: gaps are not filled,
//! so ids only ever grow.

use crate::decimal::{
    is_digit, lemma_padded_reads_back, padded, padded_text, parse_u32, parsed_u32,
};
use crate::lines::{last_of, lemma_last_of_is};
use crate::text::{strip_prefix, strip_suffix};
use vstd::prelude::*;

verus! {

/// The extension of a subject file, `.md`.
pub open spec fn md() -> Seq<char> {
    seq!['.', 'm', 'd']
}

/// The native id of sequence number `seq`.
pub open spec fn native_text(kind_upper: Seq<char>, seq: u32) -> Seq<char> {
    kind_upper + seq!['-'] + padded_text(seq as nat)
}

/// The file name of sequence number `seq`.
pub open spec fn file_name_text(kind_upper: Seq<char>, seq: u32) -> Seq<char> {
    native_text(kind_upper, seq) + md()
}

/// The sequence number in a file name: what stands between `<kind_upper>-` and
/// `.md`, read as a number of any width.
pub open spec fn sequence_in(file_name: Seq<char>, kind_upper: Seq<char>) -> Option<u32> {
    let from = kind_upper.len() + 1;
    let to = file_name.len() - 3;
    if from <= to && (kind_upper + seq!['-']).is_prefix_of(file_name) && md().is_suffix_of(
        file_name,
    ) {
        parsed_u32(file_name.subrange(from as int, to))
    } else {
        None
    }
}

/// The largest sequence number in `names`; `None` where no name holds one.
pub open spec fn max_sequence(names: Seq<Seq<char>>, kind_upper: Seq<char>) -> Option<u32>
    decreases names.len(),
{
    if names.len() == 0 {
        None
    } else {
        let before = max_sequence(names.drop_last(), kind_upper);
        match sequence_in(names.last(), kind_upper) {
            None => before,
            Some(seq) => match before {
                Some(best) if best > seq => Some(best),
                _ => Some(seq),
            },
        }
    }
}

/// The largest sequence number is one of those in `names`, and none is larger.
pub proof fn lemma_max_sequence(names: Seq<Seq<char>>, kind_upper: Seq<char>)
    ensures
        max_sequence(names, kind_upper) matches Some(best) ==> exists|i: int|
            0 <= i < names.len() && #[trigger] sequence_in(names[i], kind_upper) == Some(best),
        forall|i: int|
            0 <= i < names.len() ==> (#[trigger] sequence_in(names[i], kind_upper) matches Some(seq)
                ==> max_sequence(names, kind_upper) matches Some(best) && seq <= best),
    decreases names.len(),
{
    if names.len() > 0 {
        let init = names.drop_last();
        lemma_max_sequence(init, kind_upper);
        let all = max_sequence(names, kind_upper);
        assert forall|i: int| 0 <= i < names.len() implies (#[trigger] sequence_in(
            names[i],
            kind_upper,
        ) matches Some(seq) ==> all matches Some(best) && seq <= best) by {
            if i < names.len() - 1 {
                assert(init[i] == names[i]);
                assert(sequence_in(init[i], kind_upper) matches Some(seq) ==> max_sequence(
                    init,
                    kind_upper,
                ) matches Some(best) && seq <= best);
            }
        }
        if let Some(best) = all {
            if sequence_in(names.last(), kind_upper) == Some(best) {
                assert(sequence_in(names[names.len() - 1], kind_upper) == Some(best));
            } else {
                let i = choose|i: int|
                    0 <= i < init.len() && #[trigger] sequence_in(init[i], kind_upper) == Some(
                        best,
                    );
                assert(sequence_in(names[i], kind_upper) == Some(best));
            }
        }
    }
}

/// The generator of sequence numbers for one subject kind.
///
/// It is set up once from the file names that exist and then advances in
/// memory.
#[derive(Debug)]
pub struct SequenceGenerator {
    next: u32,
}

impl View for SequenceGenerator {
    type V = u32;

    /// The sequence number that comes next.
    closed spec fn view(&self) -> u32 {
        self.next
    }
}

impl SequenceGenerator {
    /// A generator whose first sequence number is `start`.
    pub fn starting_at(start: u32) -> (generator: Self)
        ensures
            generator@ == start,
    {
        SequenceGenerator { next: start }
    }

    /// Hands out the next sequence number. Behind `u32::MAX` comes `0`.
    pub fn next(&mut self) -> (seq: u32)
        ensures
            seq == old(self)@,
            old(self)@ < u32::MAX ==> final(self)@ == old(self)@ + 1,
            old(self)@ == u32::MAX ==> final(self)@ == 0,
    {
        let seq: u32 = self.next;
        self.next = seq.wrapping_add(1);
        seq
    }

    /// A generator that starts one past the largest sequence number among the
    /// file names of a kind's directory; at `1` where no name holds one.
    pub fn discover(names: &Vec<String>, kind_upper: &str) -> (generator: Self)
        requires
            max_sequence(names.deep_view(), kind_upper@) != Some(u32::MAX),
        ensures
            generator@ == first_free(names.deep_view(), kind_upper@),
            forall|i: int|
                0 <= i < names.len() ==> (#[trigger] sequence_in(names[i]@, kind_upper@) matches Some(
                    seq,
                ) ==> seq < generator@),
    {
        let max = scan_max_sequence(names, kind_upper);
        match max {
            Some(best) => Self::starting_at(best + 1),
            None => Self::starting_at(1),
        }
    }
}

/// The first sequence number behind those in `names`.
pub open spec fn first_free(names: Seq<Seq<char>>, kind_upper: Seq<char>) -> u32 {
    match max_sequence(names, kind_upper) {
        Some(best) => (best + 1) as u32,
        None => 1,
    }
}

/// The largest sequence number among the file names of a kind's directory, or
/// `None` where no name holds one.
pub fn scan_max_sequence(names: &Vec<String>, kind_upper: &str) -> (max: Option<u32>)
    ensures
        max == max_sequence(names.deep_view(), kind_upper@),
        max matches Some(best) ==> exists|i: int|
            0 <= i < names.len() && #[trigger] sequence_in(names[i]@, kind_upper@) == Some(best),
        forall|i: int|
            0 <= i < names.len() ==> (#[trigger] sequence_in(names[i]@, kind_upper@) matches Some(seq)
                ==> max matches Some(best) && seq <= best),
{
    let ghost all = names.deep_view();
    let mut best: Option<u32> = None;
    let mut i: usize = 0;
    while i < names.len()
        invariant
            i <= names.len(),
            all == names.deep_view(),
            best == max_sequence(all.take(i as int), kind_upper@),
        decreases names.len() - i,
    {
        assert(all.take(i + 1).drop_last() =~= all.take(i as int));
        assert(all.take(i + 1).last() == names[i as int]@);
        if let Some(seq) = parse_sequence(names[i].as_str(), kind_upper) {
            best = match best {
                Some(b) if b > seq => Some(b),
                _ => Some(seq),
            };
        }
        i += 1;
    }
    assert(all.take(names.len() as int) =~= all);
    proof {
        lemma_max_sequence(all, kind_upper@);
        if let Some(b) = best {
            let j = choose|j: int|
                0 <= j < all.len() && #[trigger] sequence_in(all[j], kind_upper@) == Some(b);
            assert(sequence_in(names[j]@, kind_upper@) == Some(b));
        }
        assert forall|j: int| 0 <= j < names.len() implies (#[trigger] sequence_in(
            names[j]@,
            kind_upper@,
        ) matches Some(seq) ==> best matches Some(b) && seq <= b) by {
            assert(sequence_in(all[j], kind_upper@) == sequence_in(names[j]@, kind_upper@));
        }
    }
    best
}

/// The sequence number in a file name shaped like `<kind_upper>-NNNN.md`.
///
/// `kind_upper` is matched case-sensitively; `NNNN` may have any width.
pub fn parse_sequence(file_name: &str, kind_upper: &str) -> (seq: Option<u32>)
    ensures
        seq == sequence_in(file_name@, kind_upper@),
{
    proof {
        reveal_strlit(".md");
        reveal_strlit("-");
        assert(".md"@ =~= md());
        assert("-"@ =~= seq!['-']);
    }
    let ghost head = kind_upper@ + seq!['-'];
    let stem = match strip_suffix(file_name, ".md") {
        Some(stem) => stem,
        None => return None,
    };
    let rest = match strip_prefix(stem.as_str(), kind_upper) {
        Some(rest) => rest,
        None => {
            assert(head.len() <= file_name@.len() - 3 && head.is_prefix_of(file_name@)
                ==> kind_upper@ =~= stem@.take(kind_upper@.len() as int));
            return None;
        },
    };
    let number = match strip_prefix(rest.as_str(), "-") {
        Some(number) => number,
        None => {
            assert(head.len() <= file_name@.len() - 3 && head.is_prefix_of(file_name@)
                ==> rest@[0] == file_name@[kind_upper@.len() as int] && head[kind_upper@.len() as int]
                == '-');
            assert(head.len() <= file_name@.len() - 3 && head.is_prefix_of(file_name@)
                ==> seq!['-'] =~= rest@.take(1));
            return None;
        },
    };
    assert(file_name@ =~= head + number@ + md());
    assert(number@ =~= file_name@.subrange(kind_upper@.len() as int + 1, file_name@.len() - 3));
    assert(head =~= file_name@.take(head.len() as int));
    parse_u32(number.as_str())
}

/// The file name of one subject: `("TASK", 7)` gives `"TASK-0007.md"`.
pub fn file_name_for(kind_upper: &str, seq: u32) -> (name: String)
    ensures
        name@ == file_name_text(kind_upper@, seq),
{
    proof {
        reveal_strlit(".md");
        assert(".md"@ =~= md());
    }
    let mut name = native_id(kind_upper, seq);
    name.append(".md");
    name
}

/// The native id of one subject: `("TASK", 7)` gives `"TASK-0007"`.
pub fn native_id(kind_upper: &str, seq: u32) -> (id: String)
    ensures
        id@ == native_text(kind_upper@, seq),
{
    let mut id = kind_upper.to_owned();
    id.push('-');
    id.append(padded(seq).as_str());
    assert(id@ =~= native_text(kind_upper@, seq));
    id
}

/// The sequence number in a file name is the one that the name was made for.
pub proof fn law_file_name_reads_back(kind_upper: Seq<char>, seq: u32)
    ensures
        sequence_in(file_name_text(kind_upper, seq), kind_upper) == Some(seq),
{
    lemma_padded_reads_back(seq);
    let name = file_name_text(kind_upper, seq);
    let head = kind_upper + seq!['-'];
    assert(head =~= name.take(head.len() as int));
    assert(md() =~= name.skip(name.len() - 3));
    assert(name.subrange(kind_upper.len() as int + 1, name.len() - 3) =~= padded_text(seq as nat));
}

/// Native ids and file names are the same only where both the kind and the
/// sequence number are.
pub proof fn law_ids_are_distinct(kind: Seq<char>, seq: u32, other_kind: Seq<char>, other_seq: u32)
    ensures
        native_text(kind, seq) == native_text(other_kind, other_seq) ==> kind == other_kind && seq
            == other_seq,
        file_name_text(kind, seq) == file_name_text(other_kind, other_seq) ==> kind == other_kind
            && seq == other_seq,
{
    let (a, b) = (native_text(kind, seq), native_text(other_kind, other_seq));
    lemma_native_text(kind, seq);
    lemma_native_text(other_kind, other_seq);
    if file_name_text(kind, seq) == file_name_text(other_kind, other_seq) {
        assert(a =~= file_name_text(kind, seq).take(a.len() as int));
        assert(b =~= file_name_text(other_kind, other_seq).take(b.len() as int));
        assert(file_name_text(kind, seq).len() == a.len() + 3);
        assert(file_name_text(other_kind, other_seq).len() == b.len() + 3);
    }
}

/// The kind of a native id stands before its last `-`, the sequence number
/// behind it.
pub proof fn lemma_native_text(kind: Seq<char>, seq: u32)
    ensures
        ({
            let native = native_text(kind, seq);
            let at = last_of(native, '-');
            &&& at == kind.len()
            &&& native.take(at) == kind
            &&& parsed_u32(native.skip(at + 1)) == Some(seq)
        }),
{
    let native = native_text(kind, seq);
    let digits = padded_text(seq as nat);
    let at = kind.len() as int;
    lemma_padded_reads_back(seq);
    assert forall|i: int| at < i < native.len() implies native[i] != '-' by {
        assert(native[i] == digits[i - at - 1]);
        assert(is_digit(digits[i - at - 1]));
    }
    lemma_last_of_is(native, '-', at);
    assert(native.skip(at + 1) =~= digits);
    assert(native.take(at) =~= kind);
}

/// The file name that a discovered generator hands out first is none of those
/// that exist, and its number is larger than all of theirs: gaps stay gaps.
pub proof fn law_first_id_is_new(names: Seq<Seq<char>>, kind_upper: Seq<char>)
    requires
        max_sequence(names, kind_upper) != Some(u32::MAX),
    ensures
        !names.contains(file_name_text(kind_upper, first_free(names, kind_upper))),
        forall|i: int|
            0 <= i < names.len() ==> (#[trigger] sequence_in(names[i], kind_upper) matches Some(seq)
                ==> seq < first_free(names, kind_upper)),
{
    let seq = first_free(names, kind_upper);
    law_file_name_reads_back(kind_upper, seq);
    lemma_max_sequence(names, kind_upper);
    let name = file_name_text(kind_upper, seq);
    if names.contains(name) {
        let i = choose|i: int| 0 <= i < names.len() && names[i] == name;
        assert(sequence_in(names[i], kind_upper) == Some(seq));
    }
}

} // verus!
