//! How deep JSON text is nested.

use crate::text::chars_of;
use vstd::prelude::*;

verus! {

/// Where a reader of JSON text stands: how many brackets are open, how many
/// were at most, and whether it is inside a string, there behind a `\`.
pub struct Scan {
    pub depth: int,
    pub deepest: int,
    pub in_string: bool,
    pub escaped: bool,
}

/// Where a reader stands behind one more character.
pub open spec fn step(at: Scan, c: char) -> Scan {
    if at.in_string {
        if at.escaped {
            Scan { escaped: false, ..at }
        } else if c == '\\' {
            Scan { escaped: true, ..at }
        } else if c == '"' {
            Scan { in_string: false, ..at }
        } else {
            at
        }
    } else if c == '"' {
        Scan { in_string: true, ..at }
    } else if c == '[' || c == '{' {
        let depth = at.depth + 1;
        Scan {
            depth,
            deepest: if depth > at.deepest {
                depth
            } else {
                at.deepest
            },
            ..at
        }
    } else if c == ']' || c == '}' {
        Scan { depth: at.depth - 1, ..at }
    } else {
        at
    }
}

/// Where a reader stands behind a text, from its start.
pub open spec fn scan(s: Seq<char>) -> Scan
    decreases s.len(),
{
    if s.len() == 0 {
        Scan { depth: 0, deepest: 0, in_string: false, escaped: false }
    } else {
        step(scan(s.drop_last()), s.last())
    }
}

/// How many brackets of a JSON text are open at most.
pub open spec fn levels(s: Seq<char>) -> int {
    scan(s).deepest
}

/// Whether at most `limit` brackets of a JSON text are open.
pub fn nests_within(text: &str, limit: usize) -> (yes: bool)
    ensures
        yes == (levels(text@) <= limit),
{
    let mut depth: i128 = 0;
    let mut deepest: i128 = 0;
    let mut in_string = false;
    let mut escaped = false;
    let mut i: usize = 0;
    let chars = chars_of(text);
    while i < chars.len()
        invariant
            i <= chars.len(),
            chars@ == text@,
            -i <= depth <= i,
            0 <= deepest <= i,
            scan(text@.take(i as int)) == (Scan {
                depth: depth as int,
                deepest: deepest as int,
                in_string,
                escaped,
            }),
        decreases chars.len() - i,
    {
        let c = chars[i];
        assert(text@.take(i + 1).drop_last() =~= text@.take(i as int));
        if in_string {
            if escaped {
                escaped = false;
            } else if c == '\\' {
                escaped = true;
            } else if c == '"' {
                in_string = false;
            }
        } else if c == '"' {
            in_string = true;
        } else if c == '[' || c == '{' {
            depth += 1;
            if depth > deepest {
                deepest = depth;
            }
        } else if c == ']' || c == '}' {
            depth -= 1;
        }
        i += 1;
    }
    assert(text@.take(chars.len() as int) =~= text@);
    deepest <= limit as i128
}

} // verus!
