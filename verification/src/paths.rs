//! Paths as slash-separated text.
//!
//! A system that separates otherwise hands its paths over in this form. A path
//! is read as its components: empty ones and `.` ones do not count, except for
//! a `.` at the very start of a relative path.

use crate::lines::{last_of, lemma_last_of, lemma_last_of_is};
use crate::text::{chars_of, text_of};
use vstd::prelude::*;

verus! {

/// `name` below `base`. A `name` that starts with `/` stands for itself.
pub open spec fn join_path(base: Seq<char>, name: Seq<char>) -> Seq<char> {
    if name.len() > 0 && name[0] == '/' {
        name
    } else if base.len() == 0 || base.last() == '/' {
        base + name
    } else {
        base + seq!['/'] + name
    }
}

/// Where the components begin that can be taken off a path: behind the root
/// `/`, or behind a `.` at the start.
pub open spec fn body_start(path: Seq<char>) -> int {
    if path.len() > 0 && path[0] == '/' {
        1
    } else if path.len() > 0 && path[0] == '.' && (path.len() == 1 || path[1] == '/') {
        1
    } else {
        0
    }
}

/// Where the last component of `path[lo..hi]` begins.
pub open spec fn tail_start(path: Seq<char>, lo: int, hi: int) -> int {
    lo + last_of(path.subrange(lo, hi), '/') + 1
}

/// Whether a component does not count.
pub open spec fn is_idle(component: Seq<char>) -> bool {
    component.len() == 0 || component == seq!['.']
}

/// The end of what stands before the component that begins at `start`.
pub open spec fn end_before(lo: int, start: int) -> int {
    if start > lo {
        start - 1
    } else {
        lo
    }
}

/// The end of `path[lo..hi]` without the components at its end that do not
/// count.
pub open spec fn used_end(path: Seq<char>, lo: int, hi: int) -> int
    decreases hi - lo,
    via used_end_shrinks
{
    if !(0 <= lo < hi <= path.len()) {
        lo
    } else {
        let start = tail_start(path, lo, hi);
        if is_idle(path.subrange(start, hi)) {
            used_end(path, lo, end_before(lo, start))
        } else {
            hi
        }
    }
}

#[via_fn]
proof fn used_end_shrinks(path: Seq<char>, lo: int, hi: int) {
    lemma_last_of(path.subrange(lo, hi), '/');
}

/// The last component of a path. A path that ends in `..` has none, nor do
/// `/`, `.` and the empty path.
pub open spec fn name_of(path: Seq<char>) -> Option<Seq<char>> {
    let lo = body_start(path);
    let hi = used_end(path, lo, path.len() as int);
    let name = path.subrange(tail_start(path, lo, hi), hi);
    if hi <= lo || name == seq!['.', '.'] {
        None
    } else {
        Some(name)
    }
}

/// A path without its last component. `/` and the empty path have no parent.
pub open spec fn parent_of(path: Seq<char>) -> Option<Seq<char>> {
    let lo = body_start(path);
    let hi = used_end(path, lo, path.len() as int);
    if hi > lo {
        Some(path.take(used_end(path, lo, end_before(lo, tail_start(path, lo, hi)))))
    } else if lo == 1 && path[0] == '.' {
        Some(seq![])
    } else {
        None
    }
}

/// Where a path ends once what does not count is taken off, as a property.
pub proof fn lemma_used_end(path: Seq<char>, lo: int, hi: int)
    requires
        0 <= lo <= hi <= path.len(),
    ensures
        lo <= used_end(path, lo, hi) <= hi,
        lo < used_end(path, lo, hi) < hi ==> path[used_end(path, lo, hi)] == '/',
        used_end(path, lo, used_end(path, lo, hi)) == used_end(path, lo, hi),
    decreases hi - lo,
{
    if hi > lo {
        let part = path.subrange(lo, hi);
        lemma_last_of(part, '/');
        let start = tail_start(path, lo, hi);
        if is_idle(path.subrange(start, hi)) {
            let before = end_before(lo, start);
            lemma_used_end(path, lo, before);
            if before > lo {
                assert(part[last_of(part, '/')] == '/');
                assert(path[before] == '/');
            }
        }
    }
}

/// Only what stands before the end decides.
pub proof fn lemma_used_end_local(a: Seq<char>, b: Seq<char>, lo: int, hi: int)
    requires
        0 <= lo <= hi <= a.len(),
        hi <= b.len(),
        a.take(hi) == b.take(hi),
    ensures
        used_end(a, lo, hi) == used_end(b, lo, hi),
    decreases hi - lo,
{
    if hi > lo {
        assert(a.subrange(lo, hi) =~= a.take(hi).subrange(lo, hi));
        assert(b.subrange(lo, hi) =~= b.take(hi).subrange(lo, hi));
        lemma_last_of(a.subrange(lo, hi), '/');
        let start = tail_start(a, lo, hi);
        assert(a.subrange(start, hi) =~= a.take(hi).subrange(start, hi));
        assert(b.subrange(start, hi) =~= b.take(hi).subrange(start, hi));
        if is_idle(a.subrange(start, hi)) {
            let before = end_before(lo, start);
            assert(a.take(before) =~= a.take(hi).take(before));
            assert(b.take(before) =~= b.take(hi).take(before));
            lemma_used_end_local(a, b, lo, before);
        }
    }
}

/// Whether nothing can be taken off the end of a path but components that
/// count.
pub open spec fn is_trimmed(path: Seq<char>) -> bool {
    used_end(path, body_start(path), path.len() as int) == path.len()
}

/// Whether a text is a component by itself and neither `.` nor `..`.
pub open spec fn is_plain_name(name: Seq<char>) -> bool {
    &&& name.len() > 0
    &&& !name.contains('/')
    &&& name != seq!['.']
    &&& name != seq!['.', '.']
}

/// The parent of a path ends where its last component ends.
pub proof fn lemma_parent_is_trimmed(path: Seq<char>)
    ensures
        parent_of(path) matches Some(parent) ==> is_trimmed(parent),
{
    let lo = body_start(path);
    let len = path.len() as int;
    if path.len() > 0 {
        lemma_used_end(path, lo, len);
        let hi = used_end(path, lo, len);
        if hi > lo {
            let part = path.subrange(lo, hi);
            lemma_last_of(part, '/');
            let before = end_before(lo, tail_start(path, lo, hi));
            lemma_used_end(path, lo, before);
            let end = used_end(path, lo, before);
            let parent = path.take(end);
            if before > lo {
                assert(part[last_of(part, '/')] == '/');
                assert(path[before] == '/');
            }
            if end > lo {
                assert(path[end] == '/');
            }
            assert(body_start(parent) == lo);
            assert(parent.take(end) =~= path.take(end));
            lemma_used_end_local(parent, path, lo, end);
        } else {
            let none: Seq<char> = seq![];
            assert(body_start(none) == 0);
        }
    }
}

/// A plain name below a trimmed directory is its last component, and the
/// directory is its parent.
pub proof fn lemma_join_takes_apart(dir: Seq<char>, name: Seq<char>)
    requires
        is_trimmed(dir),
        is_plain_name(name),
    ensures
        name_of(join_path(dir, name)) == Some(name),
        parent_of(join_path(dir, name)) == Some(dir),
{
    let path = join_path(dir, name);
    let lo = body_start(dir);
    let len = path.len() as int;
    let start = len - name.len();
    assert forall|i: int| 0 <= i < name.len() implies name[i] != '/' by {
        assert(name.contains(name[i]));
    }
    assert(path.subrange(start, len) =~= name);
    if dir.len() > 0 {
        assert(path[0] == dir[0]);
        lemma_used_end(dir, lo, dir.len() as int);
        if dir.last() == '/' && lo < dir.len() {
            let part = dir.subrange(lo, dir.len() as int);
            assert(part.last() == '/');
            assert(tail_start(dir, lo, dir.len() as int) == dir.len());
            let before = dir.len() - 1;
            lemma_used_end(dir, lo, before);
        }
    }
    assert(body_start(path) == lo) by {
        if dir.len() == 0 {
            assert(path =~= name);
            if name.len() >= 2 {
                assert(name[1] != '/');
            }
            assert(name[0] != '/');
            if name[0] == '.' && name.len() == 1 {
                assert(name =~= seq!['.']);
            }
        }
    }
    let part = path.subrange(lo, len);
    assert(tail_start(path, lo, len) == start) by {
        lemma_last_of(part, '/');
        if dir.len() > lo {
            assert(path[start - 1] == '/');
            assert forall|i: int| start - 1 - lo < i < part.len() implies part[i] != '/' by {
                assert(part[i] == name[i + lo - start]);
            }
            lemma_last_of_is(part, '/', start - 1 - lo);
        } else if start == lo {
            assert(part =~= name);
        } else {
            assert(dir =~= seq!['.']);
            assert(path[1] == '/');
            assert forall|i: int| start - 1 - lo < i < part.len() implies part[i] != '/' by {
                assert(part[i] == name[i + lo - start]);
            }
            lemma_last_of_is(part, '/', start - 1 - lo);
        }
    }
    assert(used_end(path, lo, len) == len);
    let before = end_before(lo, start);
    assert(before == dir.len());
    assert(path.take(before) =~= dir);
    assert(dir.take(before) =~= dir);
    lemma_used_end_local(path, dir, lo, before);
}

/// A plain name below any directory is its last component, and nothing behind
/// it can be taken off.
pub proof fn lemma_join_ends_in(dir: Seq<char>, name: Seq<char>)
    requires
        is_plain_name(name),
    ensures
        name_of(join_path(dir, name)) == Some(name),
        is_trimmed(join_path(dir, name)),
{
    let path = join_path(dir, name);
    let len = path.len() as int;
    let start = len - name.len();
    let lo = body_start(path);
    assert forall|i: int| 0 <= i < name.len() implies name[i] != '/' by {
        assert(name.contains(name[i]));
    }
    assert(path.subrange(start, len) =~= name);
    if dir.len() == 0 {
        assert(path =~= name);
        if name[0] == '.' && name.len() == 1 {
            assert(name =~= seq!['.']);
        }
    } else {
        assert(path[0] == dir[0]);
        assert(path[start - 1] == '/');
    }
    let part = path.subrange(lo, len);
    assert(tail_start(path, lo, len) == start) by {
        lemma_last_of(part, '/');
        if start > lo {
            assert forall|i: int| start - 1 - lo < i < part.len() implies part[i] != '/' by {
                assert(part[i] == name[i + lo - start]);
            }
            lemma_last_of_is(part, '/', start - 1 - lo);
        } else {
            assert(part =~= name);
        }
    }
}

/// `name` below `base`. A `name` that starts with `/` stands for itself.
pub fn join(base: &str, name: &str) -> (path: String)
    ensures
        path@ == join_path(base@, name@),
{
    let base_chars = chars_of(base);
    let name_chars = chars_of(name);
    if name_chars.len() > 0 && name_chars[0] == '/' {
        return name.to_owned();
    }
    let mut path = base.to_owned();
    if base_chars.len() > 0 && base_chars[base_chars.len() - 1] != '/' {
        path.push('/');
        assert(path@ =~= base@ + seq!['/']);
    }
    path.append(name);
    path
}

/// Where the components begin that can be taken off a path.
fn start_of_body(path: &Vec<char>) -> (lo: usize)
    ensures
        lo == body_start(path@),
        lo <= path.len(),
{
    if path.len() > 0 && (path[0] == '/' || (path[0] == '.' && (path.len() == 1 || path[1]
        == '/'))) {
        1
    } else {
        0
    }
}

/// Where the last component of `path[lo..hi]` begins.
fn start_of_tail(path: &Vec<char>, lo: usize, hi: usize) -> (start: usize)
    requires
        lo <= hi <= path.len(),
    ensures
        start == tail_start(path@, lo as int, hi as int),
        lo <= start <= hi,
{
    let mut start: usize = hi;
    assert(path@.subrange(lo as int, hi as int) == path@.subrange(lo as int, start as int));
    while start > lo && path[start - 1] != '/'
        invariant
            lo <= start <= hi <= path.len(),
            last_of(path@.subrange(lo as int, hi as int), '/') == last_of(
                path@.subrange(lo as int, start as int),
                '/',
            ),
        decreases start - lo,
    {
        assert(path@.subrange(lo as int, start as int).drop_last() =~= path@.subrange(
            lo as int,
            start - 1,
        ));
        start -= 1;
    }
    start
}

/// The end of `path[lo..hi]` without the components at its end that do not
/// count.
fn end_of_used(path: &Vec<char>, lo: usize, hi: usize) -> (end: usize)
    requires
        lo <= hi <= path.len(),
    ensures
        end == used_end(path@, lo as int, hi as int),
        lo <= end <= hi,
{
    let mut end: usize = hi;
    while end > lo
        invariant
            lo <= end <= hi <= path.len(),
            used_end(path@, lo as int, hi as int) == used_end(path@, lo as int, end as int),
        decreases end - lo,
    {
        let start: usize = start_of_tail(path, lo, end);
        let ghost component = path@.subrange(start as int, end as int);
        if start == end || (end - start == 1 && path[start] == '.') {
            assert(is_idle(component)) by {
                if start != end {
                    assert(component =~= seq!['.']);
                }
            }
            end = if start > lo {
                start - 1
            } else {
                lo
            };
        } else {
            assert(!is_idle(component)) by {
                assert(component.len() == end - start);
                if component =~= seq!['.'] {
                    assert(component[0] == '.');
                }
            }
            return end;
        }
    }
    end
}

/// The last component of a path. A path that ends in `..` has none, nor do
/// `/`, `.` and the empty path.
pub fn file_name(path: &str) -> (name: Option<String>)
    ensures
        name is Some <==> name_of(path@) is Some,
        name matches Some(n) ==> name_of(path@) == Some(n@),
{
    let chars = chars_of(path);
    let lo: usize = start_of_body(&chars);
    let hi: usize = end_of_used(&chars, lo, chars.len());
    if hi <= lo {
        return None;
    }
    let start: usize = start_of_tail(&chars, lo, hi);
    let ghost name = path@.subrange(start as int, hi as int);
    if hi - start == 2 && chars[start] == '.' && chars[start + 1] == '.' {
        assert(name =~= seq!['.', '.']);
        return None;
    }
    assert(name != seq!['.', '.']) by {
        assert(name.len() == hi - start);
        if name =~= seq!['.', '.'] {
            assert(name[0] == '.' && name[1] == '.');
        }
    }
    Some(text_of(&chars, start, hi))
}

/// A path without its last component. `/` and the empty path have no parent.
pub fn parent(path: &str) -> (dir: Option<String>)
    ensures
        dir is Some <==> parent_of(path@) is Some,
        dir matches Some(d) ==> parent_of(path@) == Some(d@),
{
    let chars = chars_of(path);
    let lo: usize = start_of_body(&chars);
    let hi: usize = end_of_used(&chars, lo, chars.len());
    if hi > lo {
        let start: usize = start_of_tail(&chars, lo, hi);
        let before: usize = if start > lo {
            start - 1
        } else {
            lo
        };
        let end: usize = end_of_used(&chars, lo, before);
        assert(path@.subrange(0, end as int) =~= path@.take(end as int));
        Some(text_of(&chars, 0, end))
    } else if lo == 1 && chars[0] == '.' {
        let none = String::new();
        assert(none@ =~= seq![]);
        Some(none)
    } else {
        None
    }
}

/// The last component of a path is a plain name.
pub proof fn lemma_name_is_plain(path: Seq<char>)
    ensures
        name_of(path) matches Some(name) ==> is_plain_name(name),
{
    let lo = body_start(path);
    if path.len() > 0 {
        lemma_used_end(path, lo, path.len() as int);
        let hi = used_end(path, lo, path.len() as int);
        if hi > lo {
            let part = path.subrange(lo, hi);
            lemma_last_of(part, '/');
            let start = tail_start(path, lo, hi);
            let name = path.subrange(start, hi);
            assert(used_end(path, lo, hi) == hi);
            if is_idle(name) {
                lemma_used_end(path, lo, end_before(lo, start));
            }
            assert forall|i: int| 0 <= i < name.len() implies name[i] != '/' by {
                assert(name[i] == part[start - lo + i]);
            }
        }
    }
}

} // verus!
