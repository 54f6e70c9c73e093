//! Named fields, kept in alphabetical order of their names.

use crate::json::{json_value, members_view, JsonValue, JsonView};
use crate::text::{chars_of, same_text};
use vstd::prelude::*;

verus! {

/// Whether `a` comes before `b`: character by character, a text before every
/// longer one that it begins.
pub open spec fn text_less(a: Seq<char>, b: Seq<char>) -> bool
    decreases a.len(),
{
    if b.len() == 0 {
        false
    } else if a.len() == 0 {
        true
    } else if a[0] != b[0] {
        a[0] < b[0]
    } else {
        text_less(a.skip(1), b.skip(1))
    }
}

/// Of two different texts exactly one comes first.
pub proof fn lemma_text_order_is_total(a: Seq<char>, b: Seq<char>)
    ensures
        text_less(a, b) ==> a != b && !text_less(b, a),
        a == b || text_less(a, b) || text_less(b, a),
    decreases a.len(),
{
    if a.len() > 0 && b.len() > 0 && a[0] == b[0] {
        lemma_text_order_is_total(a.skip(1), b.skip(1));
        if a.skip(1) == b.skip(1) {
            assert(a =~= seq![a[0]] + a.skip(1));
            assert(b =~= seq![b[0]] + b.skip(1));
        }
    } else if a.len() == 0 && b.len() == 0 {
        assert(a =~= b);
    }
}

pub proof fn lemma_text_order_is_transitive(a: Seq<char>, b: Seq<char>, c: Seq<char>)
    requires
        text_less(a, b),
        text_less(b, c),
    ensures
        text_less(a, c),
    decreases a.len(),
{
    if a.len() > 0 && a[0] == b[0] && b[0] == c[0] {
        lemma_text_order_is_transitive(a.skip(1), b.skip(1), c.skip(1));
    }
}

/// Whether `a` comes before `b`.
pub fn comes_before(a: &str, b: &str) -> (yes: bool)
    ensures
        yes == text_less(a@, b@),
{
    let left = chars_of(a);
    let right = chars_of(b);
    let mut i: usize = 0;
    assert(a@.skip(0) =~= a@);
    assert(b@.skip(0) =~= b@);
    while i < left.len() && i < right.len()
        invariant
            i <= left.len(),
            i <= right.len(),
            left@ == a@,
            right@ == b@,
            text_less(a@, b@) == text_less(a@.skip(i as int), b@.skip(i as int)),
        decreases left.len() - i,
    {
        if left[i] != right[i] {
            return left[i] < right[i];
        }
        assert(a@.skip(i as int).skip(1) =~= a@.skip(i + 1));
        assert(b@.skip(i as int).skip(1) =~= b@.skip(i + 1));
        i += 1;
    }
    i < right.len()
}

/// A name and the value under it.
pub type Field = (Seq<char>, JsonView);

/// Whether each name stands before all those behind it; so no name stands
/// twice.
pub open spec fn in_order(fields: Seq<Field>) -> bool {
    forall|i: int, j: int|
        0 <= i < j < fields.len() ==> text_less(#[trigger] fields[i].0, #[trigger] fields[j].0)
}

/// The fields as a map from names to values.
pub open spec fn map_of(fields: Seq<Field>) -> Map<Seq<char>, JsonView>
    decreases fields.len(),
{
    if fields.len() == 0 {
        Map::empty()
    } else {
        map_of(fields.drop_last()).insert(fields.last().0, fields.last().1)
    }
}

/// The fields of a map, in alphabetical order of their names.
pub open spec fn fields_of(map: Map<Seq<char>, JsonView>) -> Seq<Field> {
    choose|fields: Seq<Field>| in_order(fields) && #[trigger] map_of(fields) == map
}

/// What stands in the map is what stands in the list.
pub proof fn lemma_map_of(fields: Seq<Field>)
    requires
        in_order(fields),
    ensures
        forall|i: int|
            0 <= i < fields.len() ==> map_of(fields).contains_key(#[trigger] fields[i].0)
                && map_of(fields)[fields[i].0] == fields[i].1,
        forall|name: Seq<char>|
            #[trigger] map_of(fields).contains_key(name) ==> exists|i: int|
                0 <= i < fields.len() && #[trigger] fields[i].0 == name,
    decreases fields.len(),
{
    if fields.len() > 0 {
        let init = fields.drop_last();
        assert forall|i: int, j: int| 0 <= i < j < init.len() implies text_less(
            #[trigger] init[i].0,
            #[trigger] init[j].0,
        ) by {
            assert(text_less(fields[i].0, fields[j].0));
        }
        lemma_map_of(init);
        assert forall|i: int| 0 <= i < fields.len() implies map_of(fields).contains_key(
            #[trigger] fields[i].0,
        ) && map_of(fields)[fields[i].0] == fields[i].1 by {
            if i < fields.len() - 1 {
                assert(init[i] == fields[i]);
                assert(text_less(fields[i].0, fields[fields.len() - 1].0));
                lemma_text_order_is_total(fields[i].0, fields.last().0);
                assert(map_of(init).contains_key(init[i].0));
            }
        }
        assert forall|name: Seq<char>| #[trigger] map_of(fields).contains_key(name) implies exists|
            i: int,
        |
            0 <= i < fields.len() && #[trigger] fields[i].0 == name by {
            if name == fields.last().0 {
                assert(fields[fields.len() - 1].0 == name);
            } else {
                assert(map_of(init).contains_key(name));
                let i = choose|i: int| 0 <= i < init.len() && #[trigger] init[i].0 == name;
                assert(fields[i].0 == name);
            }
        }
    }
}

/// Two lists in order that hold the same fields are the same list.
pub proof fn lemma_order_is_unique(a: Seq<Field>, b: Seq<Field>)
    requires
        in_order(a),
        in_order(b),
        map_of(a) == map_of(b),
    ensures
        a == b,
    decreases a.len(),
{
    lemma_map_of(a);
    lemma_map_of(b);
    if a.len() == 0 {
        if b.len() > 0 {
            assert(map_of(b).contains_key(b[0].0));
            assert(false);
        }
        assert(a =~= b);
    } else {
        let x = a.last();
        assert(map_of(a).contains_key(a[a.len() - 1].0));
        assert(map_of(b).contains_key(x.0));
        let j = choose|j: int| 0 <= j < b.len() && #[trigger] b[j].0 == x.0;
        let y = b.last();
        assert(map_of(b).contains_key(b[b.len() - 1].0));
        assert(map_of(a).contains_key(y.0));
        let i = choose|i: int| 0 <= i < a.len() && #[trigger] a[i].0 == y.0;
        if j < b.len() - 1 {
            assert(text_less(b[j].0, b[b.len() - 1].0));
            lemma_text_order_is_total(x.0, y.0);
            if i < a.len() - 1 {
                assert(text_less(a[i].0, a[a.len() - 1].0));
            }
            assert(false);
        }
        assert(x.0 == y.0);
        assert(x.1 == map_of(a)[a[a.len() - 1].0]);
        assert(y.1 == map_of(b)[b[b.len() - 1].0]);
        let init_a = a.drop_last();
        let init_b = b.drop_last();
        lemma_init_in_order(a);
        lemma_init_in_order(b);
        assert(map_of(init_a) =~= map_of(a).remove(x.0));
        assert(map_of(init_b) =~= map_of(b).remove(x.0));
        lemma_order_is_unique(init_a, init_b);
        assert(a =~= init_a.push(x));
        assert(b =~= init_b.push(y));
    }
}

/// The list without its last field is in order, and the last name is gone.
proof fn lemma_init_in_order(fields: Seq<Field>)
    requires
        in_order(fields),
        fields.len() > 0,
    ensures
        in_order(fields.drop_last()),
        !map_of(fields.drop_last()).contains_key(fields.last().0),
{
    let init = fields.drop_last();
    assert forall|i: int, j: int| 0 <= i < j < init.len() implies text_less(
        #[trigger] init[i].0,
        #[trigger] init[j].0,
    ) by {
        assert(text_less(fields[i].0, fields[j].0));
    }
    lemma_map_of(init);
    if map_of(init).contains_key(fields.last().0) {
        let i = choose|i: int| 0 <= i < init.len() && #[trigger] init[i].0 == fields.last().0;
        assert(text_less(fields[i].0, fields[fields.len() - 1].0));
        lemma_text_order_is_total(fields[i].0, fields.last().0);
    }
}

/// The fields of a map that a list in order stands for are that list.
pub proof fn lemma_fields_of(fields: Seq<Field>)
    requires
        in_order(fields),
    ensures
        fields_of(map_of(fields)) == fields,
{
    lemma_order_is_unique(fields_of(map_of(fields)), fields);
}

/// A field put in its place is the field added to the map.
proof fn lemma_insert(fields: Seq<Field>, at: int, field: Field)
    requires
        in_order(fields),
        0 <= at <= fields.len(),
        forall|i: int| 0 <= i < at ==> text_less(#[trigger] fields[i].0, field.0),
        forall|i: int| at <= i < fields.len() ==> text_less(field.0, #[trigger] fields[i].0),
    ensures
        in_order(fields.insert(at, field)),
        map_of(fields.insert(at, field)) == map_of(fields).insert(field.0, field.1),
{
    let new = fields.insert(at, field);
    assert forall|i: int, j: int| 0 <= i < j < new.len() implies text_less(
        #[trigger] new[i].0,
        #[trigger] new[j].0,
    ) by {
        let old_i = if i < at {
            i
        } else {
            i - 1
        };
        let old_j = if j < at {
            j
        } else {
            j - 1
        };
        if i == at {
            assert(new[j] == fields[old_j]);
        } else if j == at {
            assert(new[i] == fields[old_i]);
        } else {
            assert(text_less(fields[old_i].0, fields[old_j].0));
        }
    }
    lemma_map_of(fields);
    lemma_map_of(new);
    let want = map_of(fields).insert(field.0, field.1);
    assert forall|name: Seq<char>| #[trigger] map_of(new).contains_key(name) <==> want.contains_key(
        name,
    ) by {
        if map_of(new).contains_key(name) {
            let i = choose|i: int| 0 <= i < new.len() && #[trigger] new[i].0 == name;
            if i < at {
                assert(fields[i].0 == name);
            } else if i > at {
                assert(fields[i - 1].0 == name);
            }
        }
        if want.contains_key(name) {
            if name == field.0 {
                assert(new[at].0 == name);
            } else {
                let i = choose|i: int| 0 <= i < fields.len() && #[trigger] fields[i].0 == name;
                assert(new[if i < at {
                    i
                } else {
                    i + 1
                }].0 == name);
            }
        }
    }
    assert forall|name: Seq<char>| #[trigger] map_of(new).contains_key(name) implies map_of(new)[name]
        == want[name] by {
        let i = choose|i: int| 0 <= i < new.len() && #[trigger] new[i].0 == name;
        assert(map_of(new)[new[i].0] == new[i].1);
        if i < at {
            assert(map_of(fields)[fields[i].0] == fields[i].1);
            lemma_text_order_is_total(fields[i].0, field.0);
        } else if i > at {
            assert(map_of(fields)[fields[i - 1].0] == fields[i - 1].1);
            lemma_text_order_is_total(field.0, fields[i - 1].0);
        }
    }
    assert(map_of(new) =~= want);
}

/// A field taken out of the list is the field taken out of the map.
proof fn lemma_remove(fields: Seq<Field>, at: int)
    requires
        in_order(fields),
        0 <= at < fields.len(),
    ensures
        in_order(fields.remove(at)),
        map_of(fields.remove(at)) == map_of(fields).remove(fields[at].0),
{
    let new = fields.remove(at);
    assert forall|i: int, j: int| 0 <= i < j < new.len() implies text_less(
        #[trigger] new[i].0,
        #[trigger] new[j].0,
    ) by {
        let old_i = if i < at {
            i
        } else {
            i + 1
        };
        let old_j = if j < at {
            j
        } else {
            j + 1
        };
        assert(text_less(fields[old_i].0, fields[old_j].0));
    }
    lemma_map_of(fields);
    lemma_map_of(new);
    let want = map_of(fields).remove(fields[at].0);
    assert forall|name: Seq<char>| #[trigger] map_of(new).contains_key(name) <==> want.contains_key(
        name,
    ) by {
        if map_of(new).contains_key(name) {
            let i = choose|i: int| 0 <= i < new.len() && #[trigger] new[i].0 == name;
            let old_i = if i < at {
                i
            } else {
                i + 1
            };
            assert(fields[old_i].0 == name);
            if i < at {
                assert(text_less(fields[i].0, fields[at].0));
            } else {
                assert(text_less(fields[at].0, fields[i + 1].0));
            }
            lemma_text_order_is_total(fields[old_i].0, fields[at].0);
        }
        if want.contains_key(name) {
            let i = choose|i: int| 0 <= i < fields.len() && #[trigger] fields[i].0 == name;
            assert(new[if i < at {
                i
            } else {
                i - 1
            }].0 == name);
        }
    }
    assert forall|name: Seq<char>| #[trigger] map_of(new).contains_key(name) implies map_of(new)[name]
        == want[name] by {
        let i = choose|i: int| 0 <= i < new.len() && #[trigger] new[i].0 == name;
        assert(map_of(new)[new[i].0] == new[i].1);
        let old_i = if i < at {
            i
        } else {
            i + 1
        };
        assert(map_of(fields)[fields[old_i].0] == fields[old_i].1);
    }
    assert(map_of(new) =~= want);
}

/// The names and values of a list of fields.
pub open spec fn list_view(entries: Seq<(String, JsonValue)>) -> Seq<Field> {
    entries.map_values(|entry: (String, JsonValue)| (entry.0@, entry.1@))
}

/// Named JSON values, at most one under each name, in alphabetical order of
/// the names.
#[derive(Debug, PartialEq, Eq)]
pub struct FieldMap {
    entries: Vec<(String, JsonValue)>,
}

impl View for FieldMap {
    type V = Map<Seq<char>, JsonView>;

    closed spec fn view(&self) -> Map<Seq<char>, JsonView> {
        map_of(list_view(self.entries@))
    }
}

impl FieldMap {
    #[verifier::type_invariant]
    spec fn entries_in_order(self) -> bool {
        in_order(list_view(self.entries@))
    }

    /// No fields.
    pub fn new() -> (map: Self)
        ensures
            map@ == Map::<Seq<char>, JsonView>::empty(),
    {
        FieldMap { entries: Vec::new() }
    }

    /// The place of `name` among `entries`: behind all smaller names.
    fn place(entries: &Vec<(String, JsonValue)>, name: &str) -> (at: usize)
        requires
            in_order(list_view(entries@)),
        ensures
            at <= entries.len(),
            forall|i: int| 0 <= i < at ==> text_less(#[trigger] list_view(entries@)[i].0, name@),
            forall|i: int|
                at < i < entries.len() ==> text_less(name@, #[trigger] list_view(entries@)[i].0),
            at < entries.len() && list_view(entries@)[at as int].0 != name@ ==> text_less(
                name@,
                list_view(entries@)[at as int].0,
            ),
    {
        let ghost list = list_view(entries@);
        let mut at: usize = 0;
        while at < entries.len() && comes_before(entries[at].0.as_str(), name)
            invariant
                at <= entries.len(),
                list == list_view(entries@),
                forall|i: int| 0 <= i < at ==> text_less(#[trigger] list[i].0, name@),
            decreases entries.len() - at,
        {
            assert(list[at as int].0 == entries[at as int].0@);
            at += 1;
        }
        proof {
            if at < entries.len() {
                assert(list[at as int].0 == entries[at as int].0@);
                lemma_text_order_is_total(list[at as int].0, name@);
                assert forall|i: int| at < i < entries.len() implies text_less(
                    name@,
                    #[trigger] list[i].0,
                ) by {
                    assert(text_less(list[at as int].0, list[i].0));
                    if list[at as int].0 != name@ {
                        lemma_text_order_is_transitive(name@, list[at as int].0, list[i].0);
                    }
                }
            }
        }
        at
    }

    /// The value under `name`.
    pub fn get(&self, name: &str) -> (value: Option<&JsonValue>)
        ensures
            value is Some <==> self@.contains_key(name@),
            value matches Some(v) ==> v@ == self@[name@],
    {
        proof {
            use_type_invariant(self);
        }
        let ghost list = list_view(self.entries@);
        let at: usize = Self::place(&self.entries, name);
        proof {
            lemma_map_of(list);
        }
        if at < self.entries.len() && same_text(self.entries[at].0.as_str(), name) {
            assert(list[at as int] == (self.entries[at as int].0@, self.entries[at as int].1@));
            Some(&self.entries[at].1)
        } else {
            proof {
                if self@.contains_key(name@) {
                    let i = choose|i: int| 0 <= i < list.len() && #[trigger] list[i].0 == name@;
                    lemma_text_order_is_total(list[i].0, name@);
                    assert(list[at as int].0 == self.entries[at as int].0@);
                }
            }
            None
        }
    }

    /// Puts `value` under `name`, in place of what stood there.
    pub fn insert(&mut self, name: String, value: JsonValue)
        ensures
            final(self)@ == old(self)@.insert(name@, value@),
    {
        proof {
            use_type_invariant(&*self);
        }
        let mut entries: Vec<(String, JsonValue)> = Vec::new();
        std::mem::swap(&mut entries, &mut self.entries);
        let ghost list = list_view(entries@);
        let at: usize = Self::place(&entries, name.as_str());
        if at < entries.len() && same_text(entries[at].0.as_str(), name.as_str()) {
            assert(list[at as int].0 == name@);
            entries.remove(at);
            assert(list_view(entries@) =~= list.remove(at as int));
            proof {
                lemma_remove(list, at as int);
                assert forall|i: int| at <= i < list.remove(at as int).len() implies text_less(
                    name@,
                    #[trigger] list.remove(at as int)[i].0,
                ) by {
                    assert(list.remove(at as int)[i] == list[i + 1]);
                }
                assert forall|i: int| 0 <= i < at implies text_less(
                    #[trigger] list.remove(at as int)[i].0,
                    name@,
                ) by {
                    assert(list.remove(at as int)[i] == list[i]);
                }
            }
        } else {
            assert(at < entries.len() ==> list[at as int].0 == entries[at as int].0@);
        }
        let ghost rest = list_view(entries@);
        let ghost field = (name@, value@);
        proof {
            lemma_insert(rest, at as int, field);
        }
        entries.insert(at, (name, value));
        assert(list_view(entries@) =~= rest.insert(at as int, field));
        self.entries = entries;
        assert(self@ =~= old(self)@.insert(field.0, field.1));
    }

    /// Takes out what stands under `name`, if anything does.
    pub fn remove(&mut self, name: &str)
        ensures
            final(self)@ == old(self)@.remove(name@),
    {
        proof {
            use_type_invariant(&*self);
        }
        let mut entries: Vec<(String, JsonValue)> = Vec::new();
        std::mem::swap(&mut entries, &mut self.entries);
        let ghost list = list_view(entries@);
        let at: usize = Self::place(&entries, name);
        if at < entries.len() && same_text(entries[at].0.as_str(), name) {
            assert(list[at as int].0 == name@);
            entries.remove(at);
            assert(list_view(entries@) =~= list.remove(at as int));
            proof {
                lemma_remove(list, at as int);
            }
        } else {
            proof {
                lemma_map_of(list);
                if map_of(list).contains_key(name@) {
                    let i = choose|i: int| 0 <= i < list.len() && #[trigger] list[i].0 == name@;
                    lemma_text_order_is_total(list[i].0, name@);
                    assert(list[at as int].0 == entries[at as int].0@);
                }
                assert(map_of(list).remove(name@) =~= map_of(list));
            }
        }
        self.entries = entries;
    }

    /// The fields, in alphabetical order of their names.
    pub fn list(&self) -> (entries: &Vec<(String, JsonValue)>)
        ensures
            list_view(entries@) == fields_of(self@),
            in_order(list_view(entries@)),
            map_of(list_view(entries@)) == self@,
    {
        proof {
            use_type_invariant(self);
            lemma_fields_of(list_view(self.entries@));
        }
        &self.entries
    }
}

/// The same names and values in the same order.
pub fn copy_list(all: &Vec<(String, JsonValue)>) -> (entries: Vec<(String, JsonValue)>)
    ensures
        list_view(entries@) == list_view(all@),
{
    let ghost want = list_view(all@);
    let mut entries: Vec<(String, JsonValue)> = Vec::new();
    let mut i: usize = 0;
    while i < all.len()
        invariant
            i <= all.len(),
            want == list_view(all@),
            list_view(entries@) == want.take(i as int),
        decreases all.len() - i,
    {
        let ghost before = entries@;
        let name = all[i].0.clone();
        let value = all[i].1.clone();
        entries.push((name, value));
        assert(list_view(entries@) =~= list_view(before).push((name@, value@)));
        assert(want.take(i + 1) =~= want.take(i as int).push((name@, value@)));
        i += 1;
    }
    assert(list_view(entries@) =~= want);
    entries
}

impl Clone for FieldMap {
    fn clone(&self) -> (copy: Self)
        ensures
            copy@ == self@,
    {
        proof {
            use_type_invariant(self);
        }
        FieldMap { entries: copy_list(&self.entries) }
    }
}

/// Fields as the members of an object.
pub open spec fn field_members(fields: Seq<Field>) -> Seq<(Seq<char>, Seq<char>)> {
    fields.map_values(|f: Field| (f.0, json_value(f.1)))
}

/// Adds fields to the members of an object.
pub fn add_fields(members: &mut Vec<(String, String)>, entries: &Vec<(String, JsonValue)>)
    ensures
        members_view(final(members)@) == members_view(old(members)@) + field_members(
            list_view(entries@),
        ),
{
    let ghost start = members_view(members@);
    let ghost want = field_members(list_view(entries@));
    let mut i: usize = 0;
    assert(members_view(members@) =~= start + want.take(0));
    while i < entries.len()
        invariant
            i <= entries.len(),
            want == field_members(list_view(entries@)),
            members_view(members@) == start + want.take(i as int),
        decreases entries.len() - i,
    {
        let ghost before = members@;
        let name = entries[i].0.clone();
        let value = entries[i].1.to_json();
        members.push((name, value));
        assert(members_view(members@) =~= members_view(before).push((name@, value@)));
        assert(want[i as int] == (name@, value@));
        assert(start + want.take(i + 1) =~= (start + want.take(i as int)).push((name@, value@)));
        i += 1;
    }
    assert(want.take(entries.len() as int) =~= want);
}

} // verus!
