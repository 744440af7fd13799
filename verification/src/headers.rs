//! Header fields: an ordered list of names and values; names are compared up to ASCII case.

use crate::text;
use crate::text::{same_ascii, text_less};
use vstd::prelude::*;

verus! {

// ---------------------------------------------------------------- model

/// The names and values of a list of fields.
pub open spec fn fields(h: Seq<(String, String)>) -> Seq<(Seq<char>, Seq<char>)> {
    h.map_values(|p: (String, String)| (p.0@, p.1@))
}

/// The fields whose name is not `name`, in order.
pub open spec fn removed(h: Seq<(Seq<char>, Seq<char>)>, name: Seq<char>) -> Seq<
    (Seq<char>, Seq<char>),
> {
    h.filter(|p: (Seq<char>, Seq<char>)| !same_ascii(p.0, name))
}

/// The fields without any of several names.
pub open spec fn removed_all(
    h: Seq<(Seq<char>, Seq<char>)>,
    names: Seq<Seq<char>>,
) -> Seq<(Seq<char>, Seq<char>)>
    decreases names.len(),
{
    if names.len() == 0 {
        h
    } else {
        removed(removed_all(h, names.drop_last()), names.last())
    }
}

/// The fields with every field of name `name` given the value `value`.
pub open spec fn overwritten(
    h: Seq<(Seq<char>, Seq<char>)>,
    name: Seq<char>,
    value: Seq<char>,
) -> Seq<(Seq<char>, Seq<char>)> {
    h.map_values(
        |p: (Seq<char>, Seq<char>)|
            if same_ascii(p.0, name) {
                (p.0, value)
            } else {
                p
            },
    )
}

/// The fields with `value` in the first field of name `key`, or in a new last field.
pub open spec fn upserted(
    h: Seq<(Seq<char>, Seq<char>)>,
    key: Seq<char>,
    value: Seq<char>,
) -> Seq<(Seq<char>, Seq<char>)>
    decreases h.len(),
{
    if h.len() == 0 {
        seq![(key, value)]
    } else if same_ascii(h[0].0, key) {
        seq![(h[0].0, value)] + h.skip(1)
    } else {
        seq![h[0]] + upserted(h.skip(1), key, value)
    }
}

/// The fields after several upserts, one after the other.
pub open spec fn upserted_all(
    h: Seq<(Seq<char>, Seq<char>)>,
    entries: Seq<(Seq<char>, Seq<char>)>,
) -> Seq<(Seq<char>, Seq<char>)>
    decreases entries.len(),
{
    if entries.len() == 0 {
        h
    } else {
        upserted(
            upserted_all(h, entries.drop_last()),
            entries.last().0,
            entries.last().1,
        )
    }
}

/// The value of the first field of name `name`.
pub open spec fn value_of(h: Seq<(Seq<char>, Seq<char>)>, name: Seq<char>) -> Option<Seq<char>>
    decreases h.len(),
{
    if h.len() == 0 {
        None
    } else if same_ascii(h[0].0, name) {
        Some(h[0].1)
    } else {
        value_of(h.skip(1), name)
    }
}

/// Some field has the name `name`.
pub open spec fn has_field(h: Seq<(Seq<char>, Seq<char>)>, name: Seq<char>) -> bool {
    exists|i: int| 0 <= i < h.len() && same_ascii((#[trigger] h[i]).0, name)
}

// ---------------------------------------------------------------- functions

/// A second list of the same fields.
pub fn clone_fields(h: &Vec<(String, String)>) -> (r: Vec<(String, String)>)
    ensures
        fields(r@) == fields(h@),
{
    let mut r: Vec<(String, String)> = Vec::new();
    let mut i: usize = 0;
    while i < h.len()
        invariant
            i <= h@.len(),
            r@.len() == i,
            forall|k: int| 0 <= k < i ==> (#[trigger] r@[k]).0@ == h@[k].0@ && r@[k].1@ == h@[k].1@,
        decreases h@.len() - i,
    {
        r.push((h[i].0.clone(), h[i].1.clone()));
        i += 1;
    }
    assert(fields(r@) =~= fields(h@));
    r
}

/// A field with a given name and value.
pub fn field(name: &str, value: &str) -> (r: (String, String))
    ensures
        r.0@ == name@,
        r.1@ == value@,
{
    (name.to_string(), value.to_string())
}

proof fn lemma_removed_push(
    h: Seq<(Seq<char>, Seq<char>)>,
    i: int,
    name: Seq<char>,
)
    requires
        0 <= i < h.len(),
    ensures
        removed(h.take(i + 1), name) == (if same_ascii(h[i].0, name) {
            removed(h.take(i), name)
        } else {
            removed(h.take(i), name).push(h[i])
        }),
{
    reveal(Seq::filter);
    assert(h.take(i + 1).drop_last() =~= h.take(i));
}

/// Removes the fields of name `name`.
pub fn remove_header(h: &mut Vec<(String, String)>, name: &str)
    ensures
        fields(final(h)@) == removed(fields(old(h)@), name@),
{
    let ghost all = fields(h@);
    let mut r: Vec<(String, String)> = Vec::new();
    let mut i: usize = 0;
    assert(all.take(0) =~= Seq::<(Seq<char>, Seq<char>)>::empty());
    assert(removed(all.take(0), name@) =~= Seq::<(Seq<char>, Seq<char>)>::empty()) by {
        reveal(Seq::filter);
    }
    while i < h.len()
        invariant
            i <= h@.len(),
            h@ == old(h)@,
            all == fields(h@),
            fields(r@) == removed(all.take(i as int), name@),
        decreases h@.len() - i,
    {
        proof {
            lemma_removed_push(all, i as int, name@);
        }
        if !text::eq_ignore_ascii_case(h[i].0.as_str(), name) {
            let ghost before = r@;
            r.push((h[i].0.clone(), h[i].1.clone()));
            assert(fields(r@) =~= fields(before).push(all[i as int]));
        }
        i += 1;
    }
    assert(all.take(i as int) =~= all);
    *h = r;
}

/// Gives `value` to every field of name `name`.
pub fn overwrite_header(h: &mut Vec<(String, String)>, name: &str, value: &str)
    ensures
        fields(final(h)@) == overwritten(fields(old(h)@), name@, value@),
{
    let mut r: Vec<(String, String)> = Vec::new();
    let mut i: usize = 0;
    let ghost goal = overwritten(fields(h@), name@, value@);
    while i < h.len()
        invariant
            i <= h@.len(),
            h@ == old(h)@,
            goal == overwritten(fields(h@), name@, value@),
            fields(r@) == goal.take(i as int),
        decreases h@.len() - i,
    {
        let ghost before = r@;
        if text::eq_ignore_ascii_case(h[i].0.as_str(), name) {
            r.push((h[i].0.clone(), value.to_string()));
        } else {
            r.push((h[i].0.clone(), h[i].1.clone()));
        }
        assert(fields(r@) =~= fields(before).push(goal[i as int]));
        i += 1;
        assert(fields(r@) =~= goal.take(i as int));
    }
    assert(goal.take(i as int) =~= goal);
    *h = r;
}

proof fn lemma_upserted_step(
    h: Seq<(Seq<char>, Seq<char>)>,
    i: int,
    key: Seq<char>,
    value: Seq<char>,
)
    requires
        0 <= i < h.len(),
        !same_ascii(h[i].0, key),
        upserted(h, key, value) == h.take(i) + upserted(h.skip(i), key, value),
    ensures
        upserted(h, key, value) == h.take(i + 1) + upserted(h.skip(i + 1), key, value),
{
    assert(h.skip(i).skip(1) =~= h.skip(i + 1));
    assert(h.take(i) + (seq![h[i]] + upserted(h.skip(i + 1), key, value)) =~= h.take(i + 1)
        + upserted(h.skip(i + 1), key, value));
}

/// Puts `value` in the first field of name `key`, or in a new last field.
pub fn upsert_header(h: &mut Vec<(String, String)>, key: &str, value: &str)
    ensures
        fields(final(h)@) == upserted(fields(old(h)@), key@, value@),
{
    let ghost all = fields(h@);
    let mut i: usize = 0;
    assert(all.take(0) + upserted(all.skip(0), key@, value@) =~= upserted(all, key@, value@)) by {
        assert(all.skip(0) =~= all);
    }
    while i < h.len()
        invariant
            i <= h@.len(),
            h@ == old(h)@,
            all == fields(h@),
            upserted(all, key@, value@) == all.take(i as int) + upserted(
                all.skip(i as int),
                key@,
                value@,
            ),
        decreases h@.len() - i,
    {
        if text::eq_ignore_ascii_case(h[i].0.as_str(), key) {
            let name = h[i].0.clone();
            h.set(i, (name, value.to_string()));
            assert(fields(h@) =~= upserted(all, key@, value@)) by {
                assert(all.skip(i as int).skip(1) =~= all.skip(i + 1));
            }
            return;
        }
        proof {
            lemma_upserted_step(all, i as int, key@, value@);
        }
        i += 1;
    }
    h.push((key.to_string(), value.to_string()));
    assert(all.skip(i as int) =~= Seq::<(Seq<char>, Seq<char>)>::empty());
    assert(fields(h@) =~= upserted(all, key@, value@));
}

/// The value of the first field of name `name`.
pub fn find_header(h: &Vec<(String, String)>, name: &str) -> (r: Option<String>)
    ensures
        match r {
            Some(v) => value_of(fields(h@), name@) == Some(v@),
            None => value_of(fields(h@), name@) is None,
        },
{
    let ghost all = fields(h@);
    let mut i: usize = 0;
    assert(all.skip(0) =~= all);
    while i < h.len()
        invariant
            i <= h@.len(),
            all == fields(h@),
            value_of(all, name@) == value_of(all.skip(i as int), name@),
        decreases h@.len() - i,
    {
        if text::eq_ignore_ascii_case(h[i].0.as_str(), name) {
            return Some(h[i].1.clone());
        }
        assert(all.skip(i as int).skip(1) =~= all.skip(i + 1));
        i += 1;
    }
    None
}

// ---------------------------------------------------------------- tables

/// Each name comes before the next one.
pub open spec fn ascending(s: Seq<(Seq<char>, Seq<char>)>) -> bool {
    forall|i: int, j: int| 0 <= i < j < s.len() ==> text_less((#[trigger] s[i]).0, (#[trigger] s[j]).0)
}

/// A sorted list of fields with `value` under `key`.
pub open spec fn entered(
    s: Seq<(Seq<char>, Seq<char>)>,
    key: Seq<char>,
    value: Seq<char>,
) -> Seq<(Seq<char>, Seq<char>)>
    decreases s.len(),
{
    if s.len() == 0 || text_less(key, s[0].0) {
        seq![(key, value)] + s
    } else if s[0].0 == key {
        seq![(key, value)] + s.skip(1)
    } else {
        seq![s[0]] + entered(s.skip(1), key, value)
    }
}

/// Fields under distinct names, in the order of the names.
#[derive(Debug)]
pub struct HeaderTable {
    entries: Vec<(String, String)>,
}

impl View for HeaderTable {
    type V = Seq<(Seq<char>, Seq<char>)>;

    closed spec fn view(&self) -> Seq<(Seq<char>, Seq<char>)> {
        fields(self.entries@)
    }
}

impl Clone for HeaderTable {
    fn clone(&self) -> (r: Self)
        ensures
            r@ == self@,
    {
        proof {
            use_type_invariant(self);
        }
        HeaderTable { entries: clone_fields(&self.entries) }
    }
}

impl HeaderTable {
    #[verifier::type_invariant]
    spec fn wf(self) -> bool {
        ascending(fields(self.entries@))
    }

    /// A table without fields.
    pub fn new() -> (r: Self)
        ensures
            r@ == Seq::<(Seq<char>, Seq<char>)>::empty(),
    {
        let r = HeaderTable { entries: Vec::new() };
        assert(r@ =~= Seq::<(Seq<char>, Seq<char>)>::empty());
        r
    }

    /// The number of fields.
    pub fn len(&self) -> (r: usize)
        ensures
            r == self@.len(),
    {
        self.entries.len()
    }

    /// The field at a position.
    pub fn get(&self, i: usize) -> (r: (&str, &str))
        requires
            i < self@.len(),
        ensures
            (r.0@, r.1@) == self@[i as int],
            ascending(self@),
    {
        proof {
            use_type_invariant(self);
        }
        (self.entries[i].0.as_str(), self.entries[i].1.as_str())
    }

    /// The table with `value` under `key`, in place of what was there.
    pub fn insert(self, key: &str, value: &str) -> (r: Self)
        ensures
            r@ == entered(self@, key@, value@),
            ascending(r@),
    {
        proof {
            use_type_invariant(&self);
        }
        let mut entries = self.entries;
        let ghost all = fields(entries@);
        let mut i: usize = 0;
        assert(all.take(0) + entered(all.skip(0), key@, value@) =~= entered(all, key@, value@)) by {
            assert(all.skip(0) =~= all);
        }
        while i < entries.len() && text::less(entries[i].0.as_str(), key)
            invariant
                i <= entries@.len(),
                all == fields(entries@),
                ascending(all),
                forall|k: int| 0 <= k < i ==> text_less((#[trigger] all[k]).0, key@),
                entered(all, key@, value@) == all.take(i as int) + entered(
                    all.skip(i as int),
                    key@,
                    value@,
                ),
            decreases entries@.len() - i,
        {
            proof {
                text::lemma_text_less_total(all[i as int].0, key@);
                assert(all.skip(i as int).skip(1) =~= all.skip(i + 1));
                assert(all.take(i as int) + (seq![all[i as int]] + entered(
                    all.skip(i + 1),
                    key@,
                    value@,
                )) =~= all.take(i + 1) + entered(all.skip(i + 1), key@, value@));
            }
            i += 1;
        }
        if i < entries.len() && text::same(entries[i].0.as_str(), key) {
            proof {
                text::lemma_text_less_total(key@, all[i as int].0);
                assert(all.skip(i as int).skip(1) =~= all.skip(i + 1));
            }
            entries.set(i, (key.to_string(), value.to_string()));
            assert(fields(entries@) =~= all.update(i as int, (key@, value@)));
            assert(fields(entries@) =~= entered(all, key@, value@));
        } else {
            entries.insert(i, (key.to_string(), value.to_string()));
            proof {
                if i < all.len() {
                    text::lemma_text_less_total(all[i as int].0, key@);
                }
                assert(fields(entries@) =~= all.insert(i as int, (key@, value@)));
                assert(fields(entries@) =~= entered(all, key@, value@));
                assert forall|a: int, b: int| 0 <= a < b < all.len() + 1 implies text_less(
                    (#[trigger] all.insert(i as int, (key@, value@))[a]).0,
                    (#[trigger] all.insert(i as int, (key@, value@))[b]).0,
                ) by {
                    if a == i && b > i + 1 {
                        text::lemma_text_less_trans(key@, all[i as int].0, all[b - 1].0);
                    }
                }
            }
        }
        HeaderTable { entries }
    }
}

// ---------------------------------------------------------------- laws

/// A filter that every field passes changes nothing.
pub proof fn lemma_filter_keeps_all(
    h: Seq<(Seq<char>, Seq<char>)>,
    keep: spec_fn((Seq<char>, Seq<char>)) -> bool,
)
    requires
        forall|i: int| 0 <= i < h.len() ==> keep(#[trigger] h[i]),
    ensures
        h.filter(keep) == h,
    decreases h.len(),
{
    reveal(Seq::filter);
    if h.len() > 0 {
        assert forall|i: int| 0 <= i < h.drop_last().len() implies keep(
            #[trigger] h.drop_last()[i],
        ) by {
            assert(h.drop_last()[i] == h[i]);
        }
        lemma_filter_keeps_all(h.drop_last(), keep);
        assert(keep(h[h.len() - 1]));
        assert(h.drop_last().push(h.last()) =~= h);
    } else {
        assert(h.filter(keep) =~= h);
    }
}

/// No field of a removed name is left.
pub proof fn law_removed_is_gone(h: Seq<(Seq<char>, Seq<char>)>, name: Seq<char>)
    ensures
        !has_field(removed(h, name), name),
        forall|i: int|
            0 <= i < removed(h, name).len() ==> !same_ascii(
                (#[trigger] removed(h, name)[i]).0,
                name,
            ),
{
    let keep = |p: (Seq<char>, Seq<char>)| !same_ascii(p.0, name);
    broadcast use vstd::seq_lib::group_filter_ensures;
    assert forall|i: int| 0 <= i < removed(h, name).len() implies !same_ascii(
        (#[trigger] removed(h, name)[i]).0,
        name,
    ) by {
        assert(keep(h.filter(keep)[i]));
    }
}

/// Removing a name leaves the first field of every other name as it was.
pub proof fn law_removed_keeps_others(
    h: Seq<(Seq<char>, Seq<char>)>,
    name: Seq<char>,
    other: Seq<char>,
)
    requires
        !same_ascii(other, name),
    ensures
        value_of(removed(h, name), other) == value_of(h, other),
    decreases h.len(),
{
    if h.len() > 0 {
        lemma_removed_first(h, name);
        law_removed_keeps_others(h.skip(1), name, other);
        let r = removed(h.skip(1), name);
        assert((seq![h[0]] + r).skip(1) =~= r);
    } else {
        assert(removed(h, name) =~= h) by {
            reveal(Seq::filter);
        }
    }
}

proof fn lemma_removed_first(h: Seq<(Seq<char>, Seq<char>)>, name: Seq<char>)
    requires
        h.len() > 0,
    ensures
        removed(h, name) == (if same_ascii(h[0].0, name) {
            removed(h.skip(1), name)
        } else {
            seq![h[0]] + removed(h.skip(1), name)
        }),
{
    let keep = |p: (Seq<char>, Seq<char>)| !same_ascii(p.0, name);
    assert(h =~= seq![h[0]] + h.skip(1));
    Seq::filter_distributes_over_add(seq![h[0]], h.skip(1), keep);
    assert(seq![h[0]].filter(keep) =~= (if same_ascii(h[0].0, name) {
        Seq::empty()
    } else {
        seq![h[0]]
    })) by {
        reveal_with_fuel(Seq::filter, 2);
        assert(seq![h[0]].drop_last() =~= Seq::empty());
        assert(seq![h[0]].drop_last().filter(keep) =~= Seq::empty());
    }
    assert(Seq::<(Seq<char>, Seq<char>)>::empty() + removed(h.skip(1), name) =~= removed(
        h.skip(1),
        name,
    ));
}

/// Removing a name brings no other name in.
pub proof fn law_removing_adds_nothing(
    h: Seq<(Seq<char>, Seq<char>)>,
    name: Seq<char>,
    absent: Seq<char>,
)
    requires
        !has_field(h, absent),
    ensures
        !has_field(removed(h, name), absent),
    decreases h.len(),
{
    if h.len() > 0 {
        lemma_removed_first(h, name);
        assert(!has_field(h.skip(1), absent)) by {
            assert forall|i: int| 0 <= i < h.skip(1).len() implies !same_ascii(
                (#[trigger] h.skip(1)[i]).0,
                absent,
            ) by {
                assert(!same_ascii(h[i + 1].0, absent));
            }
        }
        law_removing_adds_nothing(h.skip(1), name, absent);
        let rest = removed(h.skip(1), name);
        assert forall|i: int| 0 <= i < removed(h, name).len() implies !same_ascii(
            (#[trigger] removed(h, name)[i]).0,
            absent,
        ) by {
            assert(!same_ascii(h[0].0, absent));
            if !same_ascii(h[0].0, name) && i > 0 {
                assert(removed(h, name)[i] == rest[i - 1]);
            }
        }
    } else {
        assert(removed(h, name) =~= h) by {
            reveal(Seq::filter);
        }
    }
}

/// Removing a name twice is removing it once.
pub proof fn law_removing_is_idempotent(h: Seq<(Seq<char>, Seq<char>)>, name: Seq<char>)
    ensures
        removed(removed(h, name), name) == removed(h, name),
{
    law_removed_is_gone(h, name);
    lemma_removed_none(removed(h, name), name);
}

proof fn lemma_removed_none(h: Seq<(Seq<char>, Seq<char>)>, name: Seq<char>)
    requires
        forall|i: int| 0 <= i < h.len() ==> !same_ascii((#[trigger] h[i]).0, name),
    ensures
        removed(h, name) == h,
    decreases h.len(),
{
    if h.len() > 0 {
        lemma_removed_first(h, name);
        lemma_removed_none(h.skip(1), name);
        assert(seq![h[0]] + h.skip(1) =~= h);
    } else {
        assert(removed(h, name) =~= h) by {
            reveal(Seq::filter);
        }
    }
}

/// What was set is found again.
pub proof fn law_upserted_is_found(
    h: Seq<(Seq<char>, Seq<char>)>,
    key: Seq<char>,
    value: Seq<char>,
)
    ensures
        value_of(upserted(h, key, value), key) == Some(value),
    decreases h.len(),
{
    if h.len() > 0 && !same_ascii(h[0].0, key) {
        law_upserted_is_found(h.skip(1), key, value);
        let rest = upserted(h.skip(1), key, value);
        assert((seq![h[0]] + rest).skip(1) =~= rest);
    }
}

/// Setting a field leaves the first field of every other name as it was.
pub proof fn law_upserted_keeps_others(
    h: Seq<(Seq<char>, Seq<char>)>,
    key: Seq<char>,
    value: Seq<char>,
    other: Seq<char>,
)
    requires
        !same_ascii(other, key),
    ensures
        value_of(upserted(h, key, value), other) == value_of(h, other),
    decreases h.len(),
{
    if h.len() > 0 {
        if same_ascii(h[0].0, key) {
            assert((seq![(h[0].0, value)] + h.skip(1)).skip(1) =~= h.skip(1));
        } else {
            law_upserted_keeps_others(h.skip(1), key, value, other);
            let rest = upserted(h.skip(1), key, value);
            assert((seq![h[0]] + rest).skip(1) =~= rest);
        }
    } else {
        assert(value_of(seq![(key, value)].skip(1), other) is None);
    }
}

/// Setting a field twice is setting it once, to the later value.
pub proof fn law_upserting_again_replaces(
    h: Seq<(Seq<char>, Seq<char>)>,
    key: Seq<char>,
    first: Seq<char>,
    second: Seq<char>,
)
    ensures
        upserted(upserted(h, key, first), key, second) == upserted(h, key, second),
    decreases h.len(),
{
    if h.len() == 0 {
        assert(seq![(key, first)].skip(1) =~= Seq::empty());
        assert(seq![(key, second)] + Seq::<(Seq<char>, Seq<char>)>::empty() =~= seq![
            (key, second),
        ]);
    } else if same_ascii(h[0].0, key) {
        assert((seq![(h[0].0, first)] + h.skip(1)).skip(1) =~= h.skip(1));
    } else {
        law_upserting_again_replaces(h.skip(1), key, first, second);
        let rest = upserted(h.skip(1), key, first);
        assert((seq![h[0]] + rest).skip(1) =~= rest);
    }
}

/// After overwriting, a name that was there has the new value, and no other name has changed.
pub proof fn law_overwritten(
    h: Seq<(Seq<char>, Seq<char>)>,
    name: Seq<char>,
    value: Seq<char>,
    other: Seq<char>,
)
    ensures
        value_of(h, name) is Some ==> value_of(overwritten(h, name, value), name) == Some(value),
        value_of(h, name) is None ==> overwritten(h, name, value) == h,
        !same_ascii(other, name) ==> value_of(overwritten(h, name, value), other) == value_of(
            h,
            other,
        ),
    decreases h.len(),
{
    if h.len() > 0 {
        law_overwritten(h.skip(1), name, value, other);
        assert(overwritten(h, name, value).skip(1) =~= overwritten(h.skip(1), name, value));
        if value_of(h, name) is None {
            assert(h =~= seq![h[0]] + h.skip(1));
            assert(overwritten(h, name, value) =~= seq![h[0]] + overwritten(
                h.skip(1),
                name,
                value,
            ));
        }
    } else {
        assert(overwritten(h, name, value) =~= h);
    }
}

/// The value that a table holds under a name.
pub open spec fn looked_up(s: Seq<(Seq<char>, Seq<char>)>, key: Seq<char>) -> Option<Seq<char>>
    decreases s.len(),
{
    if s.len() == 0 {
        None
    } else if s[0].0 == key {
        Some(s[0].1)
    } else {
        looked_up(s.skip(1), key)
    }
}

/// A table holds what was last put under a name, and what it held under every other name.
pub proof fn law_entered(
    s: Seq<(Seq<char>, Seq<char>)>,
    key: Seq<char>,
    value: Seq<char>,
    other: Seq<char>,
)
    requires
        ascending(s),
    ensures
        looked_up(entered(s, key, value), key) == Some(value),
        other != key ==> looked_up(entered(s, key, value), other) == looked_up(s, other),
    decreases s.len(),
{
    if s.len() == 0 || text_less(key, s[0].0) {
        assert((seq![(key, value)] + s).skip(1) =~= s);
    } else if s[0].0 == key {
        assert((seq![(key, value)] + s.skip(1)).skip(1) =~= s.skip(1));
    } else {
        assert(ascending(s.skip(1))) by {
            assert forall|i: int, j: int| 0 <= i < j < s.skip(1).len() implies text_less(
                (#[trigger] s.skip(1)[i]).0,
                (#[trigger] s.skip(1)[j]).0,
            ) by {
                assert(text_less(s[i + 1].0, s[j + 1].0));
            }
        }
        law_entered(s.skip(1), key, value, other);
        let rest = entered(s.skip(1), key, value);
        assert((seq![s[0]] + rest).skip(1) =~= rest);
    }
}

/// Removing a name looks at each field by itself: a field of that name goes, any other stays, and
/// those that stay keep their order.
pub proof fn law_removed_field_by_field(
    a: Seq<(Seq<char>, Seq<char>)>,
    b: Seq<(Seq<char>, Seq<char>)>,
    f: (Seq<char>, Seq<char>),
    name: Seq<char>,
)
    ensures
        removed(a + b, name) == removed(a, name) + removed(b, name),
        same_ascii(f.0, name) ==> removed(seq![f], name).len() == 0,
        !same_ascii(f.0, name) ==> removed(seq![f], name) == seq![f],
{
    let keep = |p: (Seq<char>, Seq<char>)| !same_ascii(p.0, name);
    Seq::filter_distributes_over_add(a, b, keep);
    lemma_removed_first(seq![f], name);
    assert(seq![f].skip(1) =~= Seq::empty());
    assert(removed(seq![f].skip(1), name) =~= Seq::empty()) by {
        reveal(Seq::filter);
    }
    assert(seq![f] + Seq::<(Seq<char>, Seq<char>)>::empty() =~= seq![f]);
}

/// Removing several names looks at each field by itself: one that has any of the names goes, any
/// other stays, and those that stay keep their order.
pub proof fn law_removed_all_field_by_field(
    a: Seq<(Seq<char>, Seq<char>)>,
    b: Seq<(Seq<char>, Seq<char>)>,
    f: (Seq<char>, Seq<char>),
    names: Seq<Seq<char>>,
)
    ensures
        removed_all(a + b, names) == removed_all(a, names) + removed_all(b, names),
        (exists|i: int| 0 <= i < names.len() && same_ascii(f.0, #[trigger] names[i]))
            ==> removed_all(seq![f], names).len() == 0,
        (forall|i: int| 0 <= i < names.len() ==> !same_ascii(f.0, #[trigger] names[i]))
            ==> removed_all(seq![f], names) == seq![f],
    decreases names.len(),
{
    if names.len() > 0 {
        let rest = names.drop_last();
        law_removed_all_field_by_field(a, b, f, rest);
        law_removed_field_by_field(
            removed_all(a, rest),
            removed_all(b, rest),
            f,
            names.last(),
        );
        let left = removed_all(seq![f], rest);
        if exists|i: int| 0 <= i < names.len() && same_ascii(f.0, #[trigger] names[i]) {
            let i = choose|i: int| 0 <= i < names.len() && same_ascii(f.0, #[trigger] names[i]);
            if i < rest.len() {
                assert(same_ascii(f.0, rest[i]));
                assert(left =~= Seq::empty());
                assert(removed(left, names.last()) =~= Seq::empty()) by {
                    reveal(Seq::filter);
                }
            } else if forall|k: int| 0 <= k < rest.len() ==> !same_ascii(f.0, #[trigger] rest[k]) {
                assert(left == seq![f]);
            } else {
                assert(left =~= Seq::empty());
                assert(removed(left, names.last()) =~= Seq::empty()) by {
                    reveal(Seq::filter);
                }
            }
        } else {
            assert forall|k: int| 0 <= k < rest.len() implies !same_ascii(
                f.0,
                #[trigger] rest[k],
            ) by {
                assert(!same_ascii(f.0, names[k]));
            }
            assert(!same_ascii(f.0, names[names.len() - 1]));
        }
    }
}

/// Removing several names leaves the first field of every other name as it was, and none of
/// theirs.
pub proof fn law_removed_all(
    h: Seq<(Seq<char>, Seq<char>)>,
    names: Seq<Seq<char>>,
    other: Seq<char>,
)
    ensures
        (exists|i: int| 0 <= i < names.len() && same_ascii(other, #[trigger] names[i]))
            ==> value_of(removed_all(h, names), other) is None,
        (forall|i: int| 0 <= i < names.len() ==> !same_ascii(other, #[trigger] names[i]))
            ==> value_of(removed_all(h, names), other) == value_of(h, other),
    decreases names.len(),
{
    if names.len() > 0 {
        let rest = names.drop_last();
        let left = removed_all(h, rest);
        law_removed_all(h, rest, other);
        if same_ascii(other, names.last()) {
            law_removed_is_gone(left, names.last());
            lemma_absent_has_no_value(removed(left, names.last()), names.last(), other);
            assert(same_ascii(other, names[names.len() - 1]));
        } else {
            law_removed_keeps_others(left, names.last(), other);
            if exists|i: int| 0 <= i < names.len() && same_ascii(other, #[trigger] names[i]) {
                let i = choose|i: int|
                    0 <= i < names.len() && same_ascii(other, #[trigger] names[i]);
                assert(same_ascii(other, rest[i]));
            } else {
                assert forall|k: int| 0 <= k < rest.len() implies !same_ascii(
                    other,
                    #[trigger] rest[k],
                ) by {
                    assert(!same_ascii(other, names[k]));
                }
            }
        }
    }
}

proof fn lemma_absent_has_no_value(
    h: Seq<(Seq<char>, Seq<char>)>,
    name: Seq<char>,
    other: Seq<char>,
)
    requires
        same_ascii(other, name),
        forall|i: int| 0 <= i < h.len() ==> !same_ascii((#[trigger] h[i]).0, name),
    ensures
        value_of(h, other) is None,
    decreases h.len(),
{
    if h.len() > 0 {
        assert(!same_ascii(h[0].0, name));
        assert forall|i: int| 0 <= i < h.skip(1).len() implies !same_ascii(
            (#[trigger] h.skip(1)[i]).0,
            name,
        ) by {
            assert(h.skip(1)[i] == h[i + 1]);
        }
        lemma_absent_has_no_value(h.skip(1), name, other);
    }
}

/// The value of a name is that of its first field; a name without a field has none.
pub proof fn law_value_of(h: Seq<(Seq<char>, Seq<char>)>, name: Seq<char>, i: int)
    ensures
        0 <= i < h.len() && same_ascii(h[i].0, name) && (forall|k: int|
            0 <= k < i ==> !same_ascii((#[trigger] h[k]).0, name)) ==> value_of(h, name) == Some(
            h[i].1,
        ),
        value_of(h, name) is None <==> forall|k: int|
            0 <= k < h.len() ==> !same_ascii((#[trigger] h[k]).0, name),
        has_field(h, name) <==> value_of(h, name) is Some,
    decreases h.len(),
{
    if h.len() > 0 {
        let t = h.skip(1);
        law_value_of(t, name, i - 1);
        if same_ascii(h[0].0, name) {
        } else {
            if forall|k: int| 0 <= k < h.len() ==> !same_ascii((#[trigger] h[k]).0, name) {
                assert forall|k: int| 0 <= k < t.len() implies !same_ascii(
                    (#[trigger] t[k]).0,
                    name,
                ) by {
                    assert(t[k] == h[k + 1]);
                }
            }
            if value_of(t, name) is None {
                assert forall|k: int| 0 <= k < h.len() implies !same_ascii(
                    (#[trigger] h[k]).0,
                    name,
                ) by {
                    if k > 0 {
                        assert(h[k] == t[k - 1]);
                    }
                }
            }
            if 0 < i < h.len() && same_ascii(h[i].0, name) && (forall|k: int|
                0 <= k < i ==> !same_ascii((#[trigger] h[k]).0, name)) {
                assert forall|k: int| 0 <= k < i - 1 implies !same_ascii(
                    (#[trigger] t[k]).0,
                    name,
                ) by {
                    assert(t[k] == h[k + 1]);
                }
                assert(t[i - 1] == h[i]);
            }
        }
    }
}

/// Overwriting changes the values of the fields of that name and nothing else.
pub proof fn law_overwritten_in_place(
    h: Seq<(Seq<char>, Seq<char>)>,
    name: Seq<char>,
    value: Seq<char>,
    i: int,
)
    requires
        0 <= i < h.len(),
    ensures
        overwritten(h, name, value).len() == h.len(),
        overwritten(h, name, value)[i].0 == h[i].0,
        same_ascii(h[i].0, name) ==> overwritten(h, name, value)[i].1 == value,
        !same_ascii(h[i].0, name) ==> overwritten(h, name, value)[i].1 == h[i].1,
{
}

/// Setting a field changes the value of the first of that name and nothing else; where there is
/// none, it adds a last one.
pub proof fn law_upserted_in_place(
    h: Seq<(Seq<char>, Seq<char>)>,
    key: Seq<char>,
    value: Seq<char>,
    i: int,
)
    ensures
        0 <= i < h.len() && same_ascii(h[i].0, key) && (forall|k: int|
            0 <= k < i ==> !same_ascii((#[trigger] h[k]).0, key)) ==> upserted(h, key, value)
            == h.update(i, (h[i].0, value)),
        (forall|k: int| 0 <= k < h.len() ==> !same_ascii((#[trigger] h[k]).0, key)) ==> upserted(
            h,
            key,
            value,
        ) == h.push((key, value)),
    decreases h.len(),
{
    if h.len() > 0 {
        let t = h.skip(1);
        law_upserted_in_place(t, key, value, i - 1);
        if 0 <= i < h.len() && same_ascii(h[i].0, key) && (forall|k: int|
            0 <= k < i ==> !same_ascii((#[trigger] h[k]).0, key)) {
            if i > 0 {
                assert forall|k: int| 0 <= k < i - 1 implies !same_ascii(
                    (#[trigger] t[k]).0,
                    key,
                ) by {
                    assert(t[k] == h[k + 1]);
                }
                assert(t[i - 1] == h[i]);
                assert(!same_ascii(h[0].0, key));
            }
            assert(upserted(h, key, value) =~= h.update(i, (h[i].0, value)));
        }
        if forall|k: int| 0 <= k < h.len() ==> !same_ascii((#[trigger] h[k]).0, key) {
            assert forall|k: int| 0 <= k < t.len() implies !same_ascii(
                (#[trigger] t[k]).0,
                key,
            ) by {
                assert(t[k] == h[k + 1]);
            }
            assert(!same_ascii(h[0].0, key));
            assert(upserted(h, key, value) =~= h.push((key, value)));
        }
    } else {
        assert(upserted(h, key, value) =~= h.push((key, value)));
    }
}

/// Setting several fields is setting them one after the other.
pub proof fn law_upserted_in_turn(
    h: Seq<(Seq<char>, Seq<char>)>,
    a: Seq<(Seq<char>, Seq<char>)>,
    b: Seq<(Seq<char>, Seq<char>)>,
    f: (Seq<char>, Seq<char>),
)
    ensures
        upserted_all(h, Seq::empty()) == h,
        upserted_all(h, seq![f]) == upserted(h, f.0, f.1),
        upserted_all(h, a + b) == upserted_all(upserted_all(h, a), b),
    decreases b.len(),
{
    assert(seq![f].drop_last() =~= Seq::empty());
    assert(upserted_all(h, seq![f].drop_last()) == h);
    if b.len() > 0 {
        law_upserted_in_turn(h, a, b.drop_last(), f);
        assert((a + b).drop_last() =~= a + b.drop_last());
    } else {
        assert(a + b =~= a);
    }
}

/// Setting several fields leaves the first field of every other name as it was.
pub proof fn law_upserted_all_keeps_others(
    h: Seq<(Seq<char>, Seq<char>)>,
    entries: Seq<(Seq<char>, Seq<char>)>,
    other: Seq<char>,
)
    requires
        forall|k: int|
            0 <= k < entries.len() ==> !same_ascii(other, (#[trigger] entries[k]).0),
    ensures
        value_of(upserted_all(h, entries), other) == value_of(h, other),
    decreases entries.len(),
{
    if entries.len() > 0 {
        let rest = entries.drop_last();
        assert forall|k: int| 0 <= k < rest.len() implies !same_ascii(
            other,
            (#[trigger] rest[k]).0,
        ) by {
            assert(rest[k] == entries[k]);
        }
        law_upserted_all_keeps_others(h, rest, other);
        assert(!same_ascii(other, entries[entries.len() - 1].0));
        law_upserted_keeps_others(
            upserted_all(h, rest),
            entries.last().0,
            entries.last().1,
            other,
        );
    }
}

/// Of several fields that are set, each is found, unless a later one has the same name.
pub proof fn law_upserted_all_are_found(
    h: Seq<(Seq<char>, Seq<char>)>,
    entries: Seq<(Seq<char>, Seq<char>)>,
    i: int,
)
    requires
        0 <= i < entries.len(),
        forall|k: int|
            i < k < entries.len() ==> !same_ascii(entries[i].0, (#[trigger] entries[k]).0),
    ensures
        value_of(upserted_all(h, entries), entries[i].0) == Some(entries[i].1),
    decreases entries.len(),
{
    let rest = entries.drop_last();
    if i == entries.len() - 1 {
        law_upserted_is_found(upserted_all(h, rest), entries[i].0, entries[i].1);
    } else {
        assert forall|k: int| i < k < rest.len() implies !same_ascii(
            rest[i].0,
            (#[trigger] rest[k]).0,
        ) by {
            assert(rest[k] == entries[k]);
        }
        law_upserted_all_are_found(h, rest, i);
        assert(!same_ascii(entries[i].0, entries[entries.len() - 1].0));
        law_upserted_keeps_others(
            upserted_all(h, rest),
            entries.last().0,
            entries.last().1,
            entries[i].0,
        );
    }
}

/// Putting a value under a name keeps the names of a table in their order, each once.
pub proof fn law_table_stays_in_order(
    s: Seq<(Seq<char>, Seq<char>)>,
    key: Seq<char>,
    value: Seq<char>,
)
    requires
        forall|i: int, j: int|
            0 <= i < j < s.len() ==> text_less((#[trigger] s[i]).0, (#[trigger] s[j]).0),
    ensures
        forall|i: int, j: int|
            0 <= i < j < entered(s, key, value).len() ==> text_less(
                (#[trigger] entered(s, key, value)[i]).0,
                (#[trigger] entered(s, key, value)[j]).0,
            ),
        forall|i: int|
            0 <= i < entered(s, key, value).len() ==> (#[trigger] entered(s, key, value)[i]) == (
                key,
                value,
            ) || s.contains(entered(s, key, value)[i]),
        ascending(s),
    decreases s.len(),
{
    let e = entered(s, key, value);
    if s.len() == 0 || text_less(key, s[0].0) {
        assert forall|i: int, j: int| 0 <= i < j < e.len() implies text_less(
            (#[trigger] e[i]).0,
            (#[trigger] e[j]).0,
        ) by {
            assert(e[j] == s[j - 1]);
            if i == 0 {
                if j > 1 {
                    text::lemma_text_less_trans(key, s[0].0, s[j - 1].0);
                }
            } else {
                assert(e[i] == s[i - 1]);
            }
        }
        assert forall|i: int| 0 <= i < e.len() implies (#[trigger] e[i]) == (key, value)
            || s.contains(e[i]) by {
            if i > 0 {
                assert(e[i] == s[i - 1]);
            }
        }
    } else if s[0].0 == key {
        assert forall|i: int, j: int| 0 <= i < j < e.len() implies text_less(
            (#[trigger] e[i]).0,
            (#[trigger] e[j]).0,
        ) by {
            assert(e[j] == s[j]);
            assert(e[i].0 == s[i].0);
        }
        assert forall|i: int| 0 <= i < e.len() implies (#[trigger] e[i]) == (key, value)
            || s.contains(e[i]) by {
            if i > 0 {
                assert(e[i] == s[i]);
            }
        }
    } else {
        let t = s.skip(1);
        let rest = entered(t, key, value);
        assert forall|i: int, j: int| 0 <= i < j < t.len() implies text_less(
            (#[trigger] t[i]).0,
            (#[trigger] t[j]).0,
        ) by {
            assert(t[i] == s[i + 1] && t[j] == s[j + 1]);
        }
        law_table_stays_in_order(t, key, value);
        text::lemma_text_less_total(key, s[0].0);
        assert forall|i: int| 0 <= i < rest.len() implies text_less(
            s[0].0,
            (#[trigger] rest[i]).0,
        ) by {
            if rest[i] != (key, value) {
                assert(t.contains(rest[i]));
                let k = choose|k: int| 0 <= k < t.len() && t[k] == rest[i];
                assert(t[k] == s[k + 1]);
            }
        }
        assert forall|i: int, j: int| 0 <= i < j < e.len() implies text_less(
            (#[trigger] e[i]).0,
            (#[trigger] e[j]).0,
        ) by {
            assert(e[j] == rest[j - 1]);
            if i > 0 {
                assert(e[i] == rest[i - 1]);
            }
        }
        assert forall|i: int| 0 <= i < e.len() implies (#[trigger] e[i]) == (key, value)
            || s.contains(e[i]) by {
            if i > 0 {
                assert(e[i] == rest[i - 1]);
                if rest[i - 1] != (key, value) {
                    let k = choose|k: int| 0 <= k < t.len() && t[k] == rest[i - 1];
                    assert(s[k + 1] == e[i]);
                }
            } else {
                assert(e[0] == s[0]);
            }
        }
    }
}

/// A list of fields is seen field by field: the name and the value of each.
pub proof fn law_fields_are_seen(h: Seq<(String, String)>, i: int)
    ensures
        fields(h).len() == h.len(),
        0 <= i < h.len() ==> fields(h)[i].0 == h[i].0@ && fields(h)[i].1 == h[i].1@,
{
}

} // verus!
