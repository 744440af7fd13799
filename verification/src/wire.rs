//! Headers as they travel: names with raw bytes, which need not be text.

use crate::body::copied;
use crate::headers::fields;
use crate::text;
use crate::text::same_ascii;
use vstd::prelude::*;
use vstd::utf8::encode_utf8;

verus! {

/// The names and values of a list of raw fields.
pub open spec fn raw_fields(h: Seq<(String, Vec<u8>)>) -> Seq<(Seq<char>, Seq<u8>)> {
    h.map_values(|p: (String, Vec<u8>)| (p.0@, p.1@))
}

/// A visible ASCII character, a space or a tab.
pub open spec fn visible(b: u8) -> bool {
    32 <= b < 127 || b == 9
}

/// A value of visible characters only.
pub open spec fn readable(v: Seq<u8>) -> bool {
    forall|i: int| 0 <= i < v.len() ==> visible(#[trigger] v[i])
}

/// A value that a header can carry: no control character but tabs.
pub open spec fn sendable(v: Seq<u8>) -> bool {
    forall|i: int| 0 <= i < v.len() ==> (#[trigger] v[i] >= 32 && v[i] != 127 || v[i] == 9)
}

/// A value as text; empty if it is not readable.
pub open spec fn value_text(v: Seq<u8>) -> Seq<char> {
    if readable(v) {
        v.map_values(|b: u8| b as char)
    } else {
        Seq::empty()
    }
}

/// Raw fields as text.
pub open spec fn field_texts(h: Seq<(Seq<char>, Seq<u8>)>) -> Seq<(Seq<char>, Seq<char>)> {
    h.map_values(|p: (Seq<char>, Seq<u8>)| (p.0, value_text(p.1)))
}

/// How many of the first `i` fields have the name `name`.
pub open spec fn named_before(h: Seq<(Seq<char>, Seq<char>)>, i: int, name: Seq<char>) -> nat
    decreases i,
{
    if i <= 0 {
        0
    } else {
        named_before(h, i - 1, name) + if same_ascii(h[i - 1].0, name) {
            1nat
        } else {
            0nat
        }
    }
}

/// The value of the field of name `name` that comes behind `n` others of that name.
pub open spec fn nth_value(h: Seq<(Seq<char>, Seq<u8>)>, name: Seq<char>, n: nat) -> Option<Seq<u8>>
    decreases h.len(),
{
    if h.len() == 0 {
        None
    } else if !same_ascii(h[0].0, name) {
        nth_value(h.skip(1), name, n)
    } else if n > 0 {
        nth_value(h.skip(1), name, (n - 1) as nat)
    } else {
        Some(h[0].1)
    }
}

/// The raw value of a text, which stands in for `from`: an empty text stands for a value that
/// cannot be read, any other text for itself.
pub open spec fn raw_value(from: Option<Seq<u8>>, value: Seq<char>) -> Seq<u8> {
    match from {
        Some(v) => if value.len() == 0 && !readable(v) {
            v
        } else {
            encode_utf8(value)
        },
        None => encode_utf8(value),
    }
}

/// The raw fields to send for the fields `model`, which were made of `received`: the first of a
/// name of the first of that name, the second of the second, and so on.
pub open spec fn outgoing(
    received: Seq<(Seq<char>, Seq<u8>)>,
    model: Seq<(Seq<char>, Seq<char>)>,
) -> Seq<(Seq<char>, Seq<u8>)> {
    Seq::new(
        model.len(),
        |i: int|
            (
                model[i].0,
                raw_value(
                    nth_value(received, model[i].0, named_before(model, i, model[i].0)),
                    model[i].1,
                ),
            ),
    )
}

/// The fields that are meant for a proxy or are set anew for the origin.
pub open spec fn is_hop_field(name: Seq<char>, host: bool) -> bool {
    same_ascii(name, "proxy-connection"@) || same_ascii(name, "proxy-authorization"@) || (host
        && same_ascii(name, "host"@))
}

/// The raw fields without those meant for a proxy, and with the name of the origin as the host
/// where a header can carry it.
pub open spec fn origin_fields(h: Seq<(Seq<char>, Seq<u8>)>, authority: Seq<char>) -> Seq<
    (Seq<char>, Seq<u8>),
> {
    let host = sendable(encode_utf8(authority));
    let kept = h.filter(|p: (Seq<char>, Seq<u8>)| !is_hop_field(p.0, host));
    if host {
        kept.push(("host"@, encode_utf8(authority)))
    } else {
        kept
    }
}

fn is_readable(v: &[u8]) -> (r: bool)
    ensures
        r == readable(v@),
{
    let mut i: usize = 0;
    while i < v.len()
        invariant
            i <= v@.len(),
            forall|k: int| 0 <= k < i ==> visible(#[trigger] v@[k]),
        decreases v@.len() - i,
    {
        let b: u8 = v[i];
        if !(32 <= b && b < 127 || b == 9) {
            assert(!visible(v@[i as int]));
            return false;
        }
        i += 1;
    }
    true
}

fn is_sendable(v: &[u8]) -> (r: bool)
    ensures
        r == sendable(v@),
{
    let mut i: usize = 0;
    while i < v.len()
        invariant
            i <= v@.len(),
            forall|k: int| 0 <= k < i ==> (#[trigger] v@[k] >= 32 && v@[k] != 127 || v@[k] == 9),
        decreases v@.len() - i,
    {
        let b: u8 = v[i];
        if !(b >= 32 && b != 127 || b == 9) {
            assert(!(v@[i as int] >= 32 && v@[i as int] != 127 || v@[i as int] == 9));
            return false;
        }
        i += 1;
    }
    true
}

fn text_of_value(v: &Vec<u8>) -> (r: String)
    ensures
        r@ == value_text(v@),
{
    let mut s = String::new();
    if !is_readable(v.as_slice()) {
        return s;
    }
    let ghost goal = v@.map_values(|b: u8| b as char);
    let mut i: usize = 0;
    while i < v.len()
        invariant
            i <= v@.len(),
            goal == v@.map_values(|b: u8| b as char),
            s@ == goal.take(i as int),
        decreases v@.len() - i,
    {
        s.push(v[i] as char);
        i += 1;
        assert(s@ =~= goal.take(i as int));
    }
    assert(goal.take(i as int) =~= goal);
    s
}

/// Raw fields as text.
pub fn texts_of(h: &Vec<(String, Vec<u8>)>) -> (r: Vec<(String, String)>)
    ensures
        fields(r@) == field_texts(raw_fields(h@)),
{
    let mut r: Vec<(String, String)> = Vec::new();
    let mut i: usize = 0;
    while i < h.len()
        invariant
            i <= h@.len(),
            r@.len() == i,
            forall|k: int|
                0 <= k < i ==> (#[trigger] r@[k]).0@ == h@[k].0@ && r@[k].1@ == value_text(
                    h@[k].1@,
                ),
        decreases h@.len() - i,
    {
        let value = text_of_value(&h[i].1);
        r.push((h[i].0.clone(), value));
        i += 1;
    }
    assert(fields(r@) =~= field_texts(raw_fields(h@)));
    r
}

fn find_nth(h: &Vec<(String, Vec<u8>)>, name: &str, n: usize) -> (r: Option<Vec<u8>>)
    ensures
        match r {
            Some(v) => nth_value(raw_fields(h@), name@, n as nat) == Some(v@),
            None => nth_value(raw_fields(h@), name@, n as nat) is None,
        },
{
    let ghost all = raw_fields(h@);
    let mut left: usize = n;
    let mut i: usize = 0;
    assert(all.skip(0) =~= all);
    while i < h.len()
        invariant
            i <= h@.len(),
            all == raw_fields(h@),
            nth_value(all, name@, n as nat) == nth_value(all.skip(i as int), name@, left as nat),
        decreases h@.len() - i,
    {
        assert(all.skip(i as int).skip(1) =~= all.skip(i + 1));
        if text::eq_ignore_ascii_case(h[i].0.as_str(), name) {
            if left == 0 {
                return Some(copied(h[i].1.as_slice()));
            }
            left -= 1;
        }
        i += 1;
    }
    None
}

fn count_before(h: &Vec<(String, String)>, i: usize, name: &str) -> (r: usize)
    requires
        i <= h@.len(),
    ensures
        r == named_before(fields(h@), i as int, name@),
{
    let mut r: usize = 0;
    let mut k: usize = 0;
    while k < i
        invariant
            k <= i <= h@.len(),
            r <= k,
            r == named_before(fields(h@), k as int, name@),
        decreases i - k,
    {
        if text::eq_ignore_ascii_case(h[k].0.as_str(), name) {
            r += 1;
        }
        k += 1;
    }
    r
}

/// The raw fields to send for the fields `model`, which were made of `received`.
pub fn outgoing_fields(
    received: &Vec<(String, Vec<u8>)>,
    model: &Vec<(String, String)>,
) -> (r: Vec<(String, Vec<u8>)>)
    ensures
        raw_fields(r@) == outgoing(raw_fields(received@), fields(model@)),
{
    let ghost goal = outgoing(raw_fields(received@), fields(model@));
    let mut r: Vec<(String, Vec<u8>)> = Vec::new();
    let mut i: usize = 0;
    while i < model.len()
        invariant
            i <= model@.len(),
            goal == outgoing(raw_fields(received@), fields(model@)),
            r@.len() == i,
            forall|k: int|
                0 <= k < i ==> ((#[trigger] r@[k]).0@, r@[k].1@) == goal[k],
        decreases model@.len() - i,
    {
        let name = model[i].0.clone();
        let plain = copied(model[i].1.as_str().as_bytes());
        let value = if model[i].1.as_str().is_empty() {
            let n: usize = count_before(model, i, name.as_str());
            match find_nth(received, name.as_str(), n) {
                Some(v) => {
                    if is_readable(v.as_slice()) {
                        plain
                    } else {
                        v
                    }
                },
                None => plain,
            }
        } else {
            plain
        };
        r.push((name, value));
        i += 1;
    }
    assert(raw_fields(r@) =~= goal);
    r
}

/// The raw fields to send to the origin `authority`.
pub fn fields_for_origin(h: &Vec<(String, Vec<u8>)>, authority: &str) -> (r: Vec<(String, Vec<u8>)>)
    ensures
        raw_fields(r@) == origin_fields(raw_fields(h@), authority@),
{
    let host: bool = is_sendable(authority.as_bytes());
    let ghost all = raw_fields(h@);
    let ghost keep = |p: (Seq<char>, Seq<u8>)| !is_hop_field(p.0, host);
    let mut r: Vec<(String, Vec<u8>)> = Vec::new();
    let mut i: usize = 0;
    assert(all.take(0).filter(keep) =~= Seq::empty()) by {
        reveal(Seq::filter);
    }
    while i < h.len()
        invariant
            i <= h@.len(),
            all == raw_fields(h@),
            keep == (|p: (Seq<char>, Seq<u8>)| !is_hop_field(p.0, host)),
            raw_fields(r@) == all.take(i as int).filter(keep),
        decreases h@.len() - i,
    {
        let name = h[i].0.as_str();
        let hop: bool = text::eq_ignore_ascii_case(name, "proxy-connection")
            || text::eq_ignore_ascii_case(name, "proxy-authorization") || (host
            && text::eq_ignore_ascii_case(name, "host"));
        assert(all.take(i + 1).drop_last() =~= all.take(i as int));
        assert(all.take(i + 1).filter(keep) == (if keep(all[i as int]) {
            all.take(i as int).filter(keep).push(all[i as int])
        } else {
            all.take(i as int).filter(keep)
        })) by {
            reveal(Seq::filter);
        }
        if !hop {
            let ghost before = r@;
            r.push((h[i].0.clone(), copied(h[i].1.as_slice())));
            assert(raw_fields(r@) =~= raw_fields(before).push(all[i as int]));
        }
        i += 1;
    }
    assert(all.take(i as int) =~= all);
    if host {
        let ghost before = r@;
        r.push(("host".to_string(), copied(authority.as_bytes())));
        assert(raw_fields(r@) =~= raw_fields(before).push(("host"@, encode_utf8(authority@))));
    }
    r
}

// ---------------------------------------------------------------- laws

proof fn lemma_named_grows(h: Seq<(Seq<char>, Seq<char>)>, j: int, i: int, name: Seq<char>)
    requires
        0 <= j <= i,
    ensures
        named_before(h, j, name) <= named_before(h, i, name),
    decreases i,
{
    if j < i {
        lemma_named_grows(h, j, i - 1, name);
    }
}

proof fn lemma_nth_named(h: Seq<(Seq<char>, Seq<u8>)>, j: int, i: int, name: Seq<char>)
    requires
        0 <= j <= i < h.len(),
        same_ascii(h[i].0, name),
    ensures
        ({
            let t = field_texts(h);
            nth_value(
                h.skip(j),
                name,
                (named_before(t, i, name) - named_before(t, j, name)) as nat,
            ) == Some(h[i].1)
        }),
    decreases i - j,
{
    let t = field_texts(h);
    assert(h.skip(j)[0] == h[j]);
    assert(h.skip(j).skip(1) =~= h.skip(j + 1));
    if j < i {
        lemma_nth_named(h, j + 1, i, name);
        lemma_named_grows(t, j + 1, i, name);
        assert(t[j].0 == h[j].0);
    }
}

proof fn lemma_readable_is_its_text(v: Seq<u8>)
    requires
        readable(v),
    ensures
        encode_utf8(value_text(v)) == v,
{
    let t = value_text(v);
    assert forall|i: int| 0 <= i < t.len() implies '\0' <= #[trigger] t[i] <= '\u{7f}' by {
        assert(visible(v[i]));
    }
    vstd::utf8::is_ascii_chars_encode_utf8(t);
    assert forall|i: int| 0 <= i < v.len() implies encode_utf8(t)[i] == v[i] by {
        assert(visible(v[i]));
    }
    assert(encode_utf8(t) =~= v);
}

/// A field that no tool changed is sent as it was received, readable or not, whatever became of
/// the fields with other names, as long as as many of its name come before it.
pub proof fn law_unchanged_field_passes(
    received: Seq<(Seq<char>, Seq<u8>)>,
    j: int,
    model: Seq<(Seq<char>, Seq<char>)>,
    i: int,
)
    requires
        0 <= j < received.len(),
        0 <= i < model.len(),
        model[i] == field_texts(received)[j],
        named_before(model, i, model[i].0) == named_before(
            field_texts(received),
            j,
            received[j].0,
        ),
    ensures
        outgoing(received, model)[i] == received[j],
{
    lemma_nth_named(received, 0, j, received[j].0);
    assert(received.skip(0) =~= received);
    if readable(received[j].1) {
        lemma_readable_is_its_text(received[j].1);
    }
}

/// Fields that no tool changed are sent as they were received, readable or not.
pub proof fn law_unchanged_fields_pass(received: Seq<(Seq<char>, Seq<u8>)>)
    ensures
        outgoing(received, field_texts(received)) == received,
{
    let t = field_texts(received);
    assert forall|i: int| 0 <= i < received.len() implies outgoing(received, t)[i]
        == received[i] by {
        law_unchanged_field_passes(received, i, t, i);
    }
    assert(outgoing(received, t) =~= received);
}

/// An empty text that stands in for no value that cannot be read is sent as an empty value.
pub proof fn law_empty_is_sent_as_empty(
    received: Seq<(Seq<char>, Seq<u8>)>,
    model: Seq<(Seq<char>, Seq<char>)>,
    i: int,
)
    requires
        0 <= i < model.len(),
        model[i].1.len() == 0,
        nth_value(received, model[i].0, named_before(model, i, model[i].0)) matches Some(v)
            ==> readable(v),
    ensures
        outgoing(received, model)[i] == (model[i].0, Seq::<u8>::empty()),
{
    vstd::utf8::is_ascii_chars_encode_utf8(model[i].1);
    assert(encode_utf8(model[i].1) =~= Seq::<u8>::empty());
}

/// As text, a field keeps its name; its value is read byte by byte if all of it is visible, and is
/// empty otherwise.
pub proof fn law_field_texts(h: Seq<(Seq<char>, Seq<u8>)>, i: int)
    requires
        0 <= i < h.len(),
    ensures
        field_texts(h).len() == h.len(),
        field_texts(h)[i].0 == h[i].0,
        (exists|k: int|
            0 <= k < h[i].1.len() && (#[trigger] h[i].1[k] < 32 && h[i].1[k] != 9 || h[i].1[k]
                >= 127)) ==> field_texts(h)[i].1.len() == 0,
        (forall|k: int|
            0 <= k < h[i].1.len() ==> (32 <= #[trigger] h[i].1[k] < 127 || h[i].1[k] == 9)) ==> {
            &&& field_texts(h)[i].1.len() == h[i].1.len()
            &&& forall|k: int|
                0 <= k < h[i].1.len() ==> (#[trigger] field_texts(h)[i].1[k]) as int == h[i].1[k]
        },
{
    let v = h[i].1;
    if forall|k: int| 0 <= k < v.len() ==> (32 <= #[trigger] v[k] < 127 || v[k] == 9) {
        assert(readable(v));
        assert forall|k: int| 0 <= k < v.len() implies (#[trigger] value_text(v)[k]) as int
            == v[k] by {
            assert(32 <= v[k] < 127 || v[k] == 9);
        }
    }
    if exists|k: int| 0 <= k < v.len() && (#[trigger] v[k] < 32 && v[k] != 9 || v[k] >= 127) {
        let k = choose|k: int|
            0 <= k < v.len() && (#[trigger] v[k] < 32 && v[k] != 9 || v[k] >= 127);
        assert(!visible(v[k]));
        assert(!readable(v));
    }
}

/// One field is sent for each that the tools have left, under its name; a value that is not empty
/// is sent as it stands.
pub proof fn law_each_field_is_sent(
    received: Seq<(Seq<char>, Seq<u8>)>,
    model: Seq<(Seq<char>, Seq<char>)>,
    i: int,
)
    requires
        0 <= i < model.len(),
    ensures
        outgoing(received, model).len() == model.len(),
        outgoing(received, model)[i].0 == model[i].0,
        model[i].1.len() > 0 ==> outgoing(received, model)[i].1 == encode_utf8(model[i].1),
{
}

/// To an origin whose name a header can carry, the name goes as the last field, in place of every
/// other host; the fields meant for a proxy stay behind, and all others go, in their order.
pub proof fn law_origin_is_named(
    a: Seq<(Seq<char>, Seq<u8>)>,
    f: (Seq<char>, Seq<u8>),
    b: Seq<(Seq<char>, Seq<u8>)>,
    authority: Seq<char>,
)
    requires
        forall|k: int|
            0 <= k < encode_utf8(authority).len() ==> (32 <= #[trigger] encode_utf8(authority)[k]
                && encode_utf8(authority)[k] != 127 || encode_utf8(authority)[k] == 9),
    ensures
        ({
            let stays = same_ascii(f.0, "proxy-connection"@) || same_ascii(
                f.0,
                "proxy-authorization"@,
            ) || same_ascii(f.0, "host"@);
            let rest = |h: Seq<(Seq<char>, Seq<u8>)>| origin_fields(h, authority).drop_last();
            &&& origin_fields(a, authority).last() == ("host"@, encode_utf8(authority))
            &&& rest(a + b) == rest(a) + rest(b)
            &&& stays ==> rest(seq![f]).len() == 0
            &&& !stays ==> rest(seq![f]) == seq![f]
        }),
{
    assert(sendable(encode_utf8(authority)));
    let keep = |p: (Seq<char>, Seq<u8>)| !is_hop_field(p.0, true);
    let named = ("host"@, encode_utf8(authority));
    lemma_kept(a, f, b, keep);
    assert forall|h: Seq<(Seq<char>, Seq<u8>)>| #[trigger]
        origin_fields(h, authority).drop_last() == h.filter(keep) by {
        assert(h.filter(keep).push(named).drop_last() =~= h.filter(keep));
    }
}

/// To an origin whose name no header can carry, the fields go as they are, but for those meant for
/// a proxy.
pub proof fn law_origin_is_not_named(
    a: Seq<(Seq<char>, Seq<u8>)>,
    f: (Seq<char>, Seq<u8>),
    b: Seq<(Seq<char>, Seq<u8>)>,
    authority: Seq<char>,
)
    requires
        exists|k: int|
            0 <= k < encode_utf8(authority).len() && (#[trigger] encode_utf8(authority)[k] < 32
                && encode_utf8(authority)[k] != 9 || encode_utf8(authority)[k] == 127),
    ensures
        ({
            let stays = same_ascii(f.0, "proxy-connection"@) || same_ascii(
                f.0,
                "proxy-authorization"@,
            );
            &&& origin_fields(a + b, authority) == origin_fields(a, authority) + origin_fields(
                b,
                authority,
            )
            &&& stays ==> origin_fields(seq![f], authority).len() == 0
            &&& !stays ==> origin_fields(seq![f], authority) == seq![f]
        }),
{
    let v = encode_utf8(authority);
    let k = choose|k: int|
        0 <= k < v.len() && (#[trigger] v[k] < 32 && v[k] != 9 || v[k] == 127);
    assert(!(v[k] >= 32 && v[k] != 127 || v[k] == 9));
    assert(!sendable(v));
    let keep = |p: (Seq<char>, Seq<u8>)| !is_hop_field(p.0, false);
    lemma_kept(a, f, b, keep);
}

proof fn lemma_kept(
    a: Seq<(Seq<char>, Seq<u8>)>,
    f: (Seq<char>, Seq<u8>),
    b: Seq<(Seq<char>, Seq<u8>)>,
    keep: spec_fn((Seq<char>, Seq<u8>)) -> bool,
)
    ensures
        (a + b).filter(keep) == a.filter(keep) + b.filter(keep),
        keep(f) ==> seq![f].filter(keep) == seq![f],
        !keep(f) ==> seq![f].filter(keep).len() == 0,
{
    Seq::filter_distributes_over_add(a, b, keep);
    reveal_with_fuel(Seq::filter, 2);
    assert(seq![f].drop_last() =~= Seq::empty());
    assert(seq![f].drop_last().filter(keep) =~= Seq::empty());
    assert(seq![f].drop_last().filter(keep).push(f) =~= seq![f]);
}

/// A list of raw fields is seen field by field: the name and the bytes of each.
pub proof fn law_raw_fields_are_seen(h: Seq<(String, Vec<u8>)>, i: int)
    ensures
        raw_fields(h).len() == h.len(),
        0 <= i < h.len() ==> raw_fields(h)[i].0 == h[i].0@ && raw_fields(h)[i].1 == h[i].1@,
{
}

/// Fields are counted by name, up to ASCII case.
pub proof fn law_named_before(h: Seq<(Seq<char>, Seq<char>)>, i: int, name: Seq<char>)
    requires
        0 <= i < h.len(),
    ensures
        named_before(h, 0, name) == 0,
        same_ascii(h[i].0, name) ==> named_before(h, i + 1, name) == named_before(h, i, name) + 1,
        !same_ascii(h[i].0, name) ==> named_before(h, i + 1, name) == named_before(h, i, name),
{
}

/// A value that cannot be read, and that the tools have left empty, is sent as it was received,
/// though its name be written with other capitals, as long as as many of its name come before it.
pub proof fn law_unreadable_is_sent_as_received(
    received: Seq<(Seq<char>, Seq<u8>)>,
    j: int,
    model: Seq<(Seq<char>, Seq<char>)>,
    i: int,
    k: int,
)
    requires
        0 <= j < received.len(),
        0 <= i < model.len(),
        same_ascii(received[j].0, model[i].0),
        model[i].1.len() == 0,
        0 <= k < received[j].1.len(),
        received[j].1[k] < 32 && received[j].1[k] != 9 || received[j].1[k] >= 127,
        named_before(model, i, model[i].0) == named_before(
            field_texts(received),
            j,
            model[i].0,
        ),
    ensures
        outgoing(received, model)[i] == (model[i].0, received[j].1),
{
    lemma_nth_named(received, 0, j, model[i].0);
    assert(received.skip(0) =~= received);
    assert(!visible(received[j].1[k]));
    assert(!readable(received[j].1));
}

} // verus!
