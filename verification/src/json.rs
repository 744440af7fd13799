//! JSON values, by what they hold.

use vstd::prelude::*;

verus! {

// ---------------------------------------------------------------- model

/// What a JSON value is.
pub enum Json {
    Null,
    Bool(bool),
    /// A whole number.
    Int(int),
    /// A floating-point number: its sign, and its size.
    Float { negative: bool, size: real },
    Str(Seq<char>),
    Arr(Seq<Json>),
    /// An object. Which member was written first is not part of it.
    Obj(Map<Seq<char>, Json>),
}

impl Json {
    /// The member with this name.
    pub open spec fn member(self, name: Seq<char>) -> Option<Json> {
        match self {
            Json::Obj(m) => if m.contains_key(name) {
                Some(m[name])
            } else {
                None
            },
            _ => None,
        }
    }

    /// The text, of a string.
    pub open spec fn string(self) -> Option<Seq<char>> {
        match self {
            Json::Str(s) => Some(s),
            _ => None,
        }
    }

    /// The number, of a whole number that is not negative.
    pub open spec fn count(self) -> Option<int> {
        match self {
            Json::Int(n) => if n >= 0 {
                Some(n)
            } else {
                None
            },
            _ => None,
        }
    }
}

/// The member with this name, or null.
pub open spec fn member_or_null(j: Json, name: Seq<char>) -> Json {
    match j.member(name) {
        Some(x) => x,
        None => Json::Null,
    }
}

/// What a list of members makes: of two with the same name the later counts.
pub open spec fn members(s: Seq<(Seq<char>, Json)>) -> Map<Seq<char>, Json>
    decreases s.len(),
{
    if s.len() == 0 {
        Map::empty()
    } else {
        members(s.drop_last()).insert(s.last().0, s.last().1)
    }
}

/// An object with these members.
pub open spec fn object(s: Seq<(Seq<char>, Json)>) -> Json {
    Json::Obj(members(s))
}

/// An array of strings.
pub open spec fn strings(s: Seq<Seq<char>>) -> Json {
    Json::Arr(s.map_values(|x: Seq<char>| Json::Str(x)))
}

/// A string, or null.
pub open spec fn str_or_null(s: Option<Seq<char>>) -> Json {
    match s {
        Some(x) => Json::Str(x),
        None => Json::Null,
    }
}

/// A floating-point number of this size is whole, and small enough to be written and read without
/// loss.
pub open spec fn small_whole(size: real) -> bool {
    exists|n: int| #[trigger] is_size(n, size)
}

/// The size is that of this whole number, which is small.
pub open spec fn is_size(n: int, size: real) -> bool {
    0 <= n <= 0x2000_0000_0000 && size == n as real
}

/// The value is no deeper than this, and its floating-point numbers are small and whole.
pub open spec fn plain(j: Json, depth: nat) -> bool
    decreases depth,
{
    match j {
        Json::Float { negative, size } => !negative && small_whole(size),
        Json::Arr(s) => depth > 0 && forall|i: int|
            0 <= i < s.len() ==> plain(#[trigger] s[i], (depth - 1) as nat),
        Json::Obj(m) => depth > 0 && forall|k: Seq<char>|
            m.contains_key(k) ==> plain(#[trigger] m[k], (depth - 1) as nat),
        _ => true,
    }
}

/// How deep a value may be to be read for sure.
pub const DEPTH: u8 = 100;

// ---------------------------------------------------------------- outside

/// A JSON value of serde_json.
#[verifier::external_type_specification]
#[verifier::external_body]
pub struct ExValue(serde_json::Value);

/// What a value of serde_json holds.
pub uninterp spec fn tree_of(v: serde_json::Value) -> Json;

/// The text that `serde_json::to_string` gives for a value that holds this.
pub uninterp spec fn compact_text(j: Json) -> Seq<char>;

/// The text that `serde_json::to_string_pretty` gives for a value that holds this.
pub uninterp spec fn pretty_text(j: Json) -> Seq<char>;

/// What `serde_json::from_str` reads out of this text; nothing if it is no JSON.
pub uninterp spec fn read_text(s: Seq<char>) -> Option<Json>;

/// What each of the values holds.
pub open spec fn trees(s: Seq<serde_json::Value>) -> Seq<Json> {
    s.map_values(|v: serde_json::Value| tree_of(v))
}

/// What each of the members holds.
pub open spec fn member_trees(s: Seq<(String, serde_json::Value)>) -> Seq<(Seq<char>, Json)> {
    s.map_values(|m: (String, serde_json::Value)| (m.0@, tree_of(m.1)))
}

/// What an optional value holds.
pub open spec fn opt_tree(v: Option<serde_json::Value>) -> Option<Json> {
    match v {
        Some(x) => Some(tree_of(x)),
        None => None,
    }
}

/// `serde_json::Value::default` is null.
#[verifier::external_body]
pub(crate) fn null() -> (r: serde_json::Value)
    ensures
        tree_of(r) == Json::Null,
{
    serde_json::Value::default()
}

/// `serde_json::Value::from` a bool is that bool.
#[verifier::external_body]
pub(crate) fn boolean(b: bool) -> (r: serde_json::Value)
    ensures
        tree_of(r) == Json::Bool(b),
{
    serde_json::Value::from(b)
}

/// `serde_json::Value::from` an `i64` is that number.
#[verifier::external_body]
pub(crate) fn signed(n: i64) -> (r: serde_json::Value)
    ensures
        tree_of(r) == Json::Int(n as int),
{
    serde_json::Value::from(n)
}

/// `serde_json::Value::from` a `u64` is that number.
#[verifier::external_body]
pub(crate) fn unsigned(n: u64) -> (r: serde_json::Value)
    ensures
        tree_of(r) == Json::Int(n as int),
{
    serde_json::Value::from(n)
}

/// `serde_json::Value::from` a floating-point number is that number. The number is that of
/// the seconds in a `Duration` of `n` seconds, which a floating-point number holds exactly up to
/// the bound.
#[verifier::external_body]
pub(crate) fn floating(n: u64) -> (r: serde_json::Value)
    requires
        n <= 0x20_0000_0000_0000,
    ensures
        tree_of(r) == (Json::Float { negative: false, size: n as real }),
{
    serde_json::Value::from(std::time::Duration::from_secs(n).as_secs_f64())
}

/// `serde_json::Value::from` a `String` is that string.
#[verifier::external_body]
pub(crate) fn string(s: String) -> (r: serde_json::Value)
    ensures
        tree_of(r) == Json::Str(s@),
{
    serde_json::Value::from(s)
}

/// `serde_json::Value::from` a `Vec` is the array of its values.
#[verifier::external_body]
pub(crate) fn array(v: Vec<serde_json::Value>) -> (r: serde_json::Value)
    ensures
        tree_of(r) == Json::Arr(trees(v@)),
{
    serde_json::Value::from(v)
}

/// `serde_json::Value::from_iter` over names with values is the object with these members; a
/// later member takes the place of one with the same name.
#[verifier::external_body]
pub(crate) fn object_of(v: Vec<(String, serde_json::Value)>) -> (r: serde_json::Value)
    ensures
        tree_of(r) == object(member_trees(v@)),
{
    serde_json::Value::from_iter(v)
}

/// `serde_json::Value::clone` holds the same.
pub assume_specification[ <serde_json::Value as Clone>::clone ](v: &serde_json::Value) -> (r:
    serde_json::Value)
    ensures
        tree_of(r) == tree_of(*v),
;

/// `serde_json::Value::get` by a name is the member with this name of an object, and nothing of
/// any other value.
#[verifier::external_body]
pub(crate) fn get<'a>(v: &'a serde_json::Value, name: &str) -> (r: Option<&'a serde_json::Value>)
    ensures
        match r {
            Some(x) => tree_of(*v).member(name@) == Some(tree_of(*x)),
            None => tree_of(*v).member(name@) is None,
        },
{
    v.get(name)
}

/// `serde_json::Value::as_str` is the text of a string, and nothing of any other value.
#[verifier::external_body]
pub(crate) fn as_str(v: &serde_json::Value) -> (r: Option<&str>)
    ensures
        match r {
            Some(s) => tree_of(*v).string() == Some(s@),
            None => tree_of(*v).string() is None,
        },
{
    v.as_str()
}

/// `serde_json::Value::as_u64` is the number of a whole number that is not negative, and nothing
/// of any other value.
#[verifier::external_body]
pub(crate) fn as_u64(v: &serde_json::Value) -> (r: Option<u64>)
    ensures
        match r {
            Some(n) => tree_of(*v).count() == Some(n as int),
            None => tree_of(*v).count() is None,
        },
{
    v.as_u64()
}

/// `serde_json::Value::is_null` tells null from all other values.
#[verifier::external_body]
pub(crate) fn is_null(v: &serde_json::Value) -> (r: bool)
    ensures
        r == (tree_of(*v) == Json::Null),
{
    v.is_null()
}

/// `serde_json::to_string` depends on what the value holds alone. What it gives for a plain
/// value, `serde_json::from_str` reads back. For an object it starts with a brace.
#[verifier::external_body]
pub(crate) fn to_text(v: &serde_json::Value) -> (r: String)
    ensures
        r@ == compact_text(tree_of(*v)),
        tree_of(*v) is Obj ==> r@.len() > 0 && r@[0] == '{',
        plain(tree_of(*v), DEPTH as nat) ==> read_text(r@) == Some(tree_of(*v)),
{
    serde_json::to_string(v).unwrap_or_default()
}

/// `serde_json::to_string_pretty` depends on what the value holds alone. What it gives for a plain
/// value, `serde_json::from_str` reads back. For an object it starts with a brace.
#[verifier::external_body]
pub(crate) fn to_pretty(v: &serde_json::Value) -> (r: String)
    ensures
        r@ == pretty_text(tree_of(*v)),
        tree_of(*v) is Obj ==> r@.len() > 0 && r@[0] == '{',
        plain(tree_of(*v), DEPTH as nat) ==> read_text(r@) == Some(tree_of(*v)),
{
    serde_json::to_string_pretty(v).unwrap_or_default()
}

/// `serde_json::from_str` depends on the text alone.
#[verifier::external_body]
pub(crate) fn parse(s: &str) -> (r: Option<serde_json::Value>)
    ensures
        opt_tree(r) == read_text(s@),
{
    serde_json::from_str(s).ok()
}

// ---------------------------------------------------------------- functions

/// A string.
pub(crate) fn text(s: &str) -> (r: serde_json::Value)
    ensures
        tree_of(r) == Json::Str(s@),
{
    string(s.to_string())
}

/// A string, or null.
pub(crate) fn opt_string(s: &Option<String>) -> (r: serde_json::Value)
    ensures
        tree_of(r) == str_or_null(crate::model::opt_text(*s)),
{
    match s {
        Some(x) => text(x.as_str()),
        None => null(),
    }
}

/// The member with this name, or null.
pub(crate) fn get_or_null(v: &serde_json::Value, name: &str) -> (r: serde_json::Value)
    ensures
        tree_of(r) == member_or_null(tree_of(*v), name@),
{
    match get(v, name) {
        Some(x) => x.clone(),
        None => null(),
    }
}

/// An object that grows member by member.
pub(crate) struct Members {
    list: Vec<(String, serde_json::Value)>,
}

impl View for Members {
    type V = Seq<(Seq<char>, Json)>;

    closed spec fn view(&self) -> Seq<(Seq<char>, Json)> {
        member_trees(self.list@)
    }
}

impl Members {
    /// No members.
    pub(crate) fn new() -> (r: Self)
        ensures
            r@ == Seq::<(Seq<char>, Json)>::empty(),
    {
        let r = Members { list: Vec::new() };
        assert(r@ =~= Seq::empty());
        r
    }

    /// One member more.
    pub(crate) fn with(self, name: &str, value: serde_json::Value) -> (r: Self)
        ensures
            r@ == self@.push((name@, tree_of(value))),
    {
        let mut list = self.list;
        list.push((name.to_string(), value));
        let r = Members { list };
        assert(r@ =~= self@.push((name@, tree_of(value))));
        r
    }

    /// The object.
    pub(crate) fn build(self) -> (r: serde_json::Value)
        ensures
            tree_of(r) == object(self@),
    {
        object_of(self.list)
    }
}

// ---------------------------------------------------------------- laws

/// A member that no later one has the name of is found under its name.
pub proof fn law_member_is_found(s: Seq<(Seq<char>, Json)>, i: int)
    requires
        0 <= i < s.len(),
        forall|j: int| i < j < s.len() ==> (#[trigger] s[j]).0 != s[i].0,
    ensures
        object(s).member(s[i].0) == Some(s[i].1),
    decreases s.len(),
{
    if i < s.len() - 1 {
        let t = s.drop_last();
        assert forall|j: int| i < j < t.len() implies (#[trigger] t[j]).0 != t[i].0 by {
            assert(t[j] == s[j]);
        }
        law_member_is_found(t, i);
        assert(s.last().0 != s[i].0);
    }
}

/// A name that no member has is not found.
pub proof fn law_member_is_missing(s: Seq<(Seq<char>, Json)>, name: Seq<char>)
    requires
        forall|i: int| 0 <= i < s.len() ==> (#[trigger] s[i]).0 != name,
    ensures
        object(s).member(name) is None,
    decreases s.len(),
{
    if s.len() > 0 {
        let t = s.drop_last();
        assert forall|i: int| 0 <= i < t.len() implies (#[trigger] t[i]).0 != name by {
            assert(t[i] == s[i]);
        }
        law_member_is_missing(t, name);
        assert(s[s.len() - 1].0 != name);
    }
}

/// An object of plain members is plain, one deeper.
pub proof fn lemma_plain_object(s: Seq<(Seq<char>, Json)>, depth: nat)
    requires
        forall|i: int| 0 <= i < s.len() ==> plain((#[trigger] s[i]).1, depth),
    ensures
        plain(object(s), depth + 1),
{
    lemma_plain_members(s, depth);
}

proof fn lemma_plain_members(s: Seq<(Seq<char>, Json)>, depth: nat)
    requires
        forall|i: int| 0 <= i < s.len() ==> plain((#[trigger] s[i]).1, depth),
    ensures
        forall|k: Seq<char>| members(s).contains_key(k) ==> plain(#[trigger] members(s)[k], depth),
    decreases s.len(),
{
    if s.len() > 0 {
        let t = s.drop_last();
        assert forall|i: int| 0 <= i < t.len() implies plain((#[trigger] t[i]).1, depth) by {
            assert(t[i] == s[i]);
        }
        lemma_plain_members(t, depth);
        assert(plain(s[s.len() - 1].1, depth));
        assert forall|k: Seq<char>| members(s).contains_key(k) implies plain(
            #[trigger] members(s)[k],
            depth,
        ) by {
            if k != s.last().0 {
                assert(members(t).contains_key(k));
                assert(plain(members(t)[k], depth));
            }
        }
    }
}

/// An array of plain values is plain, one deeper.
pub proof fn lemma_plain_array(s: Seq<Json>, depth: nat)
    requires
        forall|i: int| 0 <= i < s.len() ==> plain(#[trigger] s[i], depth),
    ensures
        plain(Json::Arr(s), depth + 1),
{
}

/// What is plain down to a depth is plain down to any greater one.
pub proof fn lemma_deeper(j: Json, low: nat, high: nat)
    requires
        plain(j, low),
        low <= high,
    ensures
        plain(j, high),
    decreases low,
{
    match j {
        Json::Arr(s) => {
            assert forall|i: int| 0 <= i < s.len() implies plain(
                #[trigger] s[i],
                (high - 1) as nat,
            ) by {
                lemma_deeper(s[i], (low - 1) as nat, (high - 1) as nat);
            }
        },
        Json::Obj(m) => {
            assert forall|k: Seq<char>| m.contains_key(k) implies plain(
                #[trigger] m[k],
                (high - 1) as nat,
            ) by {
                lemma_deeper(m[k], (low - 1) as nat, (high - 1) as nat);
            }
        },
        _ => {},
    }
}

} // verus!
