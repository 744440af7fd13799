//! The encoding that certificates are written in, as far as the name of a certificate's owner has
//! to be found in it.

use vstd::prelude::*;
use vstd::slice::slice_subrange;

verus! {

// ---------------------------------------------------------------- model

/// The tag of a sequence.
pub const SEQUENCE: u32 = 16;

/// The tag of a set.
pub const SET_OF: u32 = 17;

/// The tag before the version of a certificate.
pub const VERSION_TAG: u32 = 0;

/// The tag of a printable string.
pub const PRINTABLE: u32 = 19;

/// The question mark.
pub const QUESTION: u8 = 0x3f;

/// The number that these bytes are, the highest first.
pub open spec fn big_endian(s: Seq<u8>) -> nat
    decreases s.len(),
{
    if s.len() == 0 {
        0
    } else {
        big_endian(s.drop_last()) * 256 + s.last() as nat
    }
}

/// A value: its tag, whether it is made of other values, its contents, and what follows it.
pub struct Element {
    pub tag: u32,
    pub compound: bool,
    pub body: Seq<u8>,
    pub rest: Seq<u8>,
}

/// A tag in bytes of their own, seven bits each, of which five are read at most: the tag, in 32
/// bits, and where it ends. What was read of it so far is given.
pub open spec fn long_tag(s: Seq<u8>, at: int, so_far: u32) -> Option<(u32, int)>
    decreases 6 - at,
{
    if at >= s.len() || at > 5 {
        None
    } else {
        let tag = ((so_far * 128 + s[at] % 128) % 0x1_0000_0000) as u32;
        if s[at] < 128 {
            Some((tag, at + 1))
        } else {
            long_tag(s, at + 1, tag)
        }
    }
}

/// The tag of the first value, and where it ends: it is in the first byte, or in bytes behind it.
pub open spec fn first_tag(s: Seq<u8>) -> Option<(u32, int)> {
    if s.len() == 0 {
        None
    } else if s[0] % 32 == 31 {
        long_tag(s, 1, 0)
    } else {
        Some(((s[0] % 32) as u32, 1))
    }
}

/// The first value, whose contents, so many bytes, begin at a place.
pub open spec fn parted(s: Seq<u8>, tag: u32, at: int, len: nat) -> Option<Element> {
    if at + len <= s.len() {
        Some(
            Element {
                tag,
                compound: s[0] / 32 % 2 == 1,
                body: s.subrange(at, at + len),
                rest: s.skip(at + len),
            },
        )
    } else {
        None
    }
}

/// The first value, whose tag ends at a place. The length of its contents is in one byte, or in
/// others behind a byte that says in how many.
pub open spec fn behind_tag(s: Seq<u8>, tag: u32, at: int) -> Option<Element> {
    if at >= s.len() {
        None
    } else if s[at] < 128 {
        parted(s, tag, at + 1, s[at] as nat)
    } else if 128 < s[at] < 255 && s.len() >= at + 1 + (s[at] - 128) {
        let n = s[at] - 128;
        parted(s, tag, at + 1 + n, big_endian(s.subrange(at + 1, at + 1 + n)))
    } else {
        None
    }
}

/// The first value.
pub open spec fn first_value(s: Seq<u8>) -> Option<Element> {
    match first_tag(s) {
        Some((tag, at)) => behind_tag(s, tag, at),
        None => None,
    }
}

/// What follows the first values, so many of them.
pub open spec fn behind_values(s: Seq<u8>, n: nat) -> Option<Seq<u8>>
    decreases n,
{
    if n == 0 {
        Some(s)
    } else {
        match first_value(s) {
            Some(v) => behind_values(v.rest, (n - 1) as nat),
            None => None,
        }
    }
}

/// The contents of the first value, of a sequence.
pub open spec fn in_sequence(s: Seq<u8>) -> Option<Seq<u8>> {
    match first_value(s) {
        Some(v) => if v.tag == SEQUENCE {
            Some(v.body)
        } else {
            None
        },
        None => None,
    }
}

/// What follows the version of a certificate, which may be missing.
pub open spec fn behind_version(s: Seq<u8>) -> Option<Seq<u8>> {
    match first_value(s) {
        Some(v) => if v.tag == VERSION_TAG {
            Some(v.rest)
        } else {
            Some(s)
        },
        None => None,
    }
}

/// The contents of the name of the owner of a certificate. The number of the certificate, how it
/// is signed, the name of its issuer and its dates come before.
pub open spec fn subject_of(cert: Seq<u8>) -> Option<Seq<u8>> {
    match in_sequence(cert) {
        Some(whole) => match in_sequence(whole) {
            Some(inner) => match behind_version(inner) {
                Some(numbered) => match behind_values(numbered, 4) {
                    Some(named) => in_sequence(named),
                    None => None,
                },
                None => None,
            },
            None => None,
        },
        None => None,
    }
}

/// The object identifier has two numbers at least, and the first is below three.
pub open spec fn object_fits(b: Seq<u8>) -> bool {
    b.len() >= 1 && b[0] < 120 && !(b.len() == 1 && b[0] == 0)
}

/// The text is not a printable string with a question mark in it.
pub open spec fn text_fits(tag: u32, body: Seq<u8>) -> bool {
    tag == PRINTABLE ==> !body.contains(QUESTION)
}

/// An attribute of a name: an object identifier, and a text under a tag; and what follows it.
pub struct Attribute {
    pub object: Seq<u8>,
    pub tag: u32,
    pub text: Seq<u8>,
    pub rest: Seq<u8>,
}

/// The first attribute: a sequence of two values, of which the first is not made of others. What
/// else is in the sequence is passed over.
pub open spec fn first_attribute(s: Seq<u8>) -> Option<Attribute> {
    match first_value(s) {
        Some(v) => if v.tag == SEQUENCE {
            match first_value(v.body) {
                Some(o) => if o.compound {
                    None
                } else {
                    match first_value(o.rest) {
                        Some(t) => Some(
                            Attribute { object: o.body, tag: t.tag, text: t.body, rest: v.rest },
                        ),
                        None => None,
                    }
                },
                None => None,
            }
        } else {
            None
        },
        None => None,
    }
}

/// The attributes, one after the other, can be written, down to the first that cannot be read.
pub open spec fn attributes_fit(s: Seq<u8>) -> bool
    decreases s.len(),
{
    match first_attribute(s) {
        Some(a) => {
            &&& object_fits(a.object)
            &&& text_fits(a.tag, a.text)
            &&& a.rest.len() < s.len() && attributes_fit(a.rest)
        },
        None => true,
    }
}

/// The first part of a name: a set of attributes, of which one at least can be read.
pub open spec fn first_part(s: Seq<u8>) -> Option<Element> {
    match first_value(s) {
        Some(v) => if v.tag == SET_OF && first_attribute(v.body) is Some {
            Some(v)
        } else {
            None
        },
        None => None,
    }
}

/// The parts of a name, one after the other, can be written, down to the first that cannot be
/// read.
pub open spec fn parts_fit(s: Seq<u8>) -> bool
    decreases s.len(),
{
    match first_part(s) {
        Some(v) => attributes_fit(v.body) && v.rest.len() < s.len() && parts_fit(v.rest),
        None => true,
    }
}

/// The name of the owner of a certificate can be written again: it is where a certificate has it,
/// and what can be read of it can be written.
pub open spec fn subject_fits(cert: Seq<u8>) -> bool {
    match subject_of(cert) {
        Some(name) => parts_fit(name),
        None => false,
    }
}

// ---------------------------------------------------------------- functions

/// A value, in the bytes that it was read from.
struct Piece<'a> {
    tag: u32,
    compound: bool,
    body: &'a [u8],
    rest: &'a [u8],
}

impl<'a> Piece<'a> {
    spec fn value(self) -> Element {
        Element { tag: self.tag, compound: self.compound, body: self.body@, rest: self.rest@ }
    }
}

/// What was read is this value; nothing, where there is none.
spec fn reads(r: Option<Piece>, v: Option<Element>) -> bool {
    match r {
        Some(p) => v == Some(p.value()),
        None => v is None,
    }
}

proof fn lemma_big_endian_grows(s: Seq<u8>, k: int)
    requires
        0 <= k <= s.len(),
    ensures
        big_endian(s.take(k)) <= big_endian(s),
    decreases s.len(),
{
    if k < s.len() {
        lemma_big_endian_grows(s.drop_last(), k);
        assert(s.drop_last().take(k) =~= s.take(k));
    } else {
        assert(s.take(k) =~= s);
    }
}

/// The number that the bytes are, if it is no greater than the bound.
fn read_big_endian(s: &[u8], bound: usize) -> (r: Option<usize>)
    ensures
        match r {
            Some(n) => n == big_endian(s@) && n <= bound,
            None => big_endian(s@) > bound,
        },
{
    let mut r: u128 = 0;
    let mut i: usize = 0;
    assert(s@.take(0) =~= Seq::<u8>::empty());
    while i < s.len()
        invariant
            i <= s@.len(),
            r == big_endian(s@.take(i as int)),
            r <= bound,
        decreases s@.len() - i,
    {
        assert(s@.take(i + 1).drop_last() =~= s@.take(i as int));
        r = r * 256 + s[i] as u128;
        i += 1;
        if r > bound as u128 {
            proof {
                lemma_big_endian_grows(s@, i as int);
            }
            return None;
        }
    }
    assert(s@.take(i as int) =~= s@);
    Some(r as usize)
}

fn read_tag(s: &[u8]) -> (r: Option<(u32, usize)>)
    ensures
        match r {
            Some((tag, at)) => first_tag(s@) == Some((tag, at as int)) && 1 <= at <= s@.len(),
            None => first_tag(s@) is None,
        },
{
    if s.len() == 0 {
        return None;
    }
    if s[0] % 32 != 31 {
        return Some(((s[0] % 32) as u32, 1));
    }
    let mut tag: u32 = 0;
    let mut at: usize = 1;
    while at < s.len() && at <= 5
        invariant
            1 <= at <= s@.len(),
            at <= 6,
            s@[0] % 32 == 31,
            first_tag(s@) == long_tag(s@, at as int, tag),
        decreases 6 - at,
    {
        let b: u8 = s[at];
        tag = ((tag as u64 * 128 + (b % 128) as u64) % 0x1_0000_0000) as u32;
        at += 1;
        if b < 128 {
            return Some((tag, at));
        }
    }
    None
}

/// The first value, whose contents begin at a place and are so long.
fn part(s: &[u8], tag: u32, at: usize, len: usize) -> (r: Piece)
    requires
        1 <= at,
        at + len <= s@.len(),
    ensures
        parted(s@, tag, at as int, len as nat) == Some(r.value()),
        r.rest@.len() < s@.len(),
{
    let size: usize = s.len();
    let end: usize = at + len;
    let rest = slice_subrange(s, end, size);
    assert(rest@ =~= s@.skip(end as int));
    Piece { tag, compound: s[0] / 32 % 2 == 1, body: slice_subrange(s, at, end), rest }
}

/// The first value.
fn read_value(s: &[u8]) -> (r: Option<Piece>)
    ensures
        reads(r, first_value(s@)),
        r is Some ==> r->0.rest@.len() < s@.len(),
{
    let (tag, at) = match read_tag(s) {
        Some(t) => t,
        None => return None,
    };
    if at >= s.len() {
        return None;
    }
    let l: u8 = s[at];
    if l < 128 {
        if s.len() - at - 1 < l as usize {
            return None;
        }
        return Some(part(s, tag, at + 1, l as usize));
    }
    if l == 128 || l == 255 {
        return None;
    }
    let n: usize = (l - 128) as usize;
    if s.len() - at - 1 < n {
        return None;
    }
    let from: usize = at + 1 + n;
    match read_big_endian(slice_subrange(s, at + 1, from), s.len() - from) {
        Some(len) => Some(part(s, tag, from, len)),
        None => None,
    }
}

fn enter_sequence(s: &[u8]) -> (r: Option<&[u8]>)
    ensures
        match r {
            Some(b) => in_sequence(s@) == Some(b@),
            None => in_sequence(s@) is None,
        },
{
    match read_value(s) {
        Some(v) => {
            if v.tag == SEQUENCE {
                Some(v.body)
            } else {
                None
            }
        },
        None => None,
    }
}

fn skip_values(s: &[u8], n: usize) -> (r: Option<&[u8]>)
    ensures
        match r {
            Some(b) => behind_values(s@, n as nat) == Some(b@),
            None => behind_values(s@, n as nat) is None,
        },
{
    let mut rest = s;
    let mut left: usize = n;
    while left > 0
        invariant
            behind_values(s@, n as nat) == behind_values(rest@, left as nat),
        decreases left,
    {
        match read_value(rest) {
            Some(v) => {
                rest = v.rest;
            },
            None => {
                return None;
            },
        }
        left -= 1;
    }
    Some(rest)
}

fn find_subject(cert: &[u8]) -> (r: Option<&[u8]>)
    ensures
        match r {
            Some(b) => subject_of(cert@) == Some(b@),
            None => subject_of(cert@) is None,
        },
{
    let whole = match enter_sequence(cert) {
        Some(b) => b,
        None => return None,
    };
    let inner = match enter_sequence(whole) {
        Some(b) => b,
        None => return None,
    };
    let numbered = match read_value(inner) {
        Some(v) => {
            if v.tag == VERSION_TAG {
                v.rest
            } else {
                inner
            }
        },
        None => return None,
    };
    match skip_values(numbered, 4) {
        Some(named) => enter_sequence(named),
        None => None,
    }
}

fn holds_byte(s: &[u8], b: u8) -> (r: bool)
    ensures
        r == s@.contains(b),
{
    let mut i: usize = 0;
    while i < s.len()
        invariant
            i <= s@.len(),
            forall|k: int| 0 <= k < i ==> s@[k] != b,
        decreases s@.len() - i,
    {
        if s[i] == b {
            assert(s@[i as int] == b);
            return true;
        }
        i += 1;
    }
    false
}

/// The first attribute: whether it can be written, and what follows it.
fn read_attribute(s: &[u8]) -> (r: Option<(bool, &[u8])>)
    ensures
        match r {
            Some((fits, rest)) => match first_attribute(s@) {
                Some(a) => {
                    &&& fits == (object_fits(a.object) && text_fits(a.tag, a.text))
                    &&& rest@ == a.rest
                    &&& rest@.len() < s@.len()
                },
                None => false,
            },
            None => first_attribute(s@) is None,
        },
{
    let v = match read_value(s) {
        Some(v) => v,
        None => return None,
    };
    if v.tag != SEQUENCE {
        return None;
    }
    let o = match read_value(v.body) {
        Some(o) => o,
        None => return None,
    };
    if o.compound {
        return None;
    }
    match read_value(o.rest) {
        Some(t) => {
            let b = o.body;
            let object: bool = b.len() >= 1 && b[0] < 120 && !(b.len() == 1 && b[0] == 0);
            Some((object && (t.tag != PRINTABLE || !holds_byte(t.body, QUESTION)), v.rest))
        },
        None => None,
    }
}

fn can_write_attributes(s: &[u8]) -> (r: bool)
    ensures
        r == attributes_fit(s@),
{
    let mut left = s;
    loop
        invariant
            attributes_fit(s@) == attributes_fit(left@),
        decreases left@.len(),
    {
        match read_attribute(left) {
            Some((fits, rest)) => {
                if !fits {
                    return false;
                }
                left = rest;
            },
            None => {
                return true;
            },
        }
    }
}

fn can_write_parts(s: &[u8]) -> (r: bool)
    ensures
        r == parts_fit(s@),
{
    let mut left = s;
    loop
        invariant
            parts_fit(s@) == parts_fit(left@),
        decreases left@.len(),
    {
        let v = match read_value(left) {
            Some(v) => v,
            None => return true,
        };
        if v.tag != SET_OF || read_attribute(v.body).is_none() {
            return true;
        }
        if !can_write_attributes(v.body) {
            return false;
        }
        left = v.rest;
    }
}

/// Whether the name of the owner of a certificate can be written again.
pub fn can_rewrite_subject(cert: &[u8]) -> (r: bool)
    ensures
        r == subject_fits(cert@),
{
    match find_subject(cert) {
        Some(name) => can_write_parts(name),
        None => false,
    }
}

// ---------------------------------------------------------------- laws

/// The number that bytes are grows by a byte as a number in base 256 does.
pub proof fn law_big_endian(s: Seq<u8>, b: u8)
    ensures
        big_endian(Seq::empty()) == 0,
        big_endian(s.push(b)) == big_endian(s) * 256 + b,
{
    assert(s.push(b).drop_last() =~= s);
}

/// A value with a short tag and a short length is read back: its tag, whether it is made of others,
/// its contents, and what follows.
pub proof fn law_short_value_is_read(t: u8, body: Seq<u8>, rest: Seq<u8>)
    requires
        t % 32 != 31,
        body.len() < 128,
    ensures
        first_value(seq![t, body.len() as u8] + body + rest) == Some(
            Element { tag: (t % 32) as u32, compound: t / 32 % 2 == 1, body, rest },
        ),
{
    let s = seq![t, body.len() as u8] + body + rest;
    let n = body.len() as int;
    assert(s[0] == t && s[1] == body.len());
    assert(first_tag(s) == Some(((t % 32) as u32, 1int)));
    assert(s.subrange(2, 2 + n) =~= body);
    assert(s.skip(2 + n) =~= rest);
}

/// A value whose length is written in bytes of its own is read back.
pub proof fn law_long_value_is_read(t: u8, size: Seq<u8>, body: Seq<u8>, rest: Seq<u8>)
    requires
        t % 32 != 31,
        1 <= size.len() <= 126,
        big_endian(size) == body.len(),
    ensures
        first_value(seq![t, (128 + size.len()) as u8] + size + body + rest) == Some(
            Element { tag: (t % 32) as u32, compound: t / 32 % 2 == 1, body, rest },
        ),
{
    let s = seq![t, (128 + size.len()) as u8] + size + body + rest;
    let k = size.len() as int;
    let n = body.len() as int;
    assert(s[0] == t && s[1] == 128 + k);
    assert(first_tag(s) == Some(((t % 32) as u32, 1int)));
    assert(s.subrange(2, 2 + k) =~= size);
    assert(s.subrange(2 + k, 2 + k + n) =~= body);
    assert(s.skip(2 + k + n) =~= rest);
}

/// A tag in one or two bytes of its own is read back, seven bits of each.
pub proof fn law_long_tag_is_read(t: u8, b: u8, c: u8, body: Seq<u8>, rest: Seq<u8>)
    requires
        t % 32 == 31,
        b < 128,
        c >= 128,
        body.len() < 128,
    ensures
        first_value(seq![t, b, body.len() as u8] + body + rest) == Some(
            Element { tag: b as u32, compound: t / 32 % 2 == 1, body, rest },
        ),
        first_value(seq![t, c, b, body.len() as u8] + body + rest) == Some(
            Element {
                tag: ((c - 128) * 128 + b) as u32,
                compound: t / 32 % 2 == 1,
                body,
                rest,
            },
        ),
{
    let n = body.len() as int;
    let s = seq![t, b, body.len() as u8] + body + rest;
    assert(s[0] == t && s[1] == b && s[2] == body.len());
    assert(long_tag(s, 1, 0) == Some((b as u32, 2int)));
    assert(s.subrange(3, 3 + n) =~= body);
    assert(s.skip(3 + n) =~= rest);
    let u = seq![t, c, b, body.len() as u8] + body + rest;
    assert(u[0] == t && u[1] == c && u[2] == b && u[3] == body.len());
    let high = (c - 128) as u32;
    assert(long_tag(u, 1, 0) == long_tag(u, 2, high));
    assert(long_tag(u, 2, high) == Some((((c - 128) * 128 + b) as u32, 3int)));
    assert(u.subrange(4, 4 + n) =~= body);
    assert(u.skip(4 + n) =~= rest);
}

/// A value that breaks off is not read, nor is one whose length is not known beforehand.
pub proof fn law_broken_value_is_not_read(t: u8, size: u8, body: Seq<u8>, rest: Seq<u8>)
    requires
        t % 32 != 31,
        size < 128,
        body.len() < size,
    ensures
        first_value(seq![t, size] + body) is None,
        first_value(seq![t, 128u8] + rest) is None,
        first_value(seq![t, 255u8] + rest) is None,
        first_value(seq![t]) is None,
        first_value(Seq::empty()) is None,
{
    let s = seq![t, size] + body;
    assert(s[0] == t && s[1] == size);
    assert(first_tag(s) == Some(((t % 32) as u32, 1int)));
    let a = seq![t, 128u8] + rest;
    assert(a[0] == t && a[1] == 128u8);
    let b = seq![t, 255u8] + rest;
    assert(b[0] == t && b[1] == 255u8);
}

/// The bytes are those of one value with this tag, simple or made of others, and these contents:
/// they are read so, whatever follows them.
pub open spec fn value_of(x: Seq<u8>, tag: u32, compound: bool, body: Seq<u8>) -> bool {
    forall|rest: Seq<u8>| #[trigger]
        first_value(x + rest) == Some(Element { tag, compound, body, rest })
}

proof fn lemma_value_alone(x: Seq<u8>, tag: u32, compound: bool, body: Seq<u8>)
    requires
        value_of(x, tag, compound, body),
    ensures
        x.len() > 0,
        first_value(x) == Some(Element { tag, compound, body, rest: Seq::empty() }),
{
    let none = Seq::<u8>::empty();
    assert(x + none =~= x);
    assert(first_value(x + none) is Some);
}

/// The owner's name is found where a certificate has it: behind the version, if there is one, the
/// number, how the certificate is signed, the issuer's name and the dates.
pub proof fn law_subject_is_found(
    cert: Seq<u8>,
    whole: Seq<u8>,
    version: Seq<u8>,
    number: Seq<u8>,
    signing: Seq<u8>,
    issuer: Seq<u8>,
    dates: Seq<u8>,
    owner: Seq<u8>,
    name: Seq<u8>,
    more: Seq<u8>,
    signature: Seq<u8>,
    tags: Seq<u32>,
    bodies: Seq<Seq<u8>>,
)
    requires
        tags.len() == 5 && bodies.len() == 5,
        value_of(version, 0, true, bodies[0]),
        tags[1] != 0,
        value_of(number, tags[1], false, bodies[1]),
        value_of(signing, tags[2], true, bodies[2]),
        value_of(issuer, tags[3], true, bodies[3]),
        value_of(dates, tags[4], true, bodies[4]),
        value_of(owner, 16, true, name),
        value_of(
            whole,
            16,
            true,
            version + (number + (signing + (issuer + (dates + (owner + more))))),
        ) || value_of(whole, 16, true, number + (signing + (issuer + (dates + (owner + more))))),
        value_of(cert, 16, true, whole + signature),
    ensures
        subject_of(cert) == Some(name),
        subject_fits(cert) <==> parts_fit(name),
{
    lemma_value_alone(cert, 16, true, whole + signature);
    lemma_value_alone(number, tags[1], false, bodies[1]);
    let e = owner + more;
    let d = dates + e;
    let c = issuer + d;
    let b = signing + c;
    let a = number + b;
    assert(first_value(version + a) is Some);
    assert(first_value(whole + signature) is Some);
    assert(first_value(a)->0.rest == b);
    assert(first_value(b)->0.rest == c);
    assert(first_value(c)->0.rest == d);
    assert(first_value(d)->0.rest == e);
    assert(first_value(e)->0.body == name);
    reveal_with_fuel(behind_values, 5);
    assert(behind_values(a, 4) == Some(e));
}

/// An attribute can be written if its object identifier has two numbers, the first below three, and
/// its text is not a printable string with a question mark in it. A list of attributes can be
/// written if each can.
pub proof fn law_attributes_one_by_one(
    attribute: Seq<u8>,
    object: Seq<u8>,
    number: Seq<u8>,
    text: Seq<u8>,
    letters: Seq<u8>,
    more: Seq<u8>,
    object_tag: u32,
    tag: u32,
    shape: bool,
    rest: Seq<u8>,
)
    requires
        value_of(object, object_tag, false, number),
        value_of(text, tag, shape, letters),
        value_of(attribute, 16, true, object + (text + more)),
    ensures
        attributes_fit(attribute + rest) <==> attributes_fit(rest) && number.len() >= 1 && number[0]
            < 120 && !(number.len() == 1 && number[0] == 0) && (tag == 19 ==> !letters.contains(
            0x3fu8,
        )),
        attributes_fit(Seq::empty()),
{
    let s = attribute + rest;
    lemma_value_alone(attribute, 16, true, object + (text + more));
    assert(first_value(s) is Some);
    assert(first_value(object + (text + more)) is Some);
    assert(first_value(text + more) is Some);
    assert(first_attribute(s) == Some(
        Attribute { object: number, tag, text: letters, rest },
    ));
}

/// A name can be written if the attributes of each of its parts can.
pub proof fn law_parts_one_by_one(
    part: Seq<u8>,
    attributes: Seq<u8>,
    shape: bool,
    rest: Seq<u8>,
)
    requires
        value_of(part, 17, shape, attributes),
        first_attribute(attributes) is Some,
    ensures
        parts_fit(part + rest) <==> attributes_fit(attributes) && parts_fit(rest),
        parts_fit(Seq::empty()),
{
    let s = part + rest;
    lemma_value_alone(part, 17, shape, attributes);
    assert(first_value(s) is Some);
}

/// An attribute that is no sequence, or whose object identifier is made of other values, is not
/// read, and nothing behind it is looked at; nor is a part of a name that is no set, or that begins
/// with no attribute.
pub proof fn law_unread_parts(
    attribute: Seq<u8>,
    tag: u32,
    shape: bool,
    object: Seq<u8>,
    object_tag: u32,
    number: Seq<u8>,
    text: Seq<u8>,
    rest: Seq<u8>,
)
    requires
        value_of(object, object_tag, true, number),
        value_of(attribute, tag, shape, object + text),
    ensures
        attributes_fit(attribute + rest),
        tag != 17 ==> parts_fit(attribute + rest),
        tag == 17 && first_attribute(object + text) is None ==> parts_fit(attribute + rest),
{
    let s = attribute + rest;
    assert(first_value(s) is Some);
    assert(first_value(object + text) is Some);
    assert(first_attribute(s) is None);
}

/// What is not a sequence where a certificate has one holds no owner's name that can be written.
pub proof fn law_no_subject(cert: Seq<u8>, tag: u32, shape: bool, body: Seq<u8>, rest: Seq<u8>)
    requires
        value_of(cert, tag, shape, body),
    ensures
        tag != 16 ==> !subject_fits(cert + rest),
        tag == 16 && first_value(body) is None ==> !subject_fits(cert + rest),
        !subject_fits(Seq::empty()),
{
    assert(first_value(cert + rest) is Some);
}

/// Of a tag in bytes of its own, five are read at most.
pub proof fn law_endless_tag_is_not_read(t: u8, b: Seq<u8>, rest: Seq<u8>)
    requires
        t % 32 == 31,
        b.len() == 5,
        forall|i: int| 0 <= i < 5 ==> #[trigger] b[i] >= 128,
    ensures
        first_value(seq![t] + b + rest) is None,
{
    let s = seq![t] + b + rest;
    assert(s[0] == t);
    assert(s[1] == b[0] && s[2] == b[1] && s[3] == b[2] && s[4] == b[3] && s[5] == b[4]);
    reveal_with_fuel(long_tag, 6);
    assert(long_tag(s, 1, 0) is None);
}

} // verus!
