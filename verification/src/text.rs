//! Text as sequences of characters: searching, replacing, splitting and numbers.

use vstd::prelude::*;

verus! {

/// `String::push` appends one character.
pub assume_specification[ String::push ](s: &mut String, c: char)
    ensures
        final(s)@ == old(s)@.push(c),
;

/// `String::push_str` appends a string slice.
pub assume_specification[ String::push_str ](s: &mut String, other: &str)
    ensures
        final(s)@ == old(s)@ + other@,
;

// ---------------------------------------------------------------- model

/// `p` stands in `s` at position `i`.
pub open spec fn occurs_at(s: Seq<char>, p: Seq<char>, i: int) -> bool {
    &&& 0 <= i
    &&& i + p.len() <= s.len()
    &&& s.subrange(i, i + p.len()) == p
}

/// `p` stands in `s` at `i` and nowhere before it.
pub open spec fn first_at(s: Seq<char>, p: Seq<char>, i: int) -> bool {
    &&& occurs_at(s, p, i)
    &&& forall|j: int| 0 <= j < i ==> !#[trigger] occurs_at(s, p, j)
}

/// `p` is a substring of `s`.
pub open spec fn has_text(s: Seq<char>, p: Seq<char>) -> bool {
    exists|i: int| #[trigger] occurs_at(s, p, i)
}

/// Where `p` first stands in `s`, for an `s` that contains it.
pub open spec fn first_index(s: Seq<char>, p: Seq<char>) -> int {
    choose|i: int| first_at(s, p, i)
}

/// `s` with the first `p` in it replaced by `r`.
pub open spec fn replaced_first(s: Seq<char>, p: Seq<char>, r: Seq<char>) -> Seq<char> {
    if has_text(s, p) {
        let i = first_index(s, p);
        s.take(i) + r + s.skip(i + p.len())
    } else {
        s
    }
}

/// `s` with `r` before each character and at the end.
pub open spec fn interleaved(s: Seq<char>, r: Seq<char>) -> Seq<char>
    decreases s.len(),
{
    if s.len() == 0 {
        r
    } else {
        r.push(s[0]) + interleaved(s.skip(1), r)
    }
}

/// `s` with every `p` replaced by `r`, from left to right and without overlap.
/// An empty `p` stands before each character and at the end.
pub open spec fn replaced_all(s: Seq<char>, p: Seq<char>, r: Seq<char>) -> Seq<char>
    decreases s.len(),
{
    if p.len() == 0 {
        interleaved(s, r)
    } else if has_text(s, p) && 0 <= first_index(s, p) <= s.len() - p.len() {
        let i = first_index(s, p);
        s.take(i) + r + replaced_all(s.skip(i + p.len()), p, r)
    } else {
        s
    }
}

/// An ASCII capital letter as its small letter, any other character as it is.
pub open spec fn ascii_lower(c: char) -> char {
    if 'A' <= c <= 'Z' {
        ((c as u8) + 32) as u8 as char
    } else {
        c
    }
}

/// Equality up to ASCII case.
pub open spec fn same_ascii(a: Seq<char>, b: Seq<char>) -> bool {
    a.map_values(|c: char| ascii_lower(c)) == b.map_values(|c: char| ascii_lower(c))
}

/// The part of `s` before the first `c`, or all of `s`.
pub open spec fn before_first(s: Seq<char>, c: char) -> Seq<char> {
    match s.index_of_first(c) {
        Some(i) => s.take(i),
        None => s,
    }
}

/// The part of `s` after the last `c`, or all of `s`.
pub open spec fn after_last(s: Seq<char>, c: char) -> Seq<char> {
    match s.index_of_last(c) {
        Some(i) => s.skip(i + 1),
        None => s,
    }
}

/// The parts of `s` on both sides of its first `c`.
pub open spec fn split_at_first(s: Seq<char>, c: char) -> Option<(Seq<char>, Seq<char>)> {
    match s.index_of_first(c) {
        Some(i) => Some((s.take(i), s.skip(i + 1))),
        None => None,
    }
}

/// The parts of `s` on both sides of its last `c`.
pub open spec fn split_at_last(s: Seq<char>, c: char) -> Option<(Seq<char>, Seq<char>)> {
    match s.index_of_last(c) {
        Some(i) => Some((s.take(i), s.skip(i + 1))),
        None => None,
    }
}

/// What is left of `s` behind the prefix `p`.
pub open spec fn stripped(s: Seq<char>, p: Seq<char>) -> Option<Seq<char>> {
    if p.is_prefix_of(s) {
        Some(s.skip(p.len() as int))
    } else {
        None
    }
}

/// The order of strings, character by character; a prefix comes first.
pub open spec fn text_less(a: Seq<char>, b: Seq<char>) -> bool
    decreases a.len(),
{
    if b.len() == 0 {
        false
    } else if a.len() == 0 {
        true
    } else if a[0] == b[0] {
        text_less(a.skip(1), b.skip(1))
    } else {
        a[0] < b[0]
    }
}

/// The digit of a number below ten.
pub open spec fn digit(d: nat) -> char {
    (('0' as u8) + d) as u8 as char
}

/// `n` in decimal.
pub open spec fn decimal(n: nat) -> Seq<char>
    decreases n,
{
    if n < 10 {
        seq![digit(n)]
    } else {
        decimal(n / 10).push(digit(n % 10))
    }
}

/// `n` in decimal, with zeros in front up to `width` characters.
pub open spec fn padded(n: nat, width: nat) -> Seq<char> {
    if decimal(n).len() < width {
        Seq::new((width - decimal(n).len()) as nat, |i: int| '0') + decimal(n)
    } else {
        decimal(n)
    }
}

/// The characters `0` to `9`.
pub open spec fn is_digit(c: char) -> bool {
    '0' <= c <= '9'
}

/// The number that a run of digits writes.
pub open spec fn number_of(s: Seq<char>) -> nat
    decreases s.len(),
{
    if s.len() == 0 {
        0
    } else {
        number_of(s.drop_last()) * 10 + (s.last() as u8 - '0' as u8) as nat
    }
}

/// The sixteen-bit number that a run of digits writes.
pub open spec fn digits_u16(d: Seq<char>) -> Option<u16> {
    if d.len() > 0 && (forall|i: int| 0 <= i < d.len() ==> is_digit(#[trigger] d[i])) && number_of(d)
        <= 65535 {
        Some(number_of(d) as u16)
    } else {
        None
    }
}

/// The sixteen-bit number that `s` writes: digits, with or without a `+` in front.
pub open spec fn parsed_u16(s: Seq<char>) -> Option<u16> {
    if s.len() > 0 && s[0] == '+' {
        digits_u16(s.skip(1))
    } else {
        digits_u16(s)
    }
}

// ---------------------------------------------------------------- lemmas

/// A substring has a first place.
pub proof fn lemma_first_exists(s: Seq<char>, p: Seq<char>)
    requires
        has_text(s, p),
    ensures
        first_at(s, p, first_index(s, p)),
        0 <= first_index(s, p) <= s.len() - p.len(),
{
    let w = choose|i: int| #[trigger] occurs_at(s, p, i);
    lemma_first_below(s, p, w);
}

proof fn lemma_first_below(s: Seq<char>, p: Seq<char>, w: int)
    requires
        occurs_at(s, p, w),
    ensures
        exists|i: int| first_at(s, p, i),
    decreases w,
{
    if exists|j: int| 0 <= j < w && #[trigger] occurs_at(s, p, j) {
        let j = choose|j: int| 0 <= j < w && #[trigger] occurs_at(s, p, j);
        lemma_first_below(s, p, j);
    } else {
        assert(first_at(s, p, w));
    }
}

/// There is one first place only.
pub proof fn lemma_first_unique(s: Seq<char>, p: Seq<char>, i: int)
    requires
        first_at(s, p, i),
    ensures
        has_text(s, p),
        first_index(s, p) == i,
{
    lemma_first_exists(s, p);
    let k = first_index(s, p);
    if k < i {
        assert(!occurs_at(s, p, k));
    }
    if i < k {
        assert(!occurs_at(s, p, i));
    }
}

/// The order of strings is total, and no string comes before itself.
pub proof fn lemma_text_less_total(a: Seq<char>, b: Seq<char>)
    ensures
        !(text_less(a, b) && text_less(b, a)),
        text_less(a, b) || text_less(b, a) || a == b,
        a == b ==> !text_less(a, b),
    decreases a.len(),
{
    if a.len() > 0 && b.len() > 0 {
        lemma_text_less_total(a.skip(1), b.skip(1));
        if a[0] == b[0] && a.skip(1) == b.skip(1) {
            assert(a =~= seq![a[0]] + a.skip(1));
            assert(b =~= seq![b[0]] + b.skip(1));
        }
    } else if a.len() == 0 && b.len() == 0 {
        assert(a =~= b);
    }
}

/// The order of strings is transitive.
pub proof fn lemma_text_less_trans(a: Seq<char>, b: Seq<char>, c: Seq<char>)
    requires
        text_less(a, b),
        text_less(b, c),
    ensures
        text_less(a, c),
    decreases a.len(),
{
    if a.len() > 0 && a[0] == b[0] && b[0] == c[0] {
        lemma_text_less_trans(a.skip(1), b.skip(1), c.skip(1));
    }
}

proof fn lemma_number_grows(s: Seq<char>, i: int)
    requires
        0 <= i <= s.len(),
    ensures
        number_of(s.take(i)) <= number_of(s),
    decreases s.len() - i,
{
    if i < s.len() {
        lemma_number_grows(s, i + 1);
        assert(s.take(i + 1).drop_last() =~= s.take(i));
    } else {
        assert(s.take(i) =~= s);
    }
}

// ---------------------------------------------------------------- functions

/// The characters of a string.
pub fn chars_of(s: &str) -> (r: Vec<char>)
    ensures
        r@ == s@,
{
    let mut v: Vec<char> = Vec::new();
    for c in it: s.chars()
        invariant
            v@ == it.seq().take(it.index()),
            it.seq() == s@,
    {
        v.push(c);
    }
    v
}

/// The string of a run of characters.
pub fn string_of(v: &Vec<char>, from: usize, to: usize) -> (r: String)
    requires
        from <= to <= v@.len(),
    ensures
        r@ == v@.subrange(from as int, to as int),
{
    let mut s = String::new();
    let mut i: usize = from;
    while i < to
        invariant
            from <= i <= to <= v@.len(),
            s@ == v@.subrange(from as int, i as int),
        decreases to - i,
    {
        s.push(v[i]);
        i += 1;
    }
    s
}

/// Whether two strings hold the same characters.
pub fn same(a: &str, b: &str) -> (r: bool)
    ensures
        r == (a@ == b@),
{
    let x = chars_of(a);
    let y = chars_of(b);
    same_chars(&x, &y)
}

fn same_chars(x: &Vec<char>, y: &Vec<char>) -> (r: bool)
    ensures
        r == (x@ == y@),
{
    if x.len() != y.len() {
        return false;
    }
    let mut i: usize = 0;
    while i < x.len()
        invariant
            i <= x@.len(),
            x@.len() == y@.len(),
            forall|k: int| 0 <= k < i ==> x@[k] == y@[k],
        decreases x@.len() - i,
    {
        if x[i] != y[i] {
            assert(x@[i as int] != y@[i as int]);
            return false;
        }
        i += 1;
    }
    assert(x@ =~= y@);
    true
}

fn lower(c: char) -> (r: char)
    ensures
        r == ascii_lower(c),
{
    if 'A' <= c && c <= 'Z' {
        (c as u8 + 32) as char
    } else {
        c
    }
}

/// Equality up to ASCII case.
pub fn eq_ignore_ascii_case(a: &str, b: &str) -> (r: bool)
    ensures
        r == same_ascii(a@, b@),
{
    let x = chars_of(a);
    let y = chars_of(b);
    let ghost lx = x@.map_values(|c: char| ascii_lower(c));
    let ghost ly = y@.map_values(|c: char| ascii_lower(c));
    if x.len() != y.len() {
        assert(lx.len() != ly.len());
        return false;
    }
    let mut i: usize = 0;
    while i < x.len()
        invariant
            i <= x@.len(),
            x@ == a@,
            y@ == b@,
            x@.len() == y@.len(),
            lx == x@.map_values(|c: char| ascii_lower(c)),
            ly == y@.map_values(|c: char| ascii_lower(c)),
            forall|k: int| 0 <= k < i ==> lx[k] == ly[k],
        decreases x@.len() - i,
    {
        if lower(x[i]) != lower(y[i]) {
            assert(lx[i as int] != ly[i as int]);
            return false;
        }
        i += 1;
    }
    assert(lx =~= ly);
    true
}

fn matches_at(s: &Vec<char>, p: &Vec<char>, i: usize) -> (r: bool)
    requires
        i + p.len() <= s.len(),
    ensures
        r == occurs_at(s@, p@, i as int),
{
    let ghost sub = s@.subrange(i as int, i + p@.len());
    let mut k: usize = 0;
    while k < p.len()
        invariant
            k <= p@.len(),
            i + p.len() <= s.len(),
            sub == s@.subrange(i as int, i + p@.len()),
            forall|j: int| 0 <= j < k ==> sub[j] == p@[j],
        decreases p@.len() - k,
    {
        if s[i + k] != p[k] {
            assert(sub[k as int] != p@[k as int]);
            return false;
        }
        k += 1;
    }
    assert(sub =~= p@);
    true
}

/// Where `p` first stands in `s`, at `from` or behind it.
fn find_from(s: &Vec<char>, p: &Vec<char>, from: usize) -> (r: Option<usize>)
    requires
        from <= s@.len(),
    ensures
        match r {
            Some(i) => from <= i && first_at(s@.skip(from as int), p@, i - from) && i + p.len()
                <= s.len(),
            None => !has_text(s@.skip(from as int), p@),
        },
{
    let ghost tail = s@.skip(from as int);
    let mut i: usize = from;
    while i <= s.len() && p.len() <= s.len() - i
        invariant
            from <= i <= s@.len() + 1,
            from <= s@.len(),
            tail == s@.skip(from as int),
            forall|j: int| 0 <= j < i - from ==> !#[trigger] occurs_at(tail, p@, j),
        decreases s@.len() + 1 - i,
    {
        if matches_at(s, p, i) {
            assert(tail.subrange(i - from, i - from + p@.len()) =~= s@.subrange(
                i as int,
                i + p@.len(),
            ));
            return Some(i);
        }
        assert(!occurs_at(tail, p@, i - from)) by {
            assert(tail.subrange(i - from, i - from + p@.len()) =~= s@.subrange(
                i as int,
                i + p@.len(),
            ));
        }
        if i == s.len() {
            return None;
        }
        i += 1;
    }
    None
}

/// Whether `p` is a substring of `s`.
pub fn contains(s: &str, p: &str) -> (r: bool)
    ensures
        r == has_text(s@, p@),
{
    let sv = chars_of(s);
    let pv = chars_of(p);
    assert(sv@.skip(0) =~= s@);
    match find_from(&sv, &pv, 0) {
        Some(i) => {
            assert(occurs_at(s@, p@, i as int));
            true
        },
        None => false,
    }
}

/// `s` with the first `p` in it replaced by `r`.
pub fn replace_first(s: &str, p: &str, r: &str) -> (out: String)
    ensures
        out@ == replaced_first(s@, p@, r@),
{
    let sv = chars_of(s);
    let pv = chars_of(p);
    assert(sv@.skip(0) =~= s@);
    match find_from(&sv, &pv, 0) {
        Some(i) => {
            proof {
                lemma_first_unique(s@, p@, i as int);
            }
            let mut out = string_of(&sv, 0, i);
            out.push_str(r);
            let tail = string_of(&sv, i + pv.len(), sv.len());
            out.push_str(tail.as_str());
            assert(s@.skip(i + p@.len()) =~= s@.subrange(i + p@.len(), s@.len() as int));
            assert(s@.take(i as int) =~= s@.subrange(0, i as int));
            out
        },
        None => string_of(&sv, 0, sv.len()),
    }
}

proof fn lemma_interleaved_step(s: Seq<char>, r: Seq<char>, i: int)
    requires
        0 <= i < s.len(),
    ensures
        interleaved(s.skip(i), r) == r.push(s[i]) + interleaved(s.skip(i + 1), r),
{
    assert(s.skip(i).skip(1) =~= s.skip(i + 1));
}

fn interleave(s: &Vec<char>, r: &str) -> (out: String)
    ensures
        out@ == interleaved(s@, r@),
{
    let mut out = String::new();
    let mut i: usize = 0;
    assert(s@.skip(0) =~= s@);
    while i < s.len()
        invariant
            i <= s@.len(),
            interleaved(s@, r@) == out@ + interleaved(s@.skip(i as int), r@),
        decreases s@.len() - i,
    {
        proof {
            lemma_interleaved_step(s@, r@, i as int);
        }
        let ghost before = out@;
        out.push_str(r);
        out.push(s[i]);
        assert(out@ =~= before + r@.push(s@[i as int]));
        assert(before + (r@.push(s@[i as int]) + interleaved(s@.skip(i + 1), r@)) =~= out@
            + interleaved(s@.skip(i + 1), r@));
        i += 1;
    }
    assert(s@.skip(i as int) =~= Seq::<char>::empty());
    out.push_str(r);
    out
}

/// `s` with every `p` replaced by `r`, from left to right and without overlap.
pub fn replace_all(s: &str, p: &str, r: &str) -> (out: String)
    ensures
        out@ == replaced_all(s@, p@, r@),
{
    let sv = chars_of(s);
    let pv = chars_of(p);
    if pv.len() == 0 {
        return interleave(&sv, r);
    }
    let mut out = String::new();
    let mut from: usize = 0;
    assert(sv@.skip(0) =~= s@);
    loop
        invariant
            from <= sv@.len(),
            sv@ == s@,
            pv@ == p@,
            p@.len() > 0,
            replaced_all(s@, p@, r@) == out@ + replaced_all(s@.skip(from as int), p@, r@),
        decreases sv@.len() - from,
    {
        let ghost tail = s@.skip(from as int);
        match find_from(&sv, &pv, from) {
            Some(i) => {
                proof {
                    lemma_first_unique(tail, p@, i - from);
                }
                let ghost before = out@;
                let head = string_of(&sv, from, i);
                out.push_str(head.as_str());
                out.push_str(r);
                assert(tail.take(i - from) =~= head@);
                assert(tail.skip(i - from + p@.len()) =~= s@.skip(i + p@.len()));
                assert(before + (head@ + r@ + replaced_all(s@.skip(i + p@.len()), p@, r@)) =~= out@
                    + replaced_all(s@.skip(i + p@.len()), p@, r@));
                from = i + pv.len();
            },
            None => {
                let rest = string_of(&sv, from, sv.len());
                assert(rest@ =~= tail);
                out.push_str(rest.as_str());
                return out;
            },
        }
    }
}

/// The string without the prefix `p`, if it has that prefix.
pub fn strip_prefix(s: &str, p: &str) -> (r: Option<String>)
    ensures
        match r {
            Some(t) => stripped(s@, p@) == Some(t@),
            None => stripped(s@, p@) is None,
        },
{
    let sv = chars_of(s);
    let pv = chars_of(p);
    if pv.len() <= sv.len() && matches_at(&sv, &pv, 0) {
        assert(s@.skip(p@.len() as int) =~= s@.subrange(p@.len() as int, s@.len() as int));
        Some(string_of(&sv, pv.len(), sv.len()))
    } else {
        assert(p@.len() <= s@.len() && p@.is_prefix_of(s@) ==> s@.subrange(0, p@.len() as int)
            =~= p@);
        None
    }
}

fn first_char(v: &Vec<char>, c: char) -> (r: Option<usize>)
    ensures
        match r {
            Some(i) => v@.index_of_first(c) == Some(i as int) && i < v.len(),
            None => v@.index_of_first(c) is None,
        },
{
    let mut i: usize = 0;
    while i < v.len()
        invariant
            i <= v@.len(),
            forall|k: int| 0 <= k < i ==> v@[k] != c,
        decreases v@.len() - i,
    {
        if v[i] == c {
            proof {
                v@.index_of_first_ensures(c);
                assert(v@.contains(v@[i as int]));
            }
            return Some(i);
        }
        i += 1;
    }
    proof {
        v@.index_of_first_ensures(c);
    }
    None
}

fn last_char(v: &Vec<char>, c: char) -> (r: Option<usize>)
    ensures
        match r {
            Some(i) => v@.index_of_last(c) == Some(i as int) && i < v.len(),
            None => v@.index_of_last(c) is None,
        },
{
    let mut i: usize = v.len();
    while i > 0
        invariant
            i <= v@.len(),
            forall|k: int| i <= k < v@.len() ==> v@[k] != c,
        decreases i,
    {
        i -= 1;
        if v[i] == c {
            proof {
                v@.index_of_last_ensures(c);
                assert(v@.contains(v@[i as int]));
            }
            return Some(i);
        }
    }
    proof {
        v@.index_of_last_ensures(c);
    }
    None
}

/// The parts of `s` on both sides of its first `c`.
pub fn split_once(s: &str, c: char) -> (r: Option<(String, String)>)
    ensures
        match r {
            Some((a, b)) => split_at_first(s@, c) == Some((a@, b@)),
            None => split_at_first(s@, c) is None,
        },
{
    let v = chars_of(s);
    match first_char(&v, c) {
        Some(i) => {
            assert(s@.take(i as int) =~= s@.subrange(0, i as int));
            assert(s@.skip(i + 1) =~= s@.subrange(i + 1, s@.len() as int));
            Some((string_of(&v, 0, i), string_of(&v, i + 1, v.len())))
        },
        None => None,
    }
}

/// The parts of `s` on both sides of its last `c`.
pub fn rsplit_once(s: &str, c: char) -> (r: Option<(String, String)>)
    ensures
        match r {
            Some((a, b)) => split_at_last(s@, c) == Some((a@, b@)),
            None => split_at_last(s@, c) is None,
        },
{
    let v = chars_of(s);
    match last_char(&v, c) {
        Some(i) => {
            assert(s@.take(i as int) =~= s@.subrange(0, i as int));
            assert(s@.skip(i + 1) =~= s@.subrange(i + 1, s@.len() as int));
            Some((string_of(&v, 0, i), string_of(&v, i + 1, v.len())))
        },
        None => None,
    }
}

/// The part of `s` before its first `c`.
pub fn before(s: &str, c: char) -> (r: String)
    ensures
        r@ == before_first(s@, c),
{
    let v = chars_of(s);
    match first_char(&v, c) {
        Some(i) => {
            assert(s@.take(i as int) =~= s@.subrange(0, i as int));
            string_of(&v, 0, i)
        },
        None => string_of(&v, 0, v.len()),
    }
}

/// The part of `s` behind its last `c`.
pub fn behind_last(s: &str, c: char) -> (r: String)
    ensures
        r@ == after_last(s@, c),
{
    let v = chars_of(s);
    match last_char(&v, c) {
        Some(i) => {
            assert(s@.skip(i + 1) =~= s@.subrange(i + 1, s@.len() as int));
            string_of(&v, i + 1, v.len())
        },
        None => string_of(&v, 0, v.len()),
    }
}

/// Whether `a` comes before `b`.
pub fn less(a: &str, b: &str) -> (r: bool)
    ensures
        r == text_less(a@, b@),
{
    let x = chars_of(a);
    let y = chars_of(b);
    let mut i: usize = 0;
    assert(x@.skip(0) =~= x@);
    assert(y@.skip(0) =~= y@);
    loop
        invariant
            i <= x@.len(),
            i <= y@.len(),
            x@ == a@,
            y@ == b@,
            text_less(a@, b@) == text_less(x@.skip(i as int), y@.skip(i as int)),
        decreases x@.len() - i,
    {
        if i == y.len() {
            return false;
        }
        if i == x.len() {
            return true;
        }
        if x[i] != y[i] {
            return x[i] < y[i];
        }
        assert(x@.skip(i as int).skip(1) =~= x@.skip(i + 1));
        assert(y@.skip(i as int).skip(1) =~= y@.skip(i + 1));
        i += 1;
    }
}

fn digit_char(d: u64) -> (c: char)
    requires
        d < 10,
    ensures
        c == digit(d as nat),
{
    (48 + d as u8) as char
}

/// `n` in decimal.
pub fn decimal_text(n: u64) -> (r: String)
    ensures
        r@ == decimal(n as nat),
    decreases n,
{
    if n < 10 {
        let mut s = String::new();
        s.push(digit_char(n));
        assert(s@ =~= seq![digit(n as nat)]);
        s
    } else {
        let mut s = decimal_text(n / 10);
        s.push(digit_char(n % 10));
        s
    }
}

/// `n` in decimal, with zeros in front up to `width` characters.
pub fn padded_text(n: u64, width: usize) -> (r: String)
    ensures
        r@ == padded(n as nat, width as nat),
{
    let d = decimal_text(n);
    let len: usize = chars_of(d.as_str()).len();
    if len >= width {
        return d;
    }
    let mut s = String::new();
    let mut i: usize = 0;
    while i < width - len
        invariant
            len < width,
            i <= width - len,
            s@ == Seq::new(i as nat, |k: int| '0'),
        decreases width - len - i,
    {
        s.push('0');
        i += 1;
        assert(s@ =~= Seq::new(i as nat, |k: int| '0'));
    }
    s.push_str(d.as_str());
    s
}

/// The sixteen-bit number that `s` writes.
pub fn parse_u16(s: &str) -> (r: Option<u16>)
    ensures
        r == parsed_u16(s@),
{
    let v = chars_of(s);
    let start: usize = if v.len() > 0 && v[0] == '+' {
        1
    } else {
        0
    };
    let ghost d = s@.skip(start as int);
    assert(start == 0 ==> d =~= s@);
    if start == v.len() {
        return None;
    }
    let mut acc: u32 = 0;
    let mut i: usize = start;
    while i < v.len()
        invariant
            start <= i <= v@.len(),
            v@ == s@,
            d == s@.skip(start as int),
            parsed_u16(s@) == digits_u16(d),
            acc <= 65535,
            acc == number_of(d.take(i - start)),
            forall|k: int| 0 <= k < i - start ==> is_digit(#[trigger] d[k]),
        decreases v@.len() - i,
    {
        let c: char = v[i];
        assert(d[i - start] == c);
        if c < '0' || c > '9' {
            assert(!is_digit(d[i - start]));
            return None;
        }
        assert(d.take(i - start + 1).drop_last() =~= d.take(i - start));
        acc = acc * 10 + (c as u8 - 48) as u32;
        assert(acc == number_of(d.take(i - start + 1)));
        if acc > 65535 {
            proof {
                lemma_number_grows(d, i - start + 1);
            }
            return None;
        }
        i += 1;
    }
    assert(d.take(i - start) =~= d);
    Some(acc as u16)
}

// ---------------------------------------------------------------- laws

/// A text contains what stands in it between a front and a back, and nothing else.
pub proof fn law_has_text(a: Seq<char>, p: Seq<char>, b: Seq<char>, s: Seq<char>)
    ensures
        has_text(a + p + b, p),
        has_text(s, p) ==> exists|x: Seq<char>, y: Seq<char>| s == #[trigger] (x + p + y),
{
    let t = a + p + b;
    assert(t.subrange(a.len() as int, (a.len() + p.len()) as int) =~= p);
    assert(occurs_at(t, p, a.len() as int));
    if has_text(s, p) {
        let i = choose|i: int| #[trigger] occurs_at(s, p, i);
        assert(s =~= s.take(i) + s.subrange(i, i + p.len()) + s.skip(i + p.len()));
    }
}

/// Replacing once puts the new text where the old one first stood and leaves the rest.
pub proof fn law_replaced_first(a: Seq<char>, p: Seq<char>, b: Seq<char>, r: Seq<char>)
    requires
        forall|x: Seq<char>, y: Seq<char>|
            a + p + b == #[trigger] (x + p + y) ==> a.len() <= x.len(),
    ensures
        replaced_first(a + p + b, p, r) == a + r + b,
{
    let s = a + p + b;
    lemma_first_in_parts(a, p, b);
    lemma_first_unique(s, p, a.len() as int);
    assert(s.take(a.len() as int) =~= a);
    assert(s.skip((a.len() + p.len()) as int) =~= b);
}

proof fn lemma_first_in_parts(a: Seq<char>, p: Seq<char>, b: Seq<char>)
    requires
        forall|x: Seq<char>, y: Seq<char>|
            a + p + b == #[trigger] (x + p + y) ==> a.len() <= x.len(),
    ensures
        first_at(a + p + b, p, a.len() as int),
{
    let s = a + p + b;
    assert(s.subrange(a.len() as int, (a.len() + p.len()) as int) =~= p);
    assert(occurs_at(s, p, a.len() as int));
    assert forall|j: int| 0 <= j < a.len() implies !#[trigger] occurs_at(s, p, j) by {
        if occurs_at(s, p, j) {
            let x = s.take(j);
            let y = s.skip(j + p.len());
            assert(s =~= x + s.subrange(j, j + p.len()) + y);
            assert(s == x + p + y);
        }
    }
}

/// Replacing what does not occur changes nothing.
pub proof fn law_nothing_to_replace(s: Seq<char>, p: Seq<char>, r: Seq<char>)
    requires
        forall|x: Seq<char>, y: Seq<char>| s != #[trigger] (x + p + y),
    ensures
        replaced_first(s, p, r) == s,
        replaced_all(s, p, r) == s,
{
    if has_text(s, p) {
        law_has_text(s, p, s, s);
    }
    if p.len() == 0 {
        assert(s == Seq::<char>::empty() + p + s);
    }
}

/// Replacing everywhere replaces the first place and goes on behind it.
pub proof fn law_replaced_all(a: Seq<char>, p: Seq<char>, b: Seq<char>, r: Seq<char>)
    requires
        p.len() > 0,
        forall|x: Seq<char>, y: Seq<char>|
            a + p + b == #[trigger] (x + p + y) ==> a.len() <= x.len(),
    ensures
        replaced_all(a + p + b, p, r) == a + r + replaced_all(b, p, r),
{
    let s = a + p + b;
    lemma_first_in_parts(a, p, b);
    lemma_first_unique(s, p, a.len() as int);
    assert(s.take(a.len() as int) =~= a);
    assert(s.skip((a.len() + p.len()) as int) =~= b);
}

/// Replacing the empty text puts the new one before each character and at the end.
pub proof fn law_replaced_everywhere(c: char, s: Seq<char>, r: Seq<char>)
    ensures
        replaced_all(Seq::empty(), Seq::empty(), r) == r,
        replaced_all(seq![c] + s, Seq::empty(), r) == r + seq![c] + replaced_all(
            s,
            Seq::empty(),
            r,
        ),
{
    assert((seq![c] + s).skip(1) =~= s);
    assert(r.push(c) =~= r + seq![c]);
}

/// Two characters are the same, or one is a capital letter of ASCII and the other its small one.
pub open spec fn alike(a: char, b: char) -> bool {
    ||| a == b
    ||| 'A' <= a <= 'Z' && b as int == a as int + 32
    ||| 'A' <= b <= 'Z' && a as int == b as int + 32
}

/// Two texts are the same up to ASCII case if and only if they are so character by character.
pub proof fn law_same_ascii(a: Seq<char>, b: Seq<char>)
    ensures
        same_ascii(a, b) <==> a.len() == b.len() && forall|i: int|
            0 <= i < a.len() ==> alike(#[trigger] a[i], b[i]),
{
    let low = |c: char| ascii_lower(c);
    let x = a.map_values(low);
    let y = b.map_values(low);
    if same_ascii(a, b) {
        assert(x.len() == y.len());
        assert forall|i: int| 0 <= i < a.len() implies alike(#[trigger] a[i], b[i]) by {
            assert(x[i] == y[i]);
        }
    }
    if a.len() == b.len() && forall|i: int| 0 <= i < a.len() ==> alike(#[trigger] a[i], b[i]) {
        assert forall|i: int| 0 <= i < a.len() implies x[i] == y[i] by {
            assert(alike(a[i], b[i]));
        }
        assert(x =~= y);
    }
}

/// The part before the first of a character ends where that character first stands.
pub proof fn law_before_first(a: Seq<char>, c: char, b: Seq<char>)
    requires
        !a.contains(c),
    ensures
        before_first(a, c) == a,
        before_first(a + seq![c] + b, c) == a,
        split_at_first(a, c) is None,
        split_at_first(a + seq![c] + b, c) == Some((a, b)),
{
    let s = a + seq![c] + b;
    a.index_of_first_ensures(c);
    s.index_of_first_ensures(c);
    assert(s[a.len() as int] == c);
    assert(s.contains(c));
    let i = s.index_of_first(c)->Some_0;
    if i < a.len() {
        assert(a[i] == c);
        assert(a.contains(c));
    }
    assert(i == a.len());
    assert(s.take(i) =~= a);
    assert(s.skip(i + 1) =~= b);
}

/// The part behind the last of a character begins where that character last stands.
pub proof fn law_after_last(a: Seq<char>, c: char, b: Seq<char>)
    requires
        !b.contains(c),
    ensures
        after_last(b, c) == b,
        after_last(a + seq![c] + b, c) == b,
        split_at_last(b, c) is None,
        split_at_last(a + seq![c] + b, c) == Some((a, b)),
{
    let s = a + seq![c] + b;
    b.index_of_last_ensures(c);
    s.index_of_last_ensures(c);
    assert(s[a.len() as int] == c);
    assert(s.contains(c));
    let i = s.index_of_last(c)->Some_0;
    if i > a.len() {
        assert(b[i - a.len() - 1] == c);
        assert(b.contains(c));
    }
    assert(i == a.len());
    assert(s.take(i) =~= a);
    assert(s.skip(i + 1) =~= b);
}

/// Taking a prefix away leaves what stands behind it; a text without the prefix leaves nothing.
pub proof fn law_stripped(p: Seq<char>, rest: Seq<char>, s: Seq<char>)
    ensures
        stripped(p + rest, p) == Some(rest),
        stripped(s, p) is Some ==> s == p + stripped(s, p)->0,
{
    assert((p + rest).skip(p.len() as int) =~= rest);
    assert(p.is_prefix_of(p + rest));
    if p.is_prefix_of(s) {
        assert(s =~= p + s.skip(p.len() as int));
    }
}

/// A text comes before its own continuations, and before every text that differs from it first
/// by a greater character.
pub proof fn law_order_of_texts(front: Seq<char>, c: char, x: Seq<char>, d: char, y: Seq<char>)
    ensures
        text_less(front, front + seq![d] + y),
        c < d ==> text_less(front + seq![c] + x, front + seq![d] + y),
        c < d ==> !text_less(front + seq![d] + y, front + seq![c] + x),
        !text_less(front, front),
    decreases front.len(),
{
    let a = front + seq![c] + x;
    let b = front + seq![d] + y;
    if front.len() > 0 {
        law_order_of_texts(front.skip(1), c, x, d, y);
        assert(a.skip(1) =~= front.skip(1) + seq![c] + x);
        assert(b.skip(1) =~= front.skip(1) + seq![d] + y);
    }
    lemma_text_less_total(a, b);
    lemma_text_less_total(front, front);
}

/// The digits of a number write that number, without zeros in front.
pub proof fn law_decimal_is_read_back(n: nat)
    ensures
        decimal(n).len() > 0,
        forall|i: int| 0 <= i < decimal(n).len() ==> '0' <= #[trigger] decimal(n)[i] <= '9',
        n > 0 ==> decimal(n)[0] != '0',
        number_of(decimal(n)) == n,
    decreases n,
{
    let d = decimal(n);
    if n >= 10 {
        law_decimal_is_read_back(n / 10);
        assert(d.drop_last() =~= decimal(n / 10));
        assert(d[0] == decimal(n / 10)[0]);
        assert forall|i: int| 0 <= i < d.len() implies '0' <= #[trigger] d[i] <= '9' by {
            if i < d.len() - 1 {
                assert(d[i] == decimal(n / 10)[i]);
            }
        }
    } else {
        assert(d.drop_last() =~= Seq::empty());
        assert(number_of(d.drop_last()) == 0);
    }
    assert(d.last() == digit(n % 10));
    assert((d.last() as u8 - '0' as u8) as nat == n % 10);
}

/// A digit more stands for ten times as much and that digit.
pub proof fn law_number_of(s: Seq<char>, c: char)
    requires
        '0' <= c <= '9',
    ensures
        number_of(Seq::empty()) == 0,
        number_of(s.push(c)) == number_of(s) * 10 + (c as int - '0' as int),
{
    assert(s.push(c).drop_last() =~= s);
}

/// Padding adds zeros in front, and only as many as are missing.
pub proof fn law_padded(n: nat, width: nat)
    ensures
        padded(n, width).len() == if decimal(n).len() < width {
            width
        } else {
            decimal(n).len()
        },
        forall|i: int|
            0 <= i < padded(n, width).len() - decimal(n).len() ==> #[trigger] padded(n, width)[i]
                == '0',
        padded(n, width).skip(padded(n, width).len() - decimal(n).len()) == decimal(n),
{
    assert(padded(n, width).skip(padded(n, width).len() - decimal(n).len()) =~= decimal(n));
}

/// A sixteen-bit number is read from its digits, with or without a plus sign in front.
pub proof fn law_port_is_read_back(n: u16)
    ensures
        parsed_u16(decimal(n as nat)) == Some(n),
        parsed_u16(seq!['+'] + decimal(n as nat)) == Some(n),
{
    let d = decimal(n as nat);
    law_decimal_is_read_back(n as nat);
    assert('0' <= d[0] <= '9');
    assert((seq!['+'] + d).skip(1) =~= d);
}

/// Digits behind at most one plus sign are read as the number that they write if it has sixteen
/// bits; nothing else is read.
pub proof fn law_only_numbers_are_read(d: Seq<char>)
    ensures
        parsed_u16(seq!['+'] + d) is Some <==> d.len() > 0 && number_of(d) <= 65535 && forall|
            i: int,
        |
            0 <= i < d.len() ==> '0' <= #[trigger] d[i] <= '9',
        parsed_u16(seq!['+'] + d) is Some ==> parsed_u16(seq!['+'] + d)->0 as nat == number_of(d),
        !(d.len() > 0 && d[0] == '+') ==> parsed_u16(d) == parsed_u16(seq!['+'] + d),
{
    assert((seq!['+'] + d).skip(1) =~= d);
    if forall|i: int| 0 <= i < d.len() ==> '0' <= #[trigger] d[i] <= '9' {
        assert forall|i: int| 0 <= i < d.len() implies is_digit(#[trigger] d[i]) by {}
    }
    if digits_u16(d) is Some {
        assert forall|i: int| 0 <= i < d.len() implies '0' <= #[trigger] d[i] <= '9' by {
            assert(is_digit(d[i]));
        }
    }
}

} // verus!
