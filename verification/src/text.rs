//! Text operations on characters.
//!
//! A string is seen as the sequence of its characters; every function states
//! its result over that sequence.

use vstd::prelude::*;
use vstd::string::*;

verus! {

/// Whether a character has the Unicode `White_Space` property.
pub open spec fn is_space(c: char) -> bool {
    let n = c as u32;
    ||| 0x09 <= n <= 0x0d
    ||| n == 0x20
    ||| n == 0x85
    ||| n == 0xa0
    ||| n == 0x1680
    ||| 0x2000 <= n <= 0x200a
    ||| n == 0x2028
    ||| n == 0x2029
    ||| n == 0x202f
    ||| n == 0x205f
    ||| n == 0x3000
}

/// `char::is_whitespace`: whether the character has the Unicode `White_Space`
/// property, whose members [`is_space`] lists.
pub assume_specification[ char::is_whitespace ](c: char) -> (r: bool)
    ensures
        r == is_space(c),
;

/// `String::push`: the character is appended at the end.
pub assume_specification[ String::push ](s: &mut String, c: char)
    ensures
        final(s)@ == old(s)@.push(c),
;

/// The characters of a string.
pub fn chars_of(s: &str) -> (r: Vec<char>)
    ensures
        r@ == s@,
{
    let mut r: Vec<char> = Vec::new();
    for c in it: s.chars()
        invariant
            it.seq() == s@,
            r@ == s@.take(it.index() as int),
    {
        r.push(c);
    }
    assert(s@.take(s@.len() as int) =~= s@);
    r
}

/// `s` without the longest run of leading characters that satisfy `p`.
pub open spec fn without_leading(s: Seq<char>, p: spec_fn(char) -> bool) -> Seq<char>
    decreases s.len(),
{
    if s.len() > 0 && p(s[0]) {
        without_leading(s.drop_first(), p)
    } else {
        s
    }
}

/// `s` without the longest run of trailing characters that satisfy `p`.
pub open spec fn without_trailing(s: Seq<char>, p: spec_fn(char) -> bool) -> Seq<char>
    decreases s.len(),
{
    if s.len() > 0 && p(s.last()) {
        without_trailing(s.drop_last(), p)
    } else {
        s
    }
}

/// The white-space characters.
pub open spec fn spaces() -> spec_fn(char) -> bool {
    |c: char| is_space(c)
}

/// The one character `ch`.
pub open spec fn only(ch: char) -> spec_fn(char) -> bool {
    |c: char| c == ch
}

/// `s` without its surrounding white space.
pub open spec fn trimmed(s: Seq<char>) -> Seq<char> {
    without_trailing(without_leading(s, spaces()), spaces())
}

/// The characters of `chars` from `from` up to `to`.
fn slice_text(chars: &Vec<char>, from: usize, to: usize) -> (r: String)
    requires
        from <= to <= chars@.len(),
    ensures
        r@ == chars@.subrange(from as int, to as int),
{
    let mut r = String::new();
    for i in from..to
        invariant
            from <= to <= chars@.len(),
            r@ == chars@.subrange(from as int, i as int),
    {
        r.push(chars[i]);
        assert(chars@.subrange(from as int, i + 1) =~= chars@.subrange(from as int, i as int).push(
            chars@[i as int],
        ));
    }
    r
}

/// The first `n` characters of `s`, or all of them where there are no more.
pub fn first_chars(s: &str, n: usize) -> (r: String)
    ensures
        r@ == (if s@.len() > n {
            s@.take(n as int)
        } else {
            s@
        }),
{
    let chars = chars_of(s);
    if chars.len() > n {
        assert(s@.subrange(0, n as int) =~= s@.take(n as int));
        slice_text(&chars, 0, n)
    } else {
        s.to_owned()
    }
}

/// `s` without its surrounding white space.
pub fn trim(s: &str) -> (r: String)
    ensures
        r@ == trimmed(s@),
{
    let chars = chars_of(s);
    let n: usize = chars.len();
    let mut from: usize = 0;
    assert(s@.skip(0) =~= s@);
    while from < n && chars[from].is_whitespace()
        invariant
            from <= n == s@.len(),
            chars@ == s@,
            without_leading(s@, spaces()) == without_leading(s@.skip(from as int), spaces()),
        decreases n - from,
    {
        assert(s@.skip(from as int).drop_first() =~= s@.skip(from + 1));
        from = from + 1;
    }
    let ghost rest = s@.skip(from as int);
    assert(without_leading(s@, spaces()) == rest);
    let mut to: usize = n;
    assert(rest =~= s@.subrange(from as int, n as int));
    while to > from && chars[to - 1].is_whitespace()
        invariant
            from <= to <= n == s@.len(),
            chars@ == s@,
            without_trailing(rest, spaces()) == without_trailing(
                s@.subrange(from as int, to as int),
                spaces(),
            ),
        decreases to,
    {
        assert(s@.subrange(from as int, to as int).drop_last() =~= s@.subrange(
            from as int,
            to - 1,
        ));
        to = to - 1;
    }
    slice_text(&chars, from, to)
}

/// `s` without its leading characters `ch`.
pub fn trim_leading(s: &str, ch: char) -> (r: String)
    ensures
        r@ == without_leading(s@, only(ch)),
{
    let chars = chars_of(s);
    let n: usize = chars.len();
    let mut from: usize = 0;
    assert(s@.skip(0) =~= s@);
    while from < n && chars[from] == ch
        invariant
            from <= n == s@.len(),
            chars@ == s@,
            without_leading(s@, only(ch)) == without_leading(s@.skip(from as int), only(ch)),
        decreases n - from,
    {
        assert(s@.skip(from as int).drop_first() =~= s@.skip(from + 1));
        from = from + 1;
    }
    assert(s@.skip(from as int) =~= s@.subrange(from as int, n as int));
    slice_text(&chars, from, n)
}

/// `s` without its trailing characters `ch`.
pub fn trim_trailing(s: &str, ch: char) -> (r: String)
    ensures
        r@ == without_trailing(s@, only(ch)),
{
    let chars = chars_of(s);
    let mut to: usize = chars.len();
    assert(s@.take(to as int) =~= s@);
    while to > 0 && chars[to - 1] == ch
        invariant
            to <= s@.len(),
            chars@ == s@,
            without_trailing(s@, only(ch)) == without_trailing(s@.take(to as int), only(ch)),
        decreases to,
    {
        assert(s@.take(to as int).drop_last() =~= s@.take(to - 1));
        to = to - 1;
    }
    assert(s@.take(to as int) =~= s@.subrange(0, to as int));
    slice_text(&chars, 0, to)
}

/// Whether two strings hold the same characters.
pub fn same(a: &str, b: &str) -> (r: bool)
    ensures
        r == (a@ == b@),
{
    let x = chars_of(a);
    let y = chars_of(b);
    if x.len() != y.len() {
        return false;
    }
    for i in 0..x.len()
        invariant
            x@ == a@,
            y@ == b@,
            x@.len() == y@.len(),
            forall|k: int| 0 <= k < i ==> x@[k] == y@[k],
    {
        if x[i] != y[i] {
            return false;
        }
    }
    assert(x@ =~= y@);
    true
}

/// Whether `c` stands in `s`.
pub fn has_char(s: &str, c: char) -> (r: bool)
    ensures
        r == s@.contains(c),
{
    let chars = chars_of(s);
    for i in 0..chars.len()
        invariant
            chars@ == s@,
            forall|k: int| 0 <= k < i ==> s@[k] != c,
    {
        if chars[i] == c {
            assert(s@[i as int] == c);
            return true;
        }
    }
    false
}

/// Whether `s` holds white space.
pub open spec fn holds_space(s: Seq<char>) -> bool {
    exists|i: int| 0 <= i < s.len() && is_space(#[trigger] s[i])
}

/// Whether `s` holds white space.
pub fn has_space(s: &str) -> (r: bool)
    ensures
        r == holds_space(s@),
{
    let chars = chars_of(s);
    for i in 0..chars.len()
        invariant
            chars@ == s@,
            forall|k: int| 0 <= k < i ==> !is_space(#[trigger] s@[k]),
    {
        if chars[i].is_whitespace() {
            assert(is_space(s@[i as int]));
            return true;
        }
    }
    false
}

/// Whether `part` stands in `s` from position `at` on.
pub open spec fn stands_at(s: Seq<char>, part: Seq<char>, at: int) -> bool {
    0 <= at && at + part.len() <= s.len() && s.subrange(at, at + part.len()) == part
}

/// Whether `part` stands somewhere in `s`.
pub open spec fn holds(s: Seq<char>, part: Seq<char>) -> bool {
    exists|at: int| stands_at(s, part, at)
}

/// Whether `part` stands in `s` from position `at` on.
fn stands(s: &Vec<char>, part: &Vec<char>, at: usize) -> (r: bool)
    requires
        at + part@.len() <= s@.len(),
    ensures
        r == stands_at(s@, part@, at as int),
{
    let n: usize = s.len();
    for i in 0..part.len()
        invariant
            n == s@.len(),
            at + part@.len() <= n,
            forall|k: int| 0 <= k < i ==> s@[at + k] == part@[k],
    {
        if s[at + i] != part[i] {
            assert(s@.subrange(at as int, at + part@.len())[i as int] != part@[i as int]);
            return false;
        }
    }
    assert(s@.subrange(at as int, at + part@.len()) =~= part@);
    true
}

/// Whether `part` stands somewhere in `s`.
pub fn has_part(s: &str, part: &str) -> (r: bool)
    ensures
        r == holds(s@, part@),
{
    let x = chars_of(s);
    let y = chars_of(part);
    if y.len() > x.len() {
        return false;
    }
    let last: usize = x.len() - y.len();
    let mut at: usize = 0;
    loop
        invariant
            x@ == s@,
            y@ == part@,
            at <= last,
            last + y@.len() == x@.len(),
            forall|k: int| 0 <= k < at ==> !stands_at(s@, part@, k),
        decreases last - at,
    {
        if stands(&x, &y, at) {
            return true;
        }
        if at == last {
            return false;
        }
        at = at + 1;
    }
}

/// Whether `s` begins with `part`.
pub fn has_prefix(s: &str, part: &str) -> (r: bool)
    ensures
        r == stands_at(s@, part@, 0),
{
    let x = chars_of(s);
    let y = chars_of(part);
    y.len() <= x.len() && stands(&x, &y, 0)
}

/// An ASCII capital letter as its small letter; any other character as it is.
pub open spec fn lower(c: char) -> char {
    if 'A' <= c <= 'Z' {
        (c as u32 + 32) as char
    } else {
        c
    }
}

/// `s` with its ASCII capital letters made small.
pub open spec fn lowered(s: Seq<char>) -> Seq<char> {
    s.map_values(|c: char| lower(c))
}

/// `s` with its ASCII capital letters made small.
pub fn lowercase(s: &str) -> (r: String)
    ensures
        r@ == lowered(s@),
{
    let chars = chars_of(s);
    let mut r = String::new();
    for i in 0..chars.len()
        invariant
            chars@ == s@,
            r@ == lowered(s@.take(i as int)),
    {
        let c: char = chars[i];
        if 'A' <= c && c <= 'Z' {
            r.push((c as u8 + 32u8) as char);
        } else {
            r.push(c);
        }
        assert(lowered(s@.take(i + 1)) =~= lowered(s@.take(i as int)).push(lower(c)));
    }
    assert(s@.take(s@.len() as int) =~= s@);
    r
}

/// The parts of `s` between the characters `sep`.
pub open spec fn parts(s: Seq<char>, sep: char) -> Seq<Seq<char>>
    decreases s.len(),
{
    if s.len() == 0 {
        seq![s]
    } else {
        let before = parts(s.drop_last(), sep);
        if s.last() == sep {
            before.push(Seq::empty())
        } else {
            before.drop_last().push(before.last().push(s.last()))
        }
    }
}

/// There is always a last part.
pub proof fn lemma_parts_nonempty(s: Seq<char>, sep: char)
    ensures
        parts(s, sep).len() >= 1,
    decreases s.len(),
{
    if s.len() > 0 {
        lemma_parts_nonempty(s.drop_last(), sep);
    }
}

/// No part holds the separator.
pub proof fn lemma_parts_free(s: Seq<char>, sep: char)
    ensures
        forall|i: int| 0 <= i < parts(s, sep).len() ==> !(#[trigger] parts(s, sep)[i]).contains(sep),
    decreases s.len(),
{
    if s.len() > 0 {
        lemma_parts_free(s.drop_last(), sep);
        lemma_parts_nonempty(s.drop_last(), sep);
        let before = parts(s.drop_last(), sep);
        assert forall|i: int| 0 <= i < parts(s, sep).len() implies !(#[trigger] parts(
            s,
            sep,
        )[i]).contains(sep) by {
            if i < before.len() - 1 {
                assert(!before[i].contains(sep));
            } else {
                assert(!before.last().contains(sep));
            }
        }
    }
}

/// A text without the separator is its own only part.
pub proof fn lemma_one_part(s: Seq<char>, sep: char)
    requires
        !s.contains(sep),
    ensures
        parts(s, sep) == seq![s],
    decreases s.len(),
{
    if s.len() > 0 {
        assert(!s.drop_last().contains(sep));
        lemma_one_part(s.drop_last(), sep);
        assert(s.drop_last().push(s.last()) =~= s);
        assert(parts(s, sep) =~= seq![s]);
    }
}

/// Two texts without the separator are the parts of their join with it.
pub proof fn lemma_two_parts(a: Seq<char>, b: Seq<char>, sep: char)
    requires
        !a.contains(sep),
        !b.contains(sep),
    ensures
        parts(a.push(sep) + b, sep) == seq![a, b],
    decreases b.len(),
{
    let s = a.push(sep) + b;
    if b.len() == 0 {
        assert(s.drop_last() =~= a);
        lemma_one_part(a, sep);
        assert(b =~= Seq::empty());
        assert(parts(s, sep) =~= seq![a, b]);
    } else {
        assert(!b.drop_last().contains(sep));
        lemma_two_parts(a, b.drop_last(), sep);
        assert(s.drop_last() =~= a.push(sep) + b.drop_last());
        assert(b.drop_last().push(b.last()) =~= b);
        assert(parts(s, sep) =~= seq![a, b]);
    }
}

/// A text without the separator goes on with the last part.
pub proof fn lemma_parts_go_on(s: Seq<char>, t: Seq<char>, sep: char)
    requires
        !t.contains(sep),
    ensures
        parts(s + t, sep) == parts(s, sep).drop_last().push(parts(s, sep).last() + t),
    decreases t.len(),
{
    lemma_parts_nonempty(s, sep);
    let before = parts(s, sep);
    if t.len() == 0 {
        assert(s + t =~= s);
        assert(before.last() + t =~= before.last());
        assert(before =~= before.drop_last().push(before.last()));
    } else {
        assert(!t.drop_last().contains(sep));
        lemma_parts_go_on(s, t.drop_last(), sep);
        assert((s + t).drop_last() =~= s + t.drop_last());
        assert(t.last() != sep);
        assert((before.last() + t.drop_last()).push(t.last()) =~= before.last() + t);
        assert(parts(s + t, sep) =~= before.drop_last().push(before.last() + t));
    }
}

/// A text keeps no character that it did not hold.
pub proof fn lemma_trimmed_free(s: Seq<char>, c: char)
    requires
        !s.contains(c),
    ensures
        !trimmed(s).contains(c),
{
    lemma_without_leading_free(s, spaces(), c);
    lemma_without_trailing_free(without_leading(s, spaces()), spaces(), c);
}

proof fn lemma_without_leading_free(s: Seq<char>, p: spec_fn(char) -> bool, c: char)
    requires
        !s.contains(c),
    ensures
        !without_leading(s, p).contains(c),
    decreases s.len(),
{
    if s.len() > 0 {
        assert(!s.drop_first().contains(c));
        lemma_without_leading_free(s.drop_first(), p, c);
    }
}

proof fn lemma_without_trailing_free(s: Seq<char>, p: spec_fn(char) -> bool, c: char)
    requires
        !s.contains(c),
    ensures
        !without_trailing(s, p).contains(c),
    decreases s.len(),
{
    if s.len() > 0 {
        assert(!s.drop_last().contains(c));
        lemma_without_trailing_free(s.drop_last(), p, c);
    }
}

/// The view of an optional string.
pub open spec fn option_view(s: Option<String>) -> Option<Seq<char>> {
    match s {
        Some(t) => Some(t@),
        None => None,
    }
}

/// The views of a sequence of strings.
pub open spec fn views(s: Seq<String>) -> Seq<Seq<char>> {
    s.map_values(|t: String| t@)
}

/// The parts of `s` between the characters `sep`.
pub fn split(s: &str, sep: char) -> (r: Vec<String>)
    ensures
        views(r@) == parts(s@, sep),
        r@.len() >= 1,
{
    let chars = chars_of(s);
    let mut done: Vec<String> = Vec::new();
    let mut current = String::new();
    assert(s@.take(0) =~= Seq::<char>::empty());
    assert(views(done@).push(current@) =~= seq![Seq::<char>::empty()]);
    for i in 0..chars.len()
        invariant
            chars@ == s@,
            views(done@).push(current@) == parts(s@.take(i as int), sep),
    {
        let ghost before = views(done@).push(current@);
        let c: char = chars[i];
        assert(s@.take(i + 1).drop_last() =~= s@.take(i as int));
        assert(before.drop_last() =~= views(done@));
        if c == sep {
            done.push(current);
            current = String::new();
            assert(views(done@) =~= before);
        } else {
            current.push(c);
        }
    }
    assert(s@.take(s@.len() as int) =~= s@);
    let ghost before = views(done@).push(current@);
    done.push(current);
    assert(views(done@) =~= before);
    done
}

/// The texts of `list` with `sep` between them.
pub open spec fn joined(list: Seq<Seq<char>>, sep: Seq<char>) -> Seq<char>
    decreases list.len(),
{
    if list.len() == 0 {
        Seq::empty()
    } else if list.len() == 1 {
        list[0]
    } else {
        joined(list.drop_last(), sep) + sep + list.last()
    }
}

/// The strings of `list` with `sep` between them.
pub fn join(list: &Vec<String>, sep: &str) -> (r: String)
    ensures
        r@ == joined(views(list@), sep@),
{
    let mut r = String::new();
    assert(views(list@).take(0) =~= Seq::empty());
    for i in 0..list.len()
        invariant
            r@ == joined(views(list@).take(i as int), sep@),
    {
        if i > 0 {
            r.append(sep);
        }
        r.append(list[i].as_str());
        let ghost upto = views(list@).take(i + 1);
        assert(upto.drop_last() =~= views(list@).take(i as int));
        assert(upto.last() == list@[i as int]@);
        assert(r@ =~= joined(upto, sep@));
    }
    assert(views(list@).take(list@.len() as int) =~= views(list@));
    r
}

/// The texts of `list`, each with a line break behind it.
pub open spec fn ended(list: Seq<Seq<char>>) -> Seq<char>
    decreases list.len(),
{
    if list.len() == 0 {
        Seq::empty()
    } else {
        ended(list.drop_last()) + list.last() + "\n"@
    }
}

/// The texts of `list`, each with a line break behind it. Where none of them
/// holds a line break, splitting at the line breaks gives them back, and an
/// empty text at the end.
pub fn lines(list: &Vec<String>) -> (r: String)
    ensures
        r@ == ended(views(list@)),
        (forall|i: int| 0 <= i < list@.len() ==> !(#[trigger] list@[i])@.contains('\n')) ==> parts(
            r@,
            '\n',
        ) == views(list@).push(Seq::empty()),
{
    let ghost all = views(list@);
    let ghost clean = forall|i: int|
        0 <= i < list@.len() ==> !(#[trigger] list@[i])@.contains('\n');
    let mut r = String::new();
    assert(all.take(0) =~= Seq::empty());
    assert(parts(r@, '\n') =~= seq![Seq::<char>::empty()]);
    assert(all.take(0).push(Seq::empty()) =~= seq![Seq::<char>::empty()]);
    for i in 0..list.len()
        invariant
            all == views(list@),
            clean == forall|i: int|
                0 <= i < list@.len() ==> !(#[trigger] list@[i])@.contains('\n'),
            r@ == ended(all.take(i as int)),
            clean ==> parts(r@, '\n') == all.take(i as int).push(Seq::empty()),
    {
        let ghost before = r@;
        r.append(list[i].as_str());
        r.append("\n");
        let ghost t = list@[i as int]@;
        assert(all.take(i + 1).drop_last() =~= all.take(i as int));
        assert(all.take(i + 1).last() == t);
        proof {
            reveal_strlit("\n");
            if clean {
                lemma_parts_go_on(before, t, '\n');
                assert(r@.drop_last() =~= before + t);
                assert(Seq::<char>::empty() + t =~= t);
                assert(all.take(i as int).push(Seq::empty()).drop_last() =~= all.take(i as int));
                assert(parts(r@, '\n') =~= all.take(i + 1).push(Seq::empty()));
            }
        }
    }
    assert(all.take(all.len() as int) =~= all);
    r
}

/// Whether `a` comes before `b` in the order of their characters' code
/// points, which is the order of their UTF-8 bytes.
pub open spec fn before(a: Seq<char>, b: Seq<char>) -> bool
    decreases a.len(),
{
    if b.len() == 0 {
        false
    } else if a.len() == 0 {
        true
    } else if a[0] != b[0] {
        a[0] < b[0]
    } else {
        before(a.drop_first(), b.drop_first())
    }
}

/// Whether `a` comes before `b`.
pub fn precedes(a: &str, b: &str) -> (r: bool)
    ensures
        r == before(a@, b@),
{
    let x = chars_of(a);
    let y = chars_of(b);
    let mut i: usize = 0;
    assert(a@.skip(0) =~= a@);
    assert(b@.skip(0) =~= b@);
    while i < x.len() && i < y.len()
        invariant
            x@ == a@,
            y@ == b@,
            i <= x@.len(),
            i <= y@.len(),
            before(a@, b@) == before(a@.skip(i as int), b@.skip(i as int)),
        decreases x@.len() - i,
    {
        if x[i] != y[i] {
            return x[i] < y[i];
        }
        assert(a@.skip(i as int).drop_first() =~= a@.skip(i + 1));
        assert(b@.skip(i as int).drop_first() =~= b@.skip(i + 1));
        i = i + 1;
    }
    x.len() < y.len()
}

/// No text comes before itself.
pub proof fn before_is_irreflexive(a: Seq<char>)
    ensures
        !before(a, a),
    decreases a.len(),
{
    if a.len() > 0 {
        before_is_irreflexive(a.drop_first());
    }
}

/// What comes before a text comes before all that follow it.
pub proof fn before_is_transitive(a: Seq<char>, b: Seq<char>, c: Seq<char>)
    requires
        before(a, b),
        before(b, c),
    ensures
        before(a, c),
    decreases a.len(),
{
    if a.len() > 0 && a[0] == b[0] && b[0] == c[0] {
        before_is_transitive(a.drop_first(), b.drop_first(), c.drop_first());
    }
}

/// Of two different texts one comes before the other.
pub proof fn before_is_total(a: Seq<char>, b: Seq<char>)
    ensures
        before(a, b) || before(b, a) || a == b,
    decreases a.len(),
{
    if a.len() == 0 || b.len() == 0 {
        assert(a.len() == 0 && b.len() == 0 ==> a =~= b);
    } else if a[0] == b[0] {
        before_is_total(a.drop_first(), b.drop_first());
        if a.drop_first() == b.drop_first() {
            assert(a =~= seq![a[0]] + a.drop_first());
            assert(b =~= seq![b[0]] + b.drop_first());
        }
    }
}

/// The decimal digit of a number below ten.
pub open spec fn digit(d: nat) -> char {
    (('0' as u32) + d) as char
}

/// The decimal notation of a number.
pub open spec fn decimal(n: nat) -> Seq<char>
    decreases n,
{
    if n < 10 {
        seq![digit(n)]
    } else {
        decimal(n / 10).push(digit(n % 10))
    }
}

/// The decimal notation of `n`.
pub fn decimal_text(n: u64) -> (r: String)
    ensures
        r@ == decimal(n as nat),
    decreases n,
{
    let c: char = (48u8 + (n % 10) as u8) as char;
    if n < 10 {
        let mut r = String::new();
        r.push(c);
        assert(r@ =~= seq![digit(n as nat)]);
        r
    } else {
        let mut r = decimal_text(n / 10);
        r.push(c);
        r
    }
}

/// Whether every character is a decimal digit.
pub open spec fn all_digits(s: Seq<char>) -> bool {
    forall|i: int| 0 <= i < s.len() ==> '0' <= #[trigger] s[i] <= '9'
}

/// The number that a sequence of decimal digits denotes.
pub open spec fn number_of(s: Seq<char>) -> nat
    decreases s.len(),
{
    if s.len() == 0 {
        0
    } else {
        number_of(s.drop_last()) * 10 + (s.last() as u32 - '0' as u32) as nat
    }
}

/// `s` without one leading plus sign.
pub open spec fn unsigned(s: Seq<char>) -> Seq<char> {
    if s.len() > 0 && s[0] == '+' {
        s.drop_first()
    } else {
        s
    }
}

/// The whole number that `s` denotes, where it is no greater than `max`:
/// decimal digits, at least one, after an optional plus sign.
pub open spec fn whole_number(s: Seq<char>, max: nat) -> Option<nat> {
    let digits = unsigned(s);
    if digits.len() > 0 && all_digits(digits) && number_of(digits) <= max {
        Some(number_of(digits))
    } else {
        None
    }
}

/// More digits never denote a smaller number.
proof fn lemma_number_grows(s: Seq<char>, n: int)
    requires
        all_digits(s),
        0 <= n <= s.len(),
    ensures
        number_of(s.take(n)) <= number_of(s),
    decreases s.len() - n,
{
    if n < s.len() {
        lemma_number_grows(s, n + 1);
        assert(s.take(n + 1).drop_last() =~= s.take(n));
        assert('0' <= s.take(n + 1).last());
    } else {
        assert(s.take(n) =~= s);
    }
}

/// The whole number that `s` denotes, where it is no greater than `max`.
pub fn parse_number(s: &str, max: u64) -> (r: Option<u64>)
    ensures
        match r {
            Some(n) => whole_number(s@, max as nat) == Some(n as nat),
            None => whole_number(s@, max as nat) is None,
        },
{
    let chars = chars_of(s);
    let from: usize = if chars.len() > 0 && chars[0] == '+' {
        1
    } else {
        0
    };
    let ghost digits = unsigned(s@);
    assert(digits =~= s@.skip(from as int));
    if chars.len() == from {
        return None;
    }
    let mut value: u64 = 0;
    assert(digits.take(0) =~= Seq::<char>::empty());
    for i in from..chars.len()
        invariant
            chars@ == s@,
            digits == s@.skip(from as int),
            from <= chars@.len(),
            digits == unsigned(s@),
            value == number_of(digits.take(i - from)),
            value <= max,
            forall|k: int| 0 <= k < i - from ==> '0' <= #[trigger] digits[k] <= '9',
    {
        let c: char = chars[i];
        assert(digits[i - from] == c);
        if !('0' <= c && c <= '9') {
            assert(!all_digits(digits));
            return None;
        }
        let d: u64 = (c as u8 - 48u8) as u64;
        let ghost upto = digits.take(i - from + 1);
        assert(upto.drop_last() =~= digits.take(i - from));
        assert(number_of(upto) == value * 10 + d);
        proof {
            if all_digits(digits) {
                lemma_number_grows(digits, i - from + 1);
            }
        }
        if value > u64::MAX / 10 || value * 10 > u64::MAX - d || value * 10 + d > max {
            return None;
        }
        value = value * 10 + d;
    }
    assert(digits.take(digits.len() as int) =~= digits);
    Some(value)
}

} // verus!
