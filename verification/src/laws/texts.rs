//! Laws of the operations on text that everything else is stated with.

use vstd::prelude::*;

use crate::text;

verus! {

/// Whether every character of `s` is white space.
pub open spec fn blank(s: Seq<char>) -> bool {
    forall|i: int| 0 <= i < s.len() ==> text::is_space(#[trigger] s[i])
}

/// What is cut off at the front is a run of the characters to cut, and what
/// stays does not begin with one.
pub proof fn leading_runs_are_cut(s: Seq<char>, p: spec_fn(char) -> bool)
    ensures
        ({
            let rest = text::without_leading(s, p);
            &&& rest.len() <= s.len()
            &&& s.skip(s.len() - rest.len()) == rest
            &&& forall|i: int| 0 <= i < s.len() - rest.len() ==> p(#[trigger] s[i])
            &&& rest.len() > 0 ==> !p(rest[0])
        }),
    decreases s.len(),
{
    let rest = text::without_leading(s, p);
    if s.len() > 0 && p(s[0]) {
        let tail = s.drop_first();
        leading_runs_are_cut(tail, p);
        assert(s.skip(s.len() - rest.len()) =~= tail.skip(tail.len() - rest.len()));
        assert forall|i: int| 0 <= i < s.len() - rest.len() implies p(#[trigger] s[i]) by {
            if i > 0 {
                assert(s[i] == tail[i - 1]);
            }
        }
    } else {
        assert(s.skip(0) =~= s);
    }
}

/// What is cut off at the end is a run of the characters to cut, and what stays
/// does not end with one.
pub proof fn trailing_runs_are_cut(s: Seq<char>, p: spec_fn(char) -> bool)
    ensures
        ({
            let rest = text::without_trailing(s, p);
            &&& rest.len() <= s.len()
            &&& s.take(rest.len() as int) == rest
            &&& forall|i: int| rest.len() <= i < s.len() ==> p(#[trigger] s[i])
            &&& rest.len() > 0 ==> !p(rest.last())
        }),
    decreases s.len(),
{
    let rest = text::without_trailing(s, p);
    if s.len() > 0 && p(s.last()) {
        let init = s.drop_last();
        trailing_runs_are_cut(init, p);
        assert(s.take(rest.len() as int) =~= init.take(rest.len() as int));
        assert forall|i: int| rest.len() <= i < s.len() implies p(#[trigger] s[i]) by {
            if i < s.len() - 1 {
                assert(s[i] == init[i]);
            }
        }
    } else {
        assert(s.take(s.len() as int) =~= s);
    }
}

/// Trimming takes white space off both ends and nothing else: what stays
/// neither begins nor ends with white space.
pub proof fn trimming_takes_white_space_off_the_ends(s: Seq<char>)
    ensures
        exists|from: int, to: int|
            0 <= from <= to <= s.len() && text::trimmed(s) == #[trigger] s.subrange(from, to)
                && blank(s.take(from)) && blank(s.skip(to)),
        text::trimmed(s).len() > 0 ==> !text::is_space(text::trimmed(s)[0]) && !text::is_space(
            text::trimmed(s).last(),
        ),
{
    let left = text::without_leading(s, text::spaces());
    let both = text::trimmed(s);
    leading_runs_are_cut(s, text::spaces());
    trailing_runs_are_cut(left, text::spaces());
    let from = s.len() - left.len();
    let to = from + both.len();
    assert(left =~= s.skip(from));
    assert(both =~= s.subrange(from, to));
    assert forall|i: int| 0 <= i < s.take(from).len() implies text::is_space(
        #[trigger] s.take(from)[i],
    ) by {
        assert((text::spaces())(s[i]));
    }
    assert forall|i: int| 0 <= i < s.skip(to).len() implies text::is_space(
        #[trigger] s.skip(to)[i],
    ) by {
        let k = both.len() + i;
        assert(left[k] == s[to + i]);
        assert((text::spaces())(left[k]));
    }
    if both.len() > 0 {
        assert(both[0] == left[0]);
    }
}

/// A text between white space is what trimming leaves of it, where the text
/// itself neither begins nor ends with white space.
pub proof fn trimming_undoes_padding(a: Seq<char>, s: Seq<char>, b: Seq<char>)
    requires
        blank(a),
        blank(b),
        s.len() > 0 ==> !text::is_space(s[0]) && !text::is_space(s.last()),
    ensures
        text::trimmed(a + s + b) == s,
{
    if s.len() == 0 {
        let all = a + s + b;
        assert forall|i: int| 0 <= i < all.len() implies text::is_space(#[trigger] all[i]) by {
            if i < a.len() {
                assert(all[i] == a[i]);
            } else {
                assert(all[i] == b[i - a.len()]);
            }
        }
        trimming_takes_white_space_off_the_ends(all);
        let (from, to) = choose|from: int, to: int|
            0 <= from <= to <= all.len() && text::trimmed(all) == #[trigger] all.subrange(from, to)
                && blank(all.take(from)) && blank(all.skip(to));
        if text::trimmed(all).len() > 0 {
            assert(text::trimmed(all)[0] == all[from]);
        }
        assert(text::trimmed(all) =~= s);
    } else {
        lemma_front_padding(a, s + b);
        assert(a + s + b =~= a + (s + b));
        lemma_back_padding(s, b);
    }
}

proof fn lemma_front_padding(a: Seq<char>, s: Seq<char>)
    requires
        blank(a),
        s.len() > 0 && !text::is_space(s[0]),
    ensures
        text::without_leading(a + s, text::spaces()) == s,
    decreases a.len(),
{
    if a.len() == 0 {
        assert(a + s =~= s);
    } else {
        assert(text::is_space(a[0]));
        assert forall|i: int| 0 <= i < a.drop_first().len() implies text::is_space(
            #[trigger] a.drop_first()[i],
        ) by {
            assert(text::is_space(a[i + 1]));
        }
        lemma_front_padding(a.drop_first(), s);
        assert((a + s).drop_first() =~= a.drop_first() + s);
        assert((a + s)[0] == a[0]);
    }
}

proof fn lemma_back_padding(s: Seq<char>, b: Seq<char>)
    requires
        blank(b),
        s.len() > 0 && !text::is_space(s.last()),
    ensures
        text::without_trailing(s + b, text::spaces()) == s,
    decreases b.len(),
{
    if b.len() == 0 {
        assert(s + b =~= s);
    } else {
        assert(text::is_space(b[b.len() - 1]));
        assert forall|i: int| 0 <= i < b.drop_last().len() implies text::is_space(
            #[trigger] b.drop_last()[i],
        ) by {
            assert(text::is_space(b[i]));
        }
        lemma_back_padding(s, b.drop_last());
        assert((s + b).drop_last() =~= s + b.drop_last());
        assert((s + b).last() == b[b.len() - 1]);
    }
}

/// Whether two characters are the same but for the case of an ASCII letter.
pub open spec fn same_letter(a: char, b: char) -> bool {
    ||| a == b
    ||| 'A' <= a <= 'Z' && b as u32 == a as u32 + 32
    ||| 'A' <= b <= 'Z' && a as u32 == b as u32 + 32
}

/// Whether two texts are the same but for the case of ASCII letters.
pub open spec fn same_but_for_case(a: Seq<char>, b: Seq<char>) -> bool {
    a.len() == b.len() && forall|i: int| 0 <= i < a.len() ==> same_letter(#[trigger] a[i], b[i])
}

/// Two texts are the same in small letters exactly where they are the same but
/// for the case of ASCII letters: neither of them may be longer.
pub proof fn small_letters_tell_all_but_case(a: Seq<char>, b: Seq<char>)
    ensures
        text::lowered(a) == text::lowered(b) <==> same_but_for_case(a, b),
{
    let x = text::lowered(a);
    let y = text::lowered(b);
    if x == y {
        assert(x.len() == y.len());
        assert forall|i: int| 0 <= i < a.len() implies same_letter(#[trigger] a[i], b[i]) by {
            assert(x[i] == text::lower(a[i]) && y[i] == text::lower(b[i]));
            lemma_same_letter(a[i], b[i]);
        }
    }
    if same_but_for_case(a, b) {
        assert forall|i: int| 0 <= i < a.len() implies x[i] == y[i] by {
            assert(same_letter(a[i], b[i]));
            lemma_same_letter(a[i], b[i]);
        }
        assert(x =~= y);
    }
}

proof fn lemma_same_letter(a: char, b: char)
    ensures
        text::lower(a) == text::lower(b) <==> same_letter(a, b),
{
}

/// Small letters stay, and so does every character that is no ASCII letter.
pub proof fn only_capitals_change(s: Seq<char>, i: int)
    requires
        0 <= i < s.len(),
    ensures
        text::lowered(s).len() == s.len(),
        !('A' <= s[i] <= 'Z') ==> text::lowered(s)[i] == s[i],
        'A' <= s[i] <= 'Z' ==> text::lowered(s)[i] as u32 == s[i] as u32 + 32,
{
}

/// A text holds another exactly where it stands between two others.
pub proof fn holding_is_standing_between(s: Seq<char>, part: Seq<char>)
    ensures
        text::holds(s, part) <==> exists|a: Seq<char>, b: Seq<char>| s == #[trigger] (a + part + b),
{
    if text::holds(s, part) {
        let at = choose|at: int| text::stands_at(s, part, at);
        let a = s.take(at);
        let b = s.skip(at + part.len());
        assert(s =~= a + part + b);
    }
    if exists|a: Seq<char>, b: Seq<char>| s == #[trigger] (a + part + b) {
        let (a, b) = choose|a: Seq<char>, b: Seq<char>| s == #[trigger] (a + part + b);
        assert(s.subrange(a.len() as int, (a.len() + part.len()) as int) =~= part);
        assert(text::stands_at(s, part, a.len() as int));
    }
}

/// The parts of a text, with the separator between them, are the text, and no
/// part holds the separator.
pub proof fn splitting_loses_nothing(s: Seq<char>, sep: char)
    ensures
        text::joined(text::parts(s, sep), seq![sep]) == s,
        text::parts(s, sep).len() > 0,
        forall|i: int|
            0 <= i < text::parts(s, sep).len() ==> !(#[trigger] text::parts(s, sep)[i]).contains(
                sep,
            ),
    decreases s.len(),
{
    text::lemma_parts_free(s, sep);
    text::lemma_parts_nonempty(s, sep);
    if s.len() > 0 {
        splitting_loses_nothing(s.drop_last(), sep);
        let before = text::parts(s.drop_last(), sep);
        let all = text::parts(s, sep);
        let by = seq![sep];
        assert(s.drop_last().push(s.last()) =~= s);
        if s.last() == sep {
            assert(all.drop_last() =~= before);
            assert(text::joined(all, by) =~= s);
        } else {
            assert(all.drop_last() =~= before.drop_last());
            if before.len() > 1 {
                assert(text::joined(all, by) =~= text::joined(before, by).push(s.last()));
            } else {
                assert(before[0] == before.last());
                assert(all[0] == before[0].push(s.last()));
                assert(text::joined(before, by) == before[0]);
                assert(text::joined(all, by) == all[0]);
            }
        }
    }
}

/// Joining nothing gives nothing, and joining one text gives the text.
pub proof fn one_text_is_its_own_join(s: Seq<char>, sep: Seq<char>)
    ensures
        text::joined(seq![s], sep) == s,
        text::joined(Seq::empty(), sep) == Seq::<char>::empty(),
{
}

/// Two lists are joined by joining each of them, with the separator between.
pub proof fn joins_are_joined_by_the_separator(
    a: Seq<Seq<char>>,
    b: Seq<Seq<char>>,
    sep: Seq<char>,
)
    requires
        a.len() > 0,
        b.len() > 0,
    ensures
        text::joined(a + b, sep) == text::joined(a, sep) + sep + text::joined(b, sep),
    decreases b.len(),
{
    assert((a + b).last() == b.last());
    if b.len() == 1 {
        assert((a + b).drop_last() =~= a);
    } else {
        joins_are_joined_by_the_separator(a, b.drop_last(), sep);
        assert((a + b).drop_last() =~= a + b.drop_last());
        assert(text::joined(a + b, sep) =~= text::joined(a, sep) + sep + text::joined(b, sep));
    }
}

/// The lines of two lists are those of the one and then those of the other,
/// and that of one text ends with a line break.
pub proof fn lines_follow_each_other(a: Seq<Seq<char>>, b: Seq<Seq<char>>, s: Seq<char>)
    ensures
        text::ended(a + b) == text::ended(a) + text::ended(b),
        text::ended(seq![s]) == s.push('\n'),
    decreases b.len(),
{
    reveal_strlit("\n");
    let one = seq![s];
    assert(one.drop_last() =~= Seq::empty());
    assert(text::ended(one.drop_last()) =~= Seq::<char>::empty());
    assert(one.last() == s);
    assert(text::ended(one) =~= s.push('\n'));
    if b.len() == 0 {
        assert(a + b =~= a);
        assert(text::ended(a) + text::ended(b) =~= text::ended(a));
    } else {
        lines_follow_each_other(a, b.drop_last(), s);
        assert((a + b).drop_last() =~= a + b.drop_last());
        assert((a + b).last() == b.last());
        assert(text::ended(a + b) =~= text::ended(a) + text::ended(b));
    }
}

/// A text comes before another where they agree up to some place, and there the
/// one ends and the other goes on, or has the smaller character.
pub proof fn the_first_difference_decides(a: Seq<char>, b: Seq<char>)
    ensures
        text::before(a, b) <==> exists|k: int|
            0 <= k <= a.len() && k < b.len() && #[trigger] a.take(k) == b.take(k) && (k == a.len()
                || a[k] < b[k]),
    decreases a.len(),
{
    if b.len() > 0 && a.len() > 0 && a[0] == b[0] {
        let x = a.drop_first();
        let y = b.drop_first();
        the_first_difference_decides(x, y);
        if text::before(a, b) {
            let k = choose|k: int|
                0 <= k <= x.len() && k < y.len() && #[trigger] x.take(k) == y.take(k) && (k
                    == x.len() || x[k] < y[k]);
            assert(a.take(k + 1) =~= seq![a[0]] + x.take(k));
            assert(b.take(k + 1) =~= seq![b[0]] + y.take(k));
            assert(a.take(k + 1) == b.take(k + 1));
            assert(k + 1 == a.len() || a[k + 1] < b[k + 1]);
        }
        if exists|k: int|
            0 <= k <= a.len() && k < b.len() && #[trigger] a.take(k) == b.take(k) && (k == a.len()
                || a[k] < b[k]) {
            let k = choose|k: int|
                0 <= k <= a.len() && k < b.len() && #[trigger] a.take(k) == b.take(k) && (k
                    == a.len() || a[k] < b[k]);
            assert(k > 0);
            assert(x.take(k - 1) =~= a.take(k).drop_first());
            assert(y.take(k - 1) =~= b.take(k).drop_first());
            assert(x.take(k - 1) == y.take(k - 1));
            assert(k - 1 == x.len() || x[k - 1] < y[k - 1]);
        }
    } else if b.len() > 0 {
        assert(a.take(0) =~= b.take(0));
        assert forall|k: int|
            0 <= k <= a.len() && k < b.len() && #[trigger] a.take(k) == b.take(k) && (k == a.len()
                || a[k] < b[k]) implies k == 0 by {
            if k > 0 {
                assert(a.take(k)[0] == a[0]);
                assert(b.take(k)[0] == b[0]);
            }
        }
    }
}

/// A number in decimal notation has only digits, at least one, none of them a
/// zero in front of others, and denotes the number.
pub proof fn decimal_notation_denotes_the_number(n: nat)
    ensures
        text::decimal(n).len() > 0,
        text::all_digits(text::decimal(n)),
        n >= 10 ==> text::decimal(n)[0] != '0',
        text::number_of(text::decimal(n)) == n,
    decreases n,
{
    let d = text::digit(n % 10);
    assert('0' <= d <= '9');
    assert(d as u32 == 48 + n % 10);
    if n >= 10 {
        decimal_notation_denotes_the_number(n / 10);
        let init = text::decimal(n / 10);
        assert(text::decimal(n).drop_last() =~= init);
        if n / 10 < 10 {
            assert(init =~= seq![text::digit(n / 10)]);
            assert(text::digit(n / 10) as u32 == 48 + n / 10);
        }
    } else {
        let one = seq![text::digit(n)];
        assert(one.drop_last() =~= Seq::empty());
        assert(text::number_of(one.drop_last()) == 0);
        assert(text::number_of(one) == n);
    }
}

/// A number is read back from its decimal notation, with or without a plus sign
/// in front, exactly where it is not too great.
pub proof fn numbers_are_read_back(n: nat, max: nat)
    ensures
        n <= max ==> text::whole_number(text::decimal(n), max) == Some(n),
        n <= max ==> text::whole_number(seq!['+'] + text::decimal(n), max) == Some(n),
        n > max ==> text::whole_number(text::decimal(n), max) is None,
{
    let s = text::decimal(n);
    decimal_notation_denotes_the_number(n);
    assert('0' <= s[0]);
    assert(text::unsigned(s) == s);
    let signed = seq!['+'] + s;
    assert(signed.drop_first() =~= s);
}

/// A text denotes no number where it is empty, or where a character that is no
/// digit stands in it behind the first.
pub proof fn only_digits_denote_numbers(s: Seq<char>, max: nat, i: int)
    requires
        s.len() == 0 || 0 < i < s.len() && !('0' <= s[i] <= '9') || s.len() > 0 && s[0] != '+'
            && !('0' <= s[0] <= '9'),
    ensures
        text::whole_number(s, max) is None,
{
    let digits = text::unsigned(s);
    if s.len() > 0 && s[0] == '+' {
        assert(digits[i - 1] == s[i]);
    } else if s.len() > 0 && 0 < i < s.len() && !('0' <= s[i] <= '9') {
        assert(digits[i] == s[i]);
    } else if s.len() > 0 {
        assert(digits[0] == s[0]);
    }
}

/// One more digit makes a number ten times as great, and adds the digit.
pub proof fn digits_count_by_tens(s: Seq<char>, d: nat)
    requires
        d < 10,
    ensures
        text::number_of(s.push(text::digit(d))) == 10 * text::number_of(s) + d,
        text::number_of(Seq::empty()) == 0,
{
    assert(s.push(text::digit(d)).drop_last() =~= s);
    assert(text::digit(d) as u32 == 48 + d);
}

} // verus!
