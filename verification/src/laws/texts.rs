//! Text: where it is cut, and that nothing gets lost in cutting it.

use vstd::prelude::*;

use crate::laws::figures::read;
use crate::laws::paging::law_trimming_takes_white_space_only;
use crate::numbers::{all_digits, digits_value, is_digit, number};
use crate::text::{
    before, contains, ends_with, find, first_match, lemma_run, lemma_run_facts, lines,
    matches_at, pieces, run, starts_with, trim, trim_start, white_space, without_cr, words, Class,
};

verus! {

// ---- searching ----

/// Whether `t` stands in `s` at position `i`, character by character.
pub open spec fn stands(s: Seq<char>, t: Seq<char>, i: int) -> bool {
    &&& 0 <= i
    &&& i + t.len() <= s.len()
    &&& forall|k: int| 0 <= k < t.len() ==> s[i + k] == #[trigger] t[k]
}

/// Whether `i` is the first position at which `t` stands in `s`.
pub open spec fn first_stands(s: Seq<char>, t: Seq<char>, i: int) -> bool {
    stands(s, t, i) && forall|j: int| j < i ==> !#[trigger] stands(s, t, j)
}

/// Standing in a text is the same, seen as a piece and seen character by
/// character.
pub proof fn lemma_stands(s: Seq<char>, t: Seq<char>, i: int)
    ensures
        matches_at(s, t, i) <==> stands(s, t, i),
{
    if 0 <= i && i + t.len() <= s.len() {
        let p = s.subrange(i, i + t.len());
        if stands(s, t, i) {
            assert(p =~= t);
        }
        if matches_at(s, t, i) {
            assert forall|k: int| 0 <= k < t.len() implies s[i + k] == #[trigger] t[k] by {
                assert(p[k] == t[k]);
            }
        }
    }
}

/// A search finds the first place at which the text that it looks for stands,
/// and it fails only where there is none.
pub proof fn law_searches_find_the_first(s: Seq<char>, t: Seq<char>, i: int)
    ensures
        first_stands(s, t, i) ==> find(s, t) == Some(i),
        find(s, t) == Some(i) ==> first_stands(s, t, i),
        find(s, t) is None <==> forall|j: int| !#[trigger] stands(s, t, j),
        contains(s, t) <==> exists|j: int| #[trigger] stands(s, t, j),
        starts_with(s, t) <==> stands(s, t, 0),
        ends_with(s, t) <==> stands(s, t, s.len() - t.len()),
{
    assert forall|j: int| #[trigger] matches_at(s, t, j) <==> stands(s, t, j) by {
        lemma_stands(s, t, j);
    }
    assert forall|j: int| #[trigger] stands(s, t, j) <==> matches_at(s, t, j) by {
        lemma_stands(s, t, j);
    }
    if contains(s, t) {
        let j = choose|j: int| #[trigger] matches_at(s, t, j);
        lemma_least(s, t, j);
        let f = choose|f: int| first_match(s, t, f);
        assert(first_match(s, t, f));
        assert(first_stands(s, t, f)) by {
            assert forall|j: int| j < f implies !#[trigger] stands(s, t, j) by {
                if stands(s, t, j) {
                    assert(matches_at(s, t, j));
                }
            }
        }
        if first_stands(s, t, i) {
            assert(i == f) by {
                if i < f {
                    assert(matches_at(s, t, i));
                }
            }
        }
    }
    if exists|j: int| #[trigger] stands(s, t, j) {
        let j = choose|j: int| #[trigger] stands(s, t, j);
        assert(matches_at(s, t, j));
    }
}

proof fn lemma_least(s: Seq<char>, t: Seq<char>, j: int)
    requires
        matches_at(s, t, j),
    ensures
        exists|f: int| first_match(s, t, f),
    decreases j,
{
    if exists|k: int| 0 <= k < j && #[trigger] matches_at(s, t, k) {
        let k = choose|k: int| 0 <= k < j && #[trigger] matches_at(s, t, k);
        lemma_least(s, t, k);
    } else {
        assert(first_match(s, t, j));
    }
}

// ---- cutting ----

/// What stands before the first `c` of a text.
pub proof fn law_before_the_first(s: Seq<char>, c: char)
    ensures
        !before(s, c).contains(c),
        before(s, c) == s || exists|rest: Seq<char>| s == #[trigger] (before(s, c).push(c) + rest),
{
    lemma_run_facts(s, Class::Except(c));
    let n = run(s, Class::Except(c)) as int;
    let b = before(s, c);
    if b.contains(c) {
        let k = choose|k: int| 0 <= k < b.len() && b[k] == c;
        assert(Class::Except(c).holds(s[k]));
    }
    if n < s.len() {
        assert(s[n] == c);
        assert(s =~= b.push(c) + s.skip(n + 1));
    } else {
        assert(b =~= s);
    }
}

/// A text is cut at every occurrence of a character: the pieces of two texts
/// with that character between them are those of the first and then those of
/// the second, and a text without it is one piece.
pub proof fn law_cut_at_every_occurrence(s: Seq<char>, a: Seq<char>, b: Seq<char>, c: char)
    requires
        s == a.push(c) + b,
    ensures
        pieces(s, c) == pieces(a, c) + pieces(b, c),
        !b.contains(c) ==> pieces(b, c) == seq![b],
    decreases a.len(),
{
    let k = Class::Except(c);
    let n = run(a, k) as int;
    lemma_run_facts(a, k);
    if n < a.len() {
        let rest = a.skip(n + 1);
        let tail = rest.push(c) + b;
        assert forall|j: int| 0 <= j < n implies k.holds(#[trigger] s[j]) by {
            assert(k.holds(a[j]));
        }
        lemma_run(s, k, n);
        assert(s.take(n) =~= a.take(n));
        assert(s.skip(n + 1) =~= tail);
        law_cut_at_every_occurrence(tail, rest, b, c);
        assert(pieces(s, c) =~= seq![a.take(n)] + (pieces(rest, c) + pieces(b, c)));
        assert(pieces(s, c) =~= pieces(a, c) + pieces(b, c));
    } else {
        assert forall|j: int| 0 <= j < a.len() implies k.holds(#[trigger] s[j]) by {
            assert(k.holds(a[j]));
        }
        lemma_run(s, k, a.len() as int);
        assert(s.take(a.len() as int) =~= a);
        assert(s.skip(a.len() as int + 1) =~= b);
        assert(pieces(s, c) =~= pieces(a, c) + pieces(b, c));
    }
    if !b.contains(c) {
        assert forall|j: int| 0 <= j < b.len() implies k.holds(#[trigger] b[j]) by {
            assert(b.contains(b[j]));
        }
        lemma_run(b, k, b.len() as int);
    }
}

/// A text has a line for each line feed, without it and without a carriage
/// return before it, and one for what stands behind the last, if anything
/// does.
pub proof fn law_lines_end_at_line_feeds(s: Seq<char>, a: Seq<char>, b: Seq<char>)
    requires
        s == a.push('\n') + b,
        !a.contains('\n'),
    ensures
        lines(s) == seq![
            if a.len() > 0 && a[a.len() - 1] == '\r' {
                a.subrange(0, a.len() - 1)
            } else {
                a
            },
        ] + lines(b),
        b.len() == 0 ==> lines(b).len() == 0,
        b.len() > 0 && !b.contains('\n') ==> lines(b) == seq![b],
{
    let k = Class::Except('\n');
    assert forall|j: int| 0 <= j < a.len() implies k.holds(#[trigger] s[j]) by {
        assert(a.contains(a[j]));
    }
    lemma_run(s, k, a.len() as int);
    assert(s.take(a.len() as int) =~= a);
    assert(s.skip(a.len() as int + 1) =~= b);
    assert(without_cr(a) =~= if a.len() > 0 && a[a.len() - 1] == '\r' {
        a.subrange(0, a.len() - 1)
    } else {
        a
    });
    if b.len() > 0 && !b.contains('\n') {
        assert forall|j: int| 0 <= j < b.len() implies k.holds(#[trigger] b[j]) by {
            assert(b.contains(b[j]));
        }
        lemma_run(b, k, b.len() as int);
    }
}

/// The words of a text are what white space separates: those of a word, a
/// white character and a text are the word and then those of the text; white
/// space in front adds none, and a text without any is one word.
pub proof fn law_words_are_what_white_space_separates(
    s: Seq<char>,
    a: Seq<char>,
    w: char,
    b: Seq<char>,
)
    requires
        s == a.push(w) + b,
        white_space(w),
        forall|i: int| 0 <= i < a.len() ==> !white_space(#[trigger] a[i]),
    ensures
        a.len() == 0 ==> words(s) == words(b),
        a.len() > 0 ==> words(s) == seq![a] + words(b),
        a.len() > 0 ==> words(a) == seq![a],
        a.len() == 0 ==> words(a).len() == 0,
{
    lemma_lead(s, a, w, b);
    if a.len() == 0 {
        assert(trim_start(a).len() == 0) by {
            lemma_run_facts(a, Class::White);
        }
    } else {
        lemma_run(a, Class::White, 0);
        assert(trim_start(a) =~= a);
        assert forall|j: int| 0 <= j < a.len() implies Class::Ink.holds(#[trigger] a[j]) by {
            assert(!white_space(a[j]));
        }
        lemma_run(a, Class::Ink, a.len() as int);
        assert(a.take(a.len() as int) =~= a);
        let none = a.skip(a.len() as int);
        assert(none.len() == 0);
        lemma_run_facts(none, Class::White);
        assert(words(none).len() == 0);
        assert(words(a) =~= seq![a]);
    }
}

proof fn lemma_lead(s: Seq<char>, a: Seq<char>, w: char, b: Seq<char>)
    requires
        s == a.push(w) + b,
        white_space(w),
        forall|i: int| 0 <= i < a.len() ==> !white_space(#[trigger] a[i]),
    ensures
        a.len() == 0 ==> words(s) == words(b),
        a.len() > 0 ==> words(s) == seq![a] + words(b),
{
    if a.len() == 0 {
        assert(s.skip(1) =~= b);
        lemma_white_lead(s, w, b);
    } else {
        assert(s[0] == a[0]);
        lemma_run(s, Class::White, 0);
        assert(trim_start(s) =~= s);
        assert forall|j: int| 0 <= j < a.len() implies Class::Ink.holds(#[trigger] s[j]) by {
            assert(!white_space(a[j]));
        }
        assert(s[a.len() as int] == w);
        lemma_run(s, Class::Ink, a.len() as int);
        assert(s.take(a.len() as int) =~= a);
        let t = s.skip(a.len() as int);
        assert(t =~= Seq::<char>::empty().push(w) + b);
        assert(t.skip(1) =~= b);
        lemma_white_lead(t, w, b);
    }
}

proof fn lemma_white_lead(s: Seq<char>, w: char, b: Seq<char>)
    requires
        s.len() == b.len() + 1,
        s[0] == w,
        s.skip(1) == b,
        white_space(w),
    ensures
        words(s) == words(b),
{
    lemma_run_facts(b, Class::White);
    let n = run(b, Class::White) as int;
    assert forall|j: int| 0 <= j < n + 1 implies Class::White.holds(#[trigger] s[j]) by {
        if j > 0 {
            assert(s[j] == b[j - 1]);
            assert(Class::White.holds(b[j - 1]));
        }
    }
    if n + 1 < s.len() {
        assert(s[n + 1] == b[n]);
    }
    lemma_run(s, Class::White, n + 1);
    assert(trim_start(s) =~= trim_start(b));
}

/// Trimming is pinned down by what is taken away and where it stops.
pub proof fn law_trimmed(s: Seq<char>, i: int, j: int)
    requires
        0 <= i < j <= s.len(),
        forall|k: int| 0 <= k < i ==> white_space(#[trigger] s[k]),
        forall|k: int| j <= k < s.len() ==> white_space(#[trigger] s[k]),
        !white_space(s[i]),
        !white_space(s[j - 1]),
    ensures
        trim(s) == s.subrange(i, j),
{
    law_trimming_takes_white_space_only(s);
    let (a, b) = choose|a: int, b: int|
        {
            &&& 0 <= a <= b <= s.len()
            &&& trim(s) == #[trigger] s.subrange(a, b)
            &&& forall|k: int| 0 <= k < a ==> white_space(#[trigger] s[k])
            &&& forall|k: int| b <= k < s.len() ==> white_space(#[trigger] s[k])
            &&& a < b ==> !white_space(s[a]) && !white_space(s[b - 1])
        };
    assert(a <= i);
    assert(b >= j);
    assert(a == i);
    assert(b == j);
}

// ---- numbers ----

proof fn lemma_read(s: Seq<char>)
    requires
        forall|i: int| 0 <= i < s.len() ==> '0' <= #[trigger] s[i] <= '9',
    ensures
        digits_value(s, 10) == read(s),
        all_digits(s, 10),
    decreases s.len(),
{
    if s.len() > 0 {
        let t = s.drop_last();
        assert forall|i: int| 0 <= i < t.len() implies '0' <= #[trigger] t[i] <= '9' by {
            assert(s[i] == t[i]);
        }
        lemma_read(t);
        assert('0' <= s[s.len() - 1] <= '9');
        assert forall|i: int| 0 <= i < s.len() implies is_digit(#[trigger] s[i], 10) by {
            assert('0' <= s[i] <= '9');
        }
    }
}

/// A text of decimal digits reads as the number that they write, unless it is
/// too large; no text with another character but a plus sign in front is a
/// number, nor is an empty one.
pub proof fn law_digits_are_numbers(s: Seq<char>, max: nat, i: int)
    ensures
        s.len() > 0 && (forall|k: int| 0 <= k < s.len() ==> '0' <= #[trigger] s[k] <= '9') ==> {
            &&& read(s) >= 0
            &&& read(s) <= max ==> number(s, 10, max) == Some(read(s) as nat)
            &&& read(s) > max ==> number(s, 10, max) is None
        },
        s.len() == 0 ==> number(s, 10, max) is None,
        0 < i < s.len() && !('0' <= s[i] <= '9') ==> number(s, 10, max) is None,
        s.len() > 0 && s[0] != '+' && !('0' <= s[0] <= '9') ==> number(s, 10, max) is None,
{
    if s.len() > 0 && (forall|k: int| 0 <= k < s.len() ==> '0' <= #[trigger] s[k] <= '9') {
        assert('0' <= s[0] <= '9');
        lemma_read(s);
    }
    if 0 < i < s.len() && !('0' <= s[i] <= '9') {
        if s[0] == '+' {
            assert(s.skip(1)[i - 1] == s[i]);
            assert(!is_digit(s.skip(1)[i - 1], 10));
        } else {
            assert(!is_digit(s[i], 10));
        }
    }
    if s.len() > 0 && s[0] != '+' && !('0' <= s[0] <= '9') {
        assert(!is_digit(s[0], 10));
    }
}

} // verus!
