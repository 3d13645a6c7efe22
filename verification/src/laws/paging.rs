//! The header's pages: all of its text comes up, in order, in pieces that fit
//! the panel.

use vstd::prelude::*;

use crate::font::Font;
use crate::header::{chars_per_page, cut_at, header_pages, pages_of, paginated};
use crate::text::{
    contains, find, first_match, lemma_run_back_facts, lemma_run_facts, matches_at, run, run_back,
    trim, trim_start, white_space, Class,
};

verus! {

/// The characters of a text that leave a mark on the panel, in order: all but
/// white space.
pub open spec fn ink(s: Seq<char>) -> Seq<char>
    decreases s.len(),
{
    if s.len() == 0 {
        s
    } else if white_space(s.last()) {
        ink(s.drop_last())
    } else {
        ink(s.drop_last()).push(s.last())
    }
}

/// Texts one behind the other.
pub open spec fn joined(v: Seq<Seq<char>>) -> Seq<char>
    decreases v.len(),
{
    if v.len() == 0 {
        Seq::empty()
    } else {
        joined(v.drop_last()) + v.last()
    }
}

/// Whether a space, a dash and a space stand at position `j`.
pub open spec fn dash_at(s: Seq<char>, j: int) -> bool {
    &&& 0 <= j
    &&& j + 3 <= s.len()
    &&& s[j] == ' '
    &&& s[j + 1] == '-'
    &&& s[j + 2] == ' '
}

/// White space is what separates words: the blank, the tab, the ends of lines
/// and the like, but no visible character of ASCII.
pub proof fn law_white_space_is_blank(c: char)
    ensures
        c == ' ' || c == '\t' || c == '\n' || c == '\r' ==> white_space(c),
        '!' <= c <= '~' ==> !white_space(c),
        c == '\u{b0}' ==> !white_space(c),
        c == '\u{a0}' || c == '\u{3000}' ==> white_space(c),
{
}

/// Trimming takes away white space at both ends and nothing else: what is
/// left is one piece of the text, it begins and ends with a visible character,
/// and before and behind it there is white space only.
pub proof fn law_trimming_takes_white_space_only(s: Seq<char>)
    ensures
        exists|i: int, j: int|
            {
                &&& 0 <= i <= j <= s.len()
                &&& trim(s) == #[trigger] s.subrange(i, j)
                &&& forall|k: int| 0 <= k < i ==> white_space(#[trigger] s[k])
                &&& forall|k: int| j <= k < s.len() ==> white_space(#[trigger] s[k])
                &&& i < j ==> !white_space(s[i]) && !white_space(s[j - 1])
            },
{
    lemma_run_facts(s, Class::White);
    let t = trim_start(s);
    lemma_run_back_facts(t, Class::White);
    let i = run(s, Class::White) as int;
    let j = s.len() - run_back(t, Class::White);
    assert(t =~= s.subrange(i, s.len() as int));
    assert(trim(s) =~= s.subrange(i, j));
    assert forall|k: int| 0 <= k < i implies white_space(#[trigger] s[k]) by {
        assert(Class::White.holds(s[k]));
    }
    assert forall|k: int| j <= k < s.len() implies white_space(#[trigger] s[k]) by {
        assert(Class::White.holds(t[k - i]));
    }
    if i < j {
        assert(t[0] == s[i]);
        assert(t[t.len() - run_back(t, Class::White) - 1] == s[j - 1]);
    }
}

proof fn lemma_ink_joins(a: Seq<char>, b: Seq<char>)
    ensures
        ink(a + b) == ink(a) + ink(b),
    decreases b.len(),
{
    if b.len() == 0 {
        assert(a + b =~= a);
        assert(ink(a) + ink(b) =~= ink(a));
    } else {
        assert((a + b).drop_last() =~= a + b.drop_last());
        lemma_ink_joins(a, b.drop_last());
        assert(ink(a + b) =~= ink(a) + ink(b));
    }
}

proof fn lemma_no_ink(s: Seq<char>)
    requires
        forall|k: int| 0 <= k < s.len() ==> white_space(#[trigger] s[k]),
    ensures
        ink(s) == Seq::<char>::empty(),
    decreases s.len(),
{
    if s.len() > 0 {
        assert(white_space(s[s.len() - 1]));
        assert forall|k: int| 0 <= k < s.drop_last().len() implies white_space(
            #[trigger] s.drop_last()[k],
        ) by {
            assert(white_space(s[k]));
        }
        lemma_no_ink(s.drop_last());
    } else {
        assert(s =~= Seq::<char>::empty());
    }
}

proof fn lemma_trim_keeps_ink(s: Seq<char>)
    ensures
        ink(trim(s)) == ink(s),
{
    law_trimming_takes_white_space_only(s);
    let (i, j) = choose|i: int, j: int|
        {
            &&& 0 <= i <= j <= s.len()
            &&& trim(s) == #[trigger] s.subrange(i, j)
            &&& forall|k: int| 0 <= k < i ==> white_space(#[trigger] s[k])
            &&& forall|k: int| j <= k < s.len() ==> white_space(#[trigger] s[k])
            &&& i < j ==> !white_space(s[i]) && !white_space(s[j - 1])
        };
    let a = s.subrange(0, i);
    let b = s.subrange(i, j);
    let c = s.subrange(j, s.len() as int);
    assert(s =~= (a + b) + c);
    lemma_ink_joins(a + b, c);
    lemma_ink_joins(a, b);
    lemma_no_ink(a);
    lemma_no_ink(c);
    assert(ink(s) =~= ink(b));
}

proof fn lemma_joined(a: Seq<Seq<char>>, b: Seq<Seq<char>>)
    ensures
        joined(a + b) == joined(a) + joined(b),
    decreases b.len(),
{
    if b.len() == 0 {
        assert(a + b =~= a);
        assert(joined(a) + joined(b) =~= joined(a));
    } else {
        assert((a + b).drop_last() =~= a + b.drop_last());
        lemma_joined(a, b.drop_last());
        assert(joined(a + b) =~= joined(a) + joined(b));
    }
}

proof fn lemma_one(t: Seq<char>)
    ensures
        joined(seq![t]) == t,
{
    assert(seq![t].drop_last() =~= Seq::<Seq<char>>::empty());
    assert(joined(Seq::<Seq<char>>::empty()) =~= Seq::<char>::empty());
    assert(joined(seq![t]) =~= t);
}

/// The piece of a text that its page `i` shows.
pub open spec fn piece(s: Seq<char>, i: int) -> Seq<char> {
    s.subrange(
        17 * i,
        if 17 * i + 17 <= s.len() {
            17 * i + 17
        } else {
            s.len() as int
        },
    )
}

proof fn lemma_paginated(s: Seq<char>)
    ensures
        paginated(s, 17).len() == (s.len() + 16) / 17,
        ink(joined(paginated(s, 17))) == ink(s),
        forall|i: int|
            0 <= i < paginated(s, 17).len() ==> #[trigger] paginated(s, 17)[i] == trim(
                piece(s, i),
            ),
    decreases s.len(),
{
    let all = paginated(s, 17);
    if s.len() == 0 {
        assert(s =~= Seq::<char>::empty());
    } else if s.len() <= 17 {
        lemma_one(trim(s));
        lemma_trim_keeps_ink(s);
        assert(piece(s, 0) =~= s);
    } else {
        let head = s.take(17);
        let tail = s.skip(17);
        let rest = paginated(tail, 17);
        lemma_paginated(tail);
        lemma_one(trim(head));
        lemma_joined(seq![trim(head)], rest);
        lemma_trim_keeps_ink(head);
        lemma_ink_joins(trim(head), joined(rest));
        lemma_ink_joins(head, tail);
        assert(head + tail =~= s);
        assert forall|i: int| 0 <= i < all.len() implies #[trigger] all[i] == trim(piece(s, i)) by {
            if i == 0 {
                assert(piece(s, 0) =~= head);
            } else {
                assert(all[i] == rest[i - 1]);
                assert(piece(s, i) =~= piece(tail, i - 1));
            }
        }
    }
}

proof fn lemma_dash(s: Seq<char>, j: int)
    ensures
        matches_at(s, " - "@, j) <==> dash_at(s, j),
        " - "@.len() == 3,
{
    reveal_strlit(" - ");
    if 0 <= j && j + 3 <= s.len() {
        let t = s.subrange(j, j + 3);
        assert(t[0] == s[j] && t[1] == s[j + 1] && t[2] == s[j + 2]);
        if dash_at(s, j) {
            assert(t =~= " - "@);
        }
    }
}

proof fn lemma_uncut(s: Seq<char>)
    requires
        forall|j: int| !#[trigger] dash_at(s, j),
    ensures
        header_pages(s) == paginated(s, 17),
{
    assert(!contains(s, " - "@)) by {
        if contains(s, " - "@) {
            let i = choose|i: int| #[trigger] matches_at(s, " - "@, i);
            lemma_dash(s, i);
        }
    }
    assert(chars_per_page(Font::Medium) == 17) by {
        assert(160nat / 9 == 17);
    }
    assert(cut_at(s, " - "@) =~= seq![s]);
    assert(seq![s].drop_last() =~= Seq::<Seq<char>>::empty());
    assert(pages_of(Seq::<Seq<char>>::empty()) =~= Seq::<Seq<char>>::empty());
    assert(pages_of(seq![s]) =~= paginated(s, 17));
}

/// No visible text is lost by paging: the pages of a text without " - " hold,
/// one behind the other, all of its visible characters in order. Each page is
/// the next seventeen characters of the text, trimmed, and there are as many
/// pages as it takes.
pub proof fn law_no_text_is_lost(s: Seq<char>)
    requires
        forall|j: int| !#[trigger] dash_at(s, j),
    ensures
        header_pages(s).len() == (s.len() + 16) / 17,
        ink(joined(header_pages(s))) == ink(s),
        forall|i: int|
            0 <= i < header_pages(s).len() ==> #[trigger] header_pages(s)[i] == trim(
                s.subrange(
                    17 * i,
                    if 17 * i + 17 <= s.len() {
                        17 * i + 17
                    } else {
                        s.len() as int
                    },
                ),
            ),
{
    lemma_uncut(s);
    lemma_paginated(s);
    assert forall|i: int| 0 <= i < header_pages(s).len() implies #[trigger] header_pages(s)[i]
        == trim(
        s.subrange(
            17 * i,
            if 17 * i + 17 <= s.len() {
                17 * i + 17
            } else {
                s.len() as int
            },
        ),
    ) by {
        assert(paginated(s, 17)[i] == trim(piece(s, i)));
    }
}

proof fn lemma_pages_join(a: Seq<Seq<char>>, b: Seq<Seq<char>>)
    ensures
        pages_of(a + b) == pages_of(a) + pages_of(b),
    decreases b.len(),
{
    if b.len() == 0 {
        assert(a + b =~= a);
        assert(pages_of(a) + pages_of(b) =~= pages_of(a));
    } else {
        assert((a + b).drop_last() =~= a + b.drop_last());
        lemma_pages_join(a, b.drop_last());
        assert(pages_of(a + b) =~= pages_of(a) + pages_of(b));
    }
}

/// The header turns from one part to the next at every " - ", from the left:
/// the pages of such a text are those of what stands before its first " - ",
/// then those of what stands behind it.
pub proof fn law_parts_are_paged_in_turn(s: Seq<char>, a: Seq<char>, b: Seq<char>)
    requires
        s == a + seq![' ', '-', ' '] + b,
        forall|j: int| j < a.len() ==> !#[trigger] dash_at(s, j),
    ensures
        header_pages(s) == header_pages(a) + header_pages(b),
{
    let sep = " - "@;
    let n = a.len() as int;
    lemma_dash(s, n);
    assert(dash_at(s, n));
    assert(first_match(s, sep, n)) by {
        assert forall|j: int| 0 <= j < n implies !#[trigger] matches_at(s, sep, j) by {
            lemma_dash(s, j);
        }
    }
    let f = choose|f: int| first_match(s, sep, f);
    assert(f == n);
    assert(find(s, sep) == Some(n));
    assert(s.take(n) =~= a);
    assert(s.skip(n + 3) =~= b);
    assert(cut_at(s, sep) == seq![a] + cut_at(b, sep));
    lemma_pages_join(seq![a], cut_at(b, sep));
    assert forall|j: int| !#[trigger] dash_at(a, j) by {
        if dash_at(a, j) {
            assert(dash_at(s, j));
        }
    }
    lemma_uncut(a);
    assert(chars_per_page(Font::Medium) == 17) by {
        assert(160nat / 9 == 17);
    }
    assert(seq![a].drop_last() =~= Seq::<Seq<char>>::empty());
    assert(pages_of(Seq::<Seq<char>>::empty()) =~= Seq::<Seq<char>>::empty());
    assert(pages_of(seq![a]) =~= paginated(a, 17));
}

} // verus!
