//! Text as sequences of characters: trimming, splitting, searching, numbers.

use vstd::prelude::*;
use vstd::slice::slice_subrange;

verus! {

// ---- building strings ----

/// Specifies `String::push`: the character is added at the end.
pub assume_specification[ String::push ](s: &mut String, c: char)
    ensures
        final(s)@ == old(s)@.push(c),
;

/// What `str::to_lowercase` makes of a text.
pub uninterp spec fn lowercase(s: Seq<char>) -> Seq<char>;

/// Calls `str::to_lowercase`. The result depends on the text alone; which
/// characters it maps to which is Unicode's matter and is not said here.
#[verifier::external_body]
pub(crate) fn to_lowercase(s: &str) -> (r: String)
    ensures
        r@ == lowercase(s@),
{
    s.to_lowercase()
}

/// The characters of a string.
pub fn chars_of(s: &str) -> (v: Vec<char>)
    ensures
        v@ == s@,
{
    let mut v: Vec<char> = Vec::new();
    for c in it: s.chars()
        invariant
            it.seq() == s@,
            v@ == s@.take(it.index() as int),
    {
        v.push(c);
    }
    v
}

/// Whether two strings hold the same characters.
pub fn equal_text(a: &str, b: &str) -> (r: bool)
    ensures
        r == (a@ == b@),
{
    let x = chars_of(a);
    let y = chars_of(b);
    if x.len() != y.len() {
        return false;
    }
    let mut i: usize = 0;
    while i < x.len()
        invariant
            x@ == a@,
            y@ == b@,
            x@.len() == y@.len(),
            i <= x@.len(),
            forall|k: int| 0 <= k < i ==> x@[k] == y@[k],
        decreases x@.len() - i,
    {
        if x[i] != y[i] {
            return false;
        }
        i = i + 1;
    }
    assert(a@ =~= b@);
    true
}

/// A string of the given characters.
pub fn string_of(v: &[char]) -> (s: String)
    ensures
        s@ == v@,
{
    let mut s = String::new();
    let mut i: usize = 0;
    while i < v.len()
        invariant
            i <= v@.len(),
            s@ == v@.take(i as int),
        decreases v@.len() - i,
    {
        s.push(v[i]);
        i = i + 1;
    }
    s
}

// ---- classes of characters ----

/// Whether a character has Unicode's White_Space property.
pub open spec fn white_space(c: char) -> bool {
    let u = c as u32;
    ||| 0x09 <= u <= 0x0d
    ||| u == 0x20
    ||| u == 0x85
    ||| u == 0xa0
    ||| u == 0x1680
    ||| 0x2000 <= u <= 0x200a
    ||| u == 0x2028
    ||| u == 0x2029
    ||| u == 0x202f
    ||| u == 0x205f
    ||| u == 0x3000
}

/// Whether `c` is white space.
pub fn is_white_space(c: char) -> (r: bool)
    ensures
        r == white_space(c),
{
    let u: u32 = c as u32;
    (0x09 <= u && u <= 0x0d) || u == 0x20 || u == 0x85 || u == 0xa0 || u == 0x1680 || (0x2000 <= u
        && u <= 0x200a) || u == 0x2028 || u == 0x2029 || u == 0x202f || u == 0x205f || u == 0x3000
}

/// A class of characters.
#[derive(Clone, Copy)]
pub enum Class {
    /// White space.
    White,
    /// Anything but white space.
    Ink,
    /// One character.
    Only(char),
    /// Anything but one character.
    Except(char),
    /// The digits 0 to 9.
    Digit,
    /// The letters a to z and A to Z.
    Letter,
}

impl Class {
    /// Whether the class holds `c`.
    pub open spec fn holds(self, c: char) -> bool {
        match self {
            Class::White => white_space(c),
            Class::Ink => !white_space(c),
            Class::Only(x) => c == x,
            Class::Except(x) => c != x,
            Class::Digit => '0' <= c <= '9',
            Class::Letter => 'a' <= c <= 'z' || 'A' <= c <= 'Z',
        }
    }

    /// Whether the class holds `c`.
    pub fn has(self, c: char) -> (r: bool)
        ensures
            r == self.holds(c),
    {
        match self {
            Class::White => is_white_space(c),
            Class::Ink => !is_white_space(c),
            Class::Only(x) => c == x,
            Class::Except(x) => c != x,
            Class::Digit => '0' <= c && c <= '9',
            Class::Letter => ('a' <= c && c <= 'z') || ('A' <= c && c <= 'Z'),
        }
    }
}

/// Length of the longest prefix of `s` made of characters of `k`.
pub open spec fn run(s: Seq<char>, k: Class) -> nat
    decreases s.len(),
{
    if s.len() > 0 && k.holds(s[0]) {
        1 + run(s.drop_first(), k)
    } else {
        0
    }
}

/// Length of the longest suffix of `s` made of characters of `k`.
pub open spec fn run_back(s: Seq<char>, k: Class) -> nat
    decreases s.len(),
{
    if s.len() > 0 && k.holds(s.last()) {
        1 + run_back(s.drop_last(), k)
    } else {
        0
    }
}

/// What pins `run` down: everything before `n` is in the class, and `n` is
/// the end or out of the class.
pub proof fn lemma_run(s: Seq<char>, k: Class, n: int)
    requires
        0 <= n <= s.len(),
        forall|j: int| 0 <= j < n ==> k.holds(#[trigger] s[j]),
        n < s.len() ==> !k.holds(s[n]),
    ensures
        run(s, k) == n,
    decreases n,
{
    if n > 0 {
        assert(k.holds(s[0]));
        assert forall|j: int| 0 <= j < n - 1 implies k.holds(#[trigger] s.drop_first()[j]) by {
            assert(k.holds(s[j + 1]));
        }
        lemma_run(s.drop_first(), k, n - 1);
    }
}

/// `run` never exceeds the text, all of it is in the class, and it stops at
/// a character out of the class.
pub proof fn lemma_run_facts(s: Seq<char>, k: Class)
    ensures
        0 <= run(s, k) <= s.len(),
        forall|j: int| 0 <= j < run(s, k) ==> k.holds(#[trigger] s[j]),
        run(s, k) < s.len() ==> !k.holds(s[run(s, k) as int]),
    decreases s.len(),
{
    if s.len() > 0 && k.holds(s[0]) {
        let t = s.drop_first();
        lemma_run_facts(t, k);
        assert forall|j: int| 0 <= j < run(s, k) implies k.holds(#[trigger] s[j]) by {
            if j > 0 {
                assert(s[j] == t[j - 1]);
            }
        }
        if run(s, k) < s.len() {
            assert(s[run(s, k) as int] == t[run(t, k) as int]);
        }
    }
}

proof fn lemma_run_back(s: Seq<char>, k: Class, n: int)
    requires
        0 <= n <= s.len(),
        forall|j: int| s.len() - n <= j < s.len() ==> k.holds(#[trigger] s[j]),
        n < s.len() ==> !k.holds(s[s.len() - n - 1]),
    ensures
        run_back(s, k) == n,
    decreases n,
{
    if n > 0 {
        assert(k.holds(s[s.len() - 1]));
        let t = s.drop_last();
        assert forall|j: int| t.len() - (n - 1) <= j < t.len() implies k.holds(#[trigger] t[j]) by {
            assert(k.holds(s[j]));
        }
        lemma_run_back(t, k, n - 1);
    }
}

/// `run_back` never exceeds the text, all of it is in the class, and it stops
/// at a character out of the class.
pub proof fn lemma_run_back_facts(s: Seq<char>, k: Class)
    ensures
        0 <= run_back(s, k) <= s.len(),
        forall|j: int| s.len() - run_back(s, k) <= j < s.len() ==> k.holds(#[trigger] s[j]),
        run_back(s, k) < s.len() ==> !k.holds(s[s.len() - run_back(s, k) - 1]),
    decreases s.len(),
{
    if s.len() > 0 && k.holds(s.last()) {
        let t = s.drop_last();
        lemma_run_back_facts(t, k);
        assert forall|j: int| s.len() - run_back(s, k) <= j < s.len() implies k.holds(
            #[trigger] s[j],
        ) by {
            if j < t.len() {
                assert(s[j] == t[j]);
            }
        }
        if run_back(s, k) < s.len() {
            assert(s[s.len() - run_back(s, k) - 1] == t[t.len() - run_back(t, k) - 1]);
        }
    }
}

/// `run_back` never exceeds the text.
pub proof fn lemma_run_back_len(s: Seq<char>, k: Class)
    ensures
        0 <= run_back(s, k) <= s.len(),
    decreases s.len(),
{
    if s.len() > 0 && k.holds(s.last()) {
        lemma_run_back_len(s.drop_last(), k);
    }
}

/// Length of the longest prefix made of characters of `k`.
pub fn run_len(s: &[char], k: Class) -> (n: usize)
    ensures
        n == run(s@, k),
        n <= s@.len(),
{
    let mut n: usize = 0;
    while n < s.len() && k.has(s[n])
        invariant
            n <= s@.len(),
            forall|j: int| 0 <= j < n ==> k.holds(#[trigger] s@[j]),
        decreases s@.len() - n,
    {
        n = n + 1;
    }
    proof {
        lemma_run(s@, k, n as int);
    }
    n
}

/// Length of the longest suffix made of characters of `k`.
pub fn run_back_len(s: &[char], k: Class) -> (n: usize)
    ensures
        n == run_back(s@, k),
        n <= s@.len(),
{
    let mut n: usize = 0;
    while n < s.len() && k.has(s[s.len() - n - 1])
        invariant
            n <= s@.len(),
            forall|j: int| s@.len() - n <= j < s@.len() ==> k.holds(#[trigger] s@[j]),
        decreases s@.len() - n,
    {
        n = n + 1;
    }
    proof {
        lemma_run_back(s@, k, n as int);
    }
    n
}

/// Whether all of `s` is in the class.
pub open spec fn all_in(s: Seq<char>, k: Class) -> bool {
    forall|j: int| 0 <= j < s.len() ==> k.holds(#[trigger] s[j])
}

/// Whether all of `s` is in the class.
pub fn is_all(s: &[char], k: Class) -> (r: bool)
    ensures
        r == all_in(s@, k),
{
    let n: usize = run_len(s, k);
    proof {
        lemma_run_facts(s@, k);
    }
    n == s.len()
}

// ---- trimming and splitting ----

/// `s` without its leading white space.
pub open spec fn trim_start(s: Seq<char>) -> Seq<char> {
    s.skip(run(s, Class::White) as int)
}

/// `s` without its trailing white space.
pub open spec fn trim_end(s: Seq<char>) -> Seq<char> {
    s.take(s.len() - run_back(s, Class::White))
}

/// `s` without white space at either end.
pub open spec fn trim(s: Seq<char>) -> Seq<char> {
    trim_end(trim_start(s))
}

/// `s` without its leading white space.
pub fn trimmed_start(s: &[char]) -> (r: &[char])
    ensures
        r@ == trim_start(s@),
{
    let n: usize = run_len(s, Class::White);
    slice_subrange(s, n, s.len())
}

/// `s` without white space at either end.
pub fn trimmed(s: &[char]) -> (r: &[char])
    ensures
        r@ == trim(s@),
{
    let t = trimmed_start(s);
    let n: usize = run_back_len(t, Class::White);
    slice_subrange(t, 0, t.len() - n)
}

/// What stands before the first `c`, or all of `s` where there is none.
pub open spec fn before(s: Seq<char>, c: char) -> Seq<char> {
    s.take(run(s, Class::Except(c)) as int)
}

/// What stands before the first `c`, or all of `s` where there is none.
pub fn prefix_before(s: &[char], c: char) -> (r: &[char])
    ensures
        r@ == before(s@, c),
{
    let n: usize = run_len(s, Class::Except(c));
    slice_subrange(s, 0, n)
}

/// The views of a list of texts.
pub open spec fn views(v: Seq<Vec<char>>) -> Seq<Seq<char>> {
    Seq::new(v.len(), |i: int| v[i]@)
}

/// A line without the carriage return at its end, if it has one.
pub open spec fn without_cr(s: Seq<char>) -> Seq<char> {
    if s.len() > 0 && s.last() == '\r' {
        s.drop_last()
    } else {
        s
    }
}

/// The lines of a text: split at line feeds, each without the carriage
/// return before its line feed, and no empty line behind a final line feed.
pub open spec fn lines(s: Seq<char>) -> Seq<Seq<char>>
    decreases s.len(),
{
    let n = run(s, Class::Except('\n'));
    if s.len() == 0 {
        Seq::empty()
    } else if n >= s.len() {
        seq![s]
    } else {
        seq![without_cr(s.take(n as int))] + lines(s.skip(n as int + 1))
    }
}

/// A copy of a slice.
pub fn copy_chars(s: &[char]) -> (v: Vec<char>)
    ensures
        v@ == s@,
{
    let mut v: Vec<char> = Vec::new();
    let mut i: usize = 0;
    while i < s.len()
        invariant
            i <= s@.len(),
            v@ == s@.take(i as int),
        decreases s@.len() - i,
    {
        v.push(s[i]);
        i = i + 1;
    }
    v
}

/// The lines of a text.
pub fn split_lines(s: &[char]) -> (r: Vec<Vec<char>>)
    ensures
        views(r@) == lines(s@),
{
    let mut r: Vec<Vec<char>> = Vec::new();
    let mut at: usize = 0;
    assert(s@.skip(0) == s@);
    assert(views(r@) =~= Seq::<Seq<char>>::empty());
    while at < s.len()
        invariant
            at <= s@.len(),
            views(r@) + lines(s@.skip(at as int)) == lines(s@),
        decreases s@.len() - at,
    {
        let rest = slice_subrange(s, at, s.len());
        assert(rest@ == s@.skip(at as int));
        let n: usize = run_len(rest, Class::Except('\n'));
        let ghost before = r@;
        if n < rest.len() {
            let m: usize = if n > 0 && rest[n - 1] == '\r' {
                n - 1
            } else {
                n
            };
            let line = copy_chars(slice_subrange(rest, 0, m));
            assert(line@ == without_cr(rest@.take(n as int)));
            r.push(line);
            assert(rest@.skip(n + 1) == s@.skip(at + n + 1));
            assert(views(r@) =~= views(before) + seq![line@]);
            assert(views(r@) + lines(s@.skip(at + n + 1)) =~= views(before) + (seq![line@] + lines(
                s@.skip(at + n + 1),
            )));
            at = at + n + 1;
        } else {
            let line = copy_chars(rest);
            r.push(line);
            assert(views(r@) =~= views(before) + seq![rest@]);
            at = s.len();
            assert(s@.skip(at as int).len() == 0);
            assert(views(r@) + lines(s@.skip(at as int)) =~= views(r@));
        }
    }
    assert(s@.skip(at as int).len() == 0);
    assert(views(r@) + lines(s@.skip(at as int)) =~= views(r@));
    r
}

/// The pieces of a text between the occurrences of `c`.
pub open spec fn pieces(s: Seq<char>, c: char) -> Seq<Seq<char>>
    decreases s.len(),
{
    let n = run(s, Class::Except(c));
    if n < s.len() {
        proof {
            lemma_run_facts(s, Class::Except(c));
        }
        seq![s.take(n as int)] + pieces(s.skip(n as int + 1), c)
    } else {
        seq![s]
    }
}

/// The pieces of a text between the occurrences of `c`.
pub fn split_at_char(s: &[char], c: char) -> (r: Vec<Vec<char>>)
    ensures
        views(r@) == pieces(s@, c),
{
    let mut r: Vec<Vec<char>> = Vec::new();
    let mut rest = s;
    assert(views(r@) =~= Seq::<Seq<char>>::empty());
    assert(views(r@) + pieces(s@, c) =~= pieces(s@, c));
    loop
        invariant_except_break
            views(r@) + pieces(rest@, c) == pieces(s@, c),
        ensures
            views(r@) == pieces(s@, c),
        decreases rest@.len(),
    {
        let n: usize = run_len(rest, Class::Except(c));
        let ghost before = r@;
        if n >= rest.len() {
            let last = copy_chars(rest);
            r.push(last);
            assert(views(r@) =~= views(before) + seq![rest@]);
            break;
        }
        let piece = copy_chars(slice_subrange(rest, 0, n));
        r.push(piece);
        let tail = slice_subrange(rest, n + 1, rest.len());
        assert(tail@ == rest@.skip(n as int + 1));
        assert(views(r@) =~= views(before) + seq![piece@]);
        assert(views(r@) + pieces(tail@, c) =~= views(before) + (seq![piece@] + pieces(tail@, c)));
        rest = tail;
    }
    r
}

/// The words of a text: its maximal runs of characters that are not white
/// space, in order.
pub open spec fn words(s: Seq<char>) -> Seq<Seq<char>>
    decreases s.len(),
    via words_decreases
{
    let t = trim_start(s);
    let n = run(t, Class::Ink);
    if t.len() == 0 {
        Seq::empty()
    } else {
        seq![t.take(n as int)] + words(t.skip(n as int))
    }
}

#[via_fn]
proof fn words_decreases(s: Seq<char>) {
    lemma_run_facts(s, Class::White);
    let t = trim_start(s);
    lemma_run_facts(t, Class::Ink);
    if t.len() > 0 {
        assert(t[0] == s[run(s, Class::White) as int]);
    }
}

/// The words of a text.
pub fn split_words(s: &[char]) -> (r: Vec<Vec<char>>)
    ensures
        views(r@) == words(s@),
{
    let mut r: Vec<Vec<char>> = Vec::new();
    let mut rest = s;
    assert(views(r@) =~= Seq::<Seq<char>>::empty());
    assert(views(r@) + words(s@) =~= words(s@));
    loop
        invariant
            views(r@) + words(rest@) == words(s@),
        ensures
            views(r@) == words(s@),
        decreases rest@.len(),
    {
        let t = trimmed_start(rest);
        proof {
            lemma_run_facts(rest@, Class::White);
        }
        if t.len() == 0 {
            assert(views(r@) + words(rest@) =~= views(r@));
            break;
        }
        let n: usize = run_len(t, Class::Ink);
        proof {
            lemma_run_facts(t@, Class::Ink);
            assert(t@[0] == rest@[run(rest@, Class::White) as int]);
        }
        let ghost before = r@;
        let word = copy_chars(slice_subrange(t, 0, n));
        r.push(word);
        let tail = slice_subrange(t, n, t.len());
        assert(tail@ == t@.skip(n as int));
        assert(views(r@) =~= views(before) + seq![word@]);
        assert(views(r@) + words(tail@) =~= views(before) + (seq![word@] + words(tail@)));
        rest = tail;
    }
    r
}

// ---- searching ----

/// Whether `needle` stands in `hay` at position `i`.
pub open spec fn matches_at(hay: Seq<char>, needle: Seq<char>, i: int) -> bool {
    &&& 0 <= i
    &&& i + needle.len() <= hay.len()
    &&& hay.subrange(i, i + needle.len()) == needle
}

/// Whether `i` is the first position at which `needle` stands in `hay`.
pub open spec fn first_match(hay: Seq<char>, needle: Seq<char>, i: int) -> bool {
    &&& matches_at(hay, needle, i)
    &&& forall|j: int| 0 <= j < i ==> !#[trigger] matches_at(hay, needle, j)
}

/// Whether `needle` stands anywhere in `hay`.
pub open spec fn contains(hay: Seq<char>, needle: Seq<char>) -> bool {
    exists|i: int| #[trigger] matches_at(hay, needle, i)
}

/// The first position of `needle` in `hay`.
pub open spec fn find(hay: Seq<char>, needle: Seq<char>) -> Option<int> {
    if contains(hay, needle) {
        Some(choose|i: int| first_match(hay, needle, i))
    } else {
        None
    }
}

/// Whether `s` begins with `prefix`.
pub open spec fn starts_with(s: Seq<char>, prefix: Seq<char>) -> bool {
    matches_at(s, prefix, 0)
}

/// Whether `s` ends in `suffix`.
pub open spec fn ends_with(s: Seq<char>, suffix: Seq<char>) -> bool {
    matches_at(s, suffix, s.len() - suffix.len())
}

/// Whether `needle` stands in `hay` at position `i`.
pub fn stands_at(hay: &[char], needle: &[char], i: usize) -> (r: bool)
    ensures
        r == matches_at(hay@, needle@, i as int),
{
    if i > hay.len() || hay.len() - i < needle.len() {
        return false;
    }
    let mut j: usize = 0;
    while j < needle.len()
        invariant
            i + needle@.len() <= hay.len(),
            hay.len() == hay@.len(),
            j <= needle@.len(),
            forall|k: int| 0 <= k < j ==> hay@[i + k] == #[trigger] needle@[k],
        decreases needle@.len() - j,
    {
        if hay[i + j] != needle[j] {
            assert(hay@.subrange(i as int, i + needle@.len())[j as int] != needle@[j as int]);
            return false;
        }
        j = j + 1;
    }
    assert(hay@.subrange(i as int, i + needle@.len()) =~= needle@);
    true
}

/// The first position of `needle` in `hay`.
pub fn find_in(hay: &[char], needle: &[char]) -> (r: Option<usize>)
    ensures
        match r {
            Some(i) => find(hay@, needle@) == Some(i as int) && first_match(
                hay@,
                needle@,
                i as int,
            ) && i + needle.len() <= hay.len(),
            None => find(hay@, needle@) is None,
        },
{
    let mut i: usize = 0;
    loop
        invariant
            i <= hay@.len(),
            forall|j: int| 0 <= j < i ==> !#[trigger] matches_at(hay@, needle@, j),
        decreases hay@.len() - i,
    {
        if stands_at(hay, needle, i) {
            proof {
                assert(first_match(hay@, needle@, i as int));
                let k = choose|k: int| first_match(hay@, needle@, k);
                assert(k == i);
            }
            return Some(i);
        }
        if i == hay.len() {
            return None;
        }
        i = i + 1;
    }
}

/// Whether `needle` stands anywhere in `hay`.
pub fn holds_text(hay: &[char], needle: &str) -> (r: bool)
    ensures
        r == contains(hay@, needle@),
{
    let n = chars_of(needle);
    let found = find_in(hay, &n);
    proof {
        if found is Some {
            assert(matches_at(hay@, needle@, found->0 as int));
        }
    }
    found.is_some()
}

/// Whether `s` begins with `prefix`.
pub fn begins_with(s: &[char], prefix: &str) -> (r: bool)
    ensures
        r == starts_with(s@, prefix@),
{
    let p = chars_of(prefix);
    stands_at(s, &p, 0)
}

/// Whether two texts are the same.
pub fn same_text(s: &[char], other: &str) -> (r: bool)
    ensures
        r == (s@ == other@),
{
    let o = chars_of(other);
    if s.len() != o.len() {
        return false;
    }
    let r = stands_at(s, &o, 0);
    assert(s@.subrange(0, s@.len() as int) == s@);
    r
}

} // verus!
