//! The host: its disks, its network, its names, its uptime, its guests.

use vstd::prelude::*;

use crate::host::{
    count_set, flags_of, ids_of, kernel_name, line_ops, names_on, net_totals, number_or_zero,
    ops_between, physical, qualified, qualified_name, qualified_word, total_ops, uptime,
    whole_disk, without_0x, Interface,
};
use crate::laws::figures::read;
use crate::laws::texts::{
    law_digits_are_numbers, law_searches_find_the_first, lemma_stands, stands,
};
use crate::numbers::{all_digits, decimal, digits_value, is_digit};
use crate::text::{all_in, before, lines, starts_with, trim, words, Class};

verus! {

// ---- disks ----

proof fn lemma_tail(name: Seq<char>, head: Seq<char>, rest: Seq<char>)
    requires
        name == head + rest,
    ensures
        stands(name, head, 0),
        name.skip(head.len() as int) == rest,
{
    assert(name.skip(head.len() as int) =~= rest);
}

proof fn lemma_not_both(name: Seq<char>, a: Seq<char>, b: Seq<char>, k: int)
    requires
        stands(name, a, 0),
        0 <= k < a.len(),
        k < b.len(),
        a[k] != b[k],
    ensures
        !stands(name, b, 0),
{
    assert(name[0 + k] == a[k]);
    if stands(name, b, 0) {
        assert(name[0 + k] == b[k]);
    }
}

/// A whole NVMe drive has no partition's "p" behind "nvme", a whole memory
/// card nothing but digits behind "mmcblk", any other whole disk nothing but
/// letters behind "sd", "vd" or "hd"; nothing else is a whole disk.
pub proof fn law_whole_disks(name: Seq<char>, rest: Seq<char>)
    ensures
        name == "nvme"@ + rest ==> (whole_disk(name) <==> !rest.contains('p')),
        name == "mmcblk"@ + rest ==> (whole_disk(name) <==> forall|k: int|
            0 <= k < rest.len() ==> '0' <= #[trigger] rest[k] <= '9'),
        name == "sd"@ + rest || name == "vd"@ + rest || name == "hd"@ + rest ==> (whole_disk(name)
            <==> forall|k: int|
            0 <= k < rest.len() ==> 'a' <= #[trigger] rest[k] <= 'z' || 'A' <= rest[k] <= 'Z'),
        whole_disk(name) ==> {
            ||| stands(name, "nvme"@, 0)
            ||| stands(name, "mmcblk"@, 0)
            ||| stands(name, "sd"@, 0)
            ||| stands(name, "vd"@, 0)
            ||| stands(name, "hd"@, 0)
        },
{
    lemma_begins(name, "nvme"@);
    lemma_begins(name, "mmcblk"@);
    lemma_begins(name, "sd"@);
    lemma_begins(name, "vd"@);
    lemma_begins(name, "hd"@);
    lemma_nvme(name, rest);
    lemma_card(name, rest);
    lemma_disk(name, "sd"@, rest);
    lemma_disk(name, "vd"@, rest);
    lemma_disk(name, "hd"@, rest);
}

proof fn lemma_begins(s: Seq<char>, t: Seq<char>)
    ensures
        starts_with(s, t) <==> stands(s, t, 0),
{
    lemma_stands(s, t, 0);
}

proof fn lemma_nvme(name: Seq<char>, rest: Seq<char>)
    ensures
        name == "nvme"@ + rest ==> (whole_disk(name) <==> !rest.contains('p')),
{
    if name == "nvme"@ + rest {
        reveal_strlit("nvme");
        lemma_begins(name, "nvme"@);
        lemma_tail(name, "nvme"@, rest);
        if whole_disk(name) && rest.contains('p') {
            let k = choose|k: int| 0 <= k < rest.len() && rest[k] == 'p';
            assert(Class::Except('p').holds(rest[k]));
        }
        if !rest.contains('p') {
            assert(all_in(rest, Class::Except('p')));
        }
    }
}

proof fn lemma_card(name: Seq<char>, rest: Seq<char>)
    ensures
        name == "mmcblk"@ + rest ==> (whole_disk(name) <==> forall|k: int|
            0 <= k < rest.len() ==> '0' <= #[trigger] rest[k] <= '9'),
{
    if name == "mmcblk"@ + rest {
        reveal_strlit("nvme");
        reveal_strlit("mmcblk");
        lemma_begins(name, "nvme"@);
        lemma_begins(name, "mmcblk"@);
        lemma_tail(name, "mmcblk"@, rest);
        lemma_not_both(name, "mmcblk"@, "nvme"@, 0);
        if whole_disk(name) {
            assert forall|k: int| 0 <= k < rest.len() implies '0' <= #[trigger] rest[k] <= '9' by {
                assert(Class::Digit.holds(rest[k]));
            }
        }
    }
}

proof fn lemma_disk(name: Seq<char>, head: Seq<char>, rest: Seq<char>)
    requires
        head == "sd"@ || head == "vd"@ || head == "hd"@,
    ensures
        name == head + rest ==> (whole_disk(name) <==> forall|k: int|
            0 <= k < rest.len() ==> 'a' <= #[trigger] rest[k] <= 'z' || 'A' <= rest[k] <= 'Z'),
{
    if name == head + rest {
        reveal_strlit("nvme");
        reveal_strlit("mmcblk");
        reveal_strlit("sd");
        reveal_strlit("vd");
        reveal_strlit("hd");
        lemma_begins(name, "nvme"@);
        lemma_begins(name, "mmcblk"@);
        lemma_begins(name, head);
        lemma_tail(name, head, rest);
        lemma_not_both(name, head, "nvme"@, 0);
        lemma_not_both(name, head, "mmcblk"@, 0);
        assert(whole_disk(name) <==> all_in(rest, Class::Letter));
        if whole_disk(name) {
            assert forall|k: int| 0 <= k < rest.len() implies 'a' <= #[trigger] rest[k] <= 'z'
                || 'A' <= rest[k] <= 'Z' by {
                assert(Class::Letter.holds(rest[k]));
            }
        }
    }
}

/// A line of the disk statistics counts what its fourth and its eighth word
/// say, reads and writes, where its third names a whole disk; a shorter line,
/// or one about anything else, counts nothing.
pub proof fn law_lines_count_reads_and_writes(line: Seq<char>)
    ensures
        words(line).len() >= 8 && whole_disk(words(line)[2]) ==> line_ops(line) == number_or_zero(
            words(line)[3],
        ) + number_or_zero(words(line)[7]),
        words(line).len() < 8 ==> line_ops(line) == 0,
        words(line).len() >= 8 && !whole_disk(words(line)[2]) ==> line_ops(line) == 0,
        total_ops(seq![line]) == line_ops(line),
        total_ops(Seq::empty()) == 0,
{
    assert(seq![line].drop_last() =~= Seq::<Seq<char>>::empty());
    assert(total_ops(Seq::<Seq<char>>::empty()) == 0);
}

/// A word of digits counts as the number that it writes, if that fits 64 bits;
/// one with another character behind its first counts as nothing.
pub proof fn law_words_count_as_numbers(w: Seq<char>, i: int)
    ensures
        w.len() > 0 && read(w) <= u64::MAX && (forall|k: int|
            0 <= k < w.len() ==> '0' <= #[trigger] w[k] <= '9') ==> number_or_zero(w) == read(w),
        0 < i < w.len() && !('0' <= w[i] <= '9') ==> number_or_zero(w) == 0,
        w.len() == 0 ==> number_or_zero(w) == 0,
{
    law_digits_are_numbers(w, u64::MAX as nat, i);
}

/// What has been counted since the previous reading: the difference, nothing
/// where the counter fell back or a reading is missing.
pub proof fn law_counts_since_the_previous_reading(p: u64, c: u64, other: Option<u64>)
    ensures
        ops_between(Some(p), Some(c)) + p == c || (c < p && ops_between(Some(p), Some(c)) == 0),
        ops_between(None, other) == 0,
        ops_between(other, None) == 0,
{
}

// ---- network ----

/// An interface counts, with all that it received and sent, exactly when its
/// name begins like that of a network card: "en", "eth" or "wl".
pub proof fn law_network_cards_count(i: Interface)
    ensures
        ({
            let card = stands(i.0@, "en"@, 0) || stands(i.0@, "eth"@, 0) || stands(i.0@, "wl"@, 0);
            &&& card ==> net_totals(seq![i]) == (i.1 as nat, i.2 as nat)
            &&& !card ==> net_totals(seq![i]) == (0nat, 0nat)
            &&& net_totals(Seq::empty()) == (0nat, 0nat)
        }),
{
    law_searches_find_the_first(i.0@, "en"@, 0);
    law_searches_find_the_first(i.0@, "eth"@, 0);
    law_searches_find_the_first(i.0@, "wl"@, 0);
    assert(physical(i.0@) <==> (stands(i.0@, "en"@, 0) || stands(i.0@, "eth"@, 0) || stands(
        i.0@,
        "wl"@,
        0,
    )));
    assert(seq![i].drop_last() =~= Seq::<Interface>::empty());
    assert(net_totals(Seq::<Interface>::empty()) == (0nat, 0nat));
}

// ---- names ----

/// The kernel's name is what procfs says, trimmed; where that cannot be read,
/// what the system says if it says anything, and "unknown" otherwise.
pub proof fn law_kernel_names(procfs: Seq<char>, libc: Seq<char>, other: Option<Seq<char>>)
    ensures
        kernel_name(Some(procfs), other) == trim(procfs),
        libc.len() > 0 ==> kernel_name(None, Some(libc)) == libc,
        libc.len() == 0 ==> kernel_name(None, Some(libc)) == "unknown"@,
        kernel_name(None, None) == "unknown"@,
{
}

/// Whether a name is the short name with a domain behind it.
pub open spec fn extends(name: Seq<char>, short: Seq<char>) -> bool {
    &&& name.len() > short.len()
    &&& stands(name, short, 0)
    &&& name[short.len() as int] == '.'
}

proof fn lemma_extends(name: Seq<char>, short: Seq<char>)
    ensures
        extends(name, short) <==> stands(name, short.push('.'), 0),
{
    let dotted = short.push('.');
    if extends(name, short) {
        assert forall|k: int| 0 <= k < dotted.len() implies name[0 + k] == #[trigger] dotted[k] by {
            if k < short.len() {
                assert(name[0 + k] == short[k]);
            }
        }
    }
    if stands(name, dotted, 0) {
        assert(name[0int + short.len()] == dotted[short.len() as int]);
        assert forall|k: int| 0 <= k < short.len() implies name[0 + k] == #[trigger] short[k] by {
            assert(name[0 + k] == dotted[k]);
        }
    }
}

/// Of a list of names the first that extends the short name is taken.
pub proof fn law_first_name_that_extends(ws: Seq<Seq<char>>, short: Seq<char>, i: int)
    ensures
        0 <= i < ws.len() && extends(ws[i], short) && (forall|j: int|
            0 <= j < i ==> !extends(#[trigger] ws[j], short)) ==> qualified_word(ws, short) == Some(
            ws[i],
        ),
        (forall|j: int| 0 <= j < ws.len() ==> !extends(#[trigger] ws[j], short)) ==> qualified_word(
            ws,
            short,
        ) is None,
    decreases ws.len(),
{
    if ws.len() > 0 {
        let t = ws.drop_first();
        law_first_name_that_extends(t, short, i - 1);
        lemma_extends(ws[0], short);
        law_searches_find_the_first(ws[0], short.push('.'), 0);
        if 0 <= i < ws.len() && extends(ws[i], short) && (forall|j: int|
            0 <= j < i ==> !extends(#[trigger] ws[j], short)) {
            if i > 0 {
                assert(!extends(ws[0], short));
                assert(t[i - 1] == ws[i]);
                assert forall|j: int| 0 <= j < i - 1 implies !extends(#[trigger] t[j], short) by {
                    assert(t[j] == ws[j + 1]);
                }
            }
        }
        if forall|j: int| 0 <= j < ws.len() ==> !extends(#[trigger] ws[j], short) {
            assert(!extends(ws[0], short));
            assert forall|j: int| 0 <= j < t.len() implies !extends(#[trigger] t[j], short) by {
                assert(t[j] == ws[j + 1]);
            }
        }
    }
}

/// A hosts file is read line by line from the top: the first line with a name
/// that extends the short one gives the full name. The names on a line are its
/// words behind the first, up to a comment.
pub proof fn law_hosts_are_read_from_the_top(
    line: Seq<char>,
    below: Seq<Seq<char>>,
    short: Seq<char>,
)
    ensures
        qualified_word(names_on(line), short) is Some ==> qualified_name(
            seq![line] + below,
            short,
        ) == qualified_word(names_on(line), short),
        qualified_word(names_on(line), short) is None ==> qualified_name(seq![line] + below, short)
            == qualified_name(below, short),
        qualified_name(Seq::empty(), short) is None,
        names_on(line).len() == 0 <==> words(before(line, '#')).len() <= 1,
        forall|k: int|
            0 <= k < names_on(line).len() ==> #[trigger] names_on(line)[k] == words(
                before(line, '#'),
            )[k + 1],
        words(before(line, '#')).len() >= 1 ==> names_on(line).len() == words(
            before(line, '#'),
        ).len() - 1,
{
    let all = seq![line] + below;
    assert(all[0] == line);
    assert(all.drop_first() =~= below);
}

/// The full name of the host: its own name where that has a dot, else the
/// first in the hosts file that extends it, else its own name.
pub proof fn law_full_names(kernel: Seq<char>, hosts: Seq<char>)
    ensures
        kernel.contains('.') ==> qualified(kernel, Some(hosts)) == kernel,
        qualified(kernel, None) == kernel,
        !kernel.contains('.') ==> qualified(kernel, Some(hosts)) == (match qualified_name(
            lines(hosts),
            kernel,
        ) {
            Some(n) => n,
            None => kernel,
        }),
{
    if kernel.contains('.') {
        let k = choose|k: int| 0 <= k < kernel.len() && kernel[k] == '.';
        assert(!Class::Except('.').holds(kernel[k]));
    } else {
        assert forall|k: int| 0 <= k < kernel.len() implies Class::Except('.').holds(
            #[trigger] kernel[k],
        ) by {
            assert(kernel.contains(kernel[k]));
        }
    }
}

// ---- throttling ----

/// The value of a hexadecimal digit.
pub open spec fn hex(c: char) -> int {
    if '0' <= c <= '9' {
        c as u32 - '0' as u32
    } else if 'a' <= c <= 'f' {
        c as u32 - 'a' as u32 + 10
    } else if 'A' <= c <= 'F' {
        c as u32 - 'A' as u32 + 10
    } else {
        -1
    }
}

/// The number that a text of hexadecimal digits writes.
pub open spec fn read_hex(s: Seq<char>) -> int
    decreases s.len(),
{
    if s.len() == 0 {
        0
    } else {
        16 * read_hex(s.drop_last()) + hex(s.last())
    }
}

proof fn lemma_read_hex(s: Seq<char>)
    requires
        forall|i: int| 0 <= i < s.len() ==> hex(#[trigger] s[i]) >= 0,
    ensures
        digits_value(s, 16) == read_hex(s),
        all_digits(s, 16),
        read_hex(s) >= 0,
    decreases s.len(),
{
    if s.len() > 0 {
        let t = s.drop_last();
        assert forall|i: int| 0 <= i < t.len() implies hex(#[trigger] t[i]) >= 0 by {
            assert(s[i] == t[i]);
        }
        lemma_read_hex(t);
        assert(hex(s[s.len() - 1]) >= 0);
        assert forall|i: int| 0 <= i < s.len() implies is_digit(#[trigger] s[i], 16) by {
            assert(hex(s[i]) >= 0);
        }
    }
}

/// The throttling bits are what the text writes in hexadecimal behind "0x";
/// without a text there are none, nor with one that holds anything else.
pub proof fn law_throttling_bits(s: Seq<char>, h: Seq<char>, i: int)
    requires
        trim(s) == seq!['0', 'x'] + h,
        h.len() > 0,
    ensures
        (forall|k: int| 0 <= k < h.len() ==> hex(#[trigger] h[k]) >= 0) && read_hex(h) <= u32::MAX
            ==> flags_of(Some(s)) == read_hex(h),
        (forall|k: int| 0 <= k < h.len() ==> hex(#[trigger] h[k]) >= 0) && read_hex(h) > u32::MAX
            ==> flags_of(Some(s)) == 0,
        0 < i < h.len() && hex(h[i]) < 0 && hex(h[0]) >= 0 && h[1] != 'x' ==> flags_of(Some(s))
            == 0,
        flags_of(None) == 0,
{
    let t = trim(s);
    assert(t[0] == '0' && t[1] == 'x');
    assert(t.skip(2) =~= h);
    if (forall|k: int| 0 <= k < h.len() ==> hex(#[trigger] h[k]) >= 0) {
        assert(hex(h[0]) >= 0);
        if h.len() >= 2 {
            assert(hex(h[1]) >= 0);
        }
        assert(without_0x(h) == h);
        lemma_read_hex(h);
    }
    if 0 < i < h.len() && hex(h[i]) < 0 && hex(h[0]) >= 0 && h[1] != 'x' {
        assert(without_0x(h) == h);
        assert(!is_digit(h[i], 16));
    }
}

// ---- uptime ----

/// The uptime says days and hours, or hours and minutes below a day, or
/// minutes below an hour.
pub proof fn law_uptimes(secs: nat, d: nat, h: nat, m: nat, s: nat)
    requires
        secs == 86_400 * d + 3_600 * h + 60 * m + s,
        h < 24,
        m < 60,
        s < 60,
    ensures
        d > 0 ==> uptime(secs) == decimal(d) + "d"@ + decimal(h) + "h"@,
        d == 0 && h > 0 ==> uptime(secs) == decimal(h) + "h"@ + decimal(m) + "m"@,
        d == 0 && h == 0 ==> uptime(secs) == decimal(m) + "m"@,
{
    assert(secs / 86_400 == d);
    assert(secs % 86_400 == 3_600 * h + 60 * m + s);
    assert(secs % 86_400 / 3_600 == h);
    assert(secs % 3_600 == 60 * m + s);
    assert(secs % 3_600 / 60 == m);
}

// ---- guests ----

/// A guest is defined by each file whose name ends in ".conf", under what
/// stands before that; no other file defines one.
pub proof fn law_guests_are_defined_by_their_files(
    names: Seq<String>,
    file: String,
    id: Seq<char>,
)
    ensures
        file@ == id + ".conf"@ ==> ids_of(names.push(file)) == ids_of(names).push(id),
        !stands(file@, ".conf"@, file@.len() - 5) ==> ids_of(names.push(file)) == ids_of(names),
        ids_of(Seq::empty()).len() == 0,
{
    reveal_strlit(".conf");
    assert(names.push(file).drop_last() =~= names);
    law_searches_find_the_first(file@, ".conf"@, 0);
    if file@ == id + ".conf"@ {
        assert forall|k: int| 0 <= k < 5 implies file@[file@.len() - 5 + k] == #[trigger] ".conf"@[k] by {}
        assert(stands(file@, ".conf"@, file@.len() - 5));
        assert(file@.take(file@.len() - 5) =~= id);
    }
}

/// Every guest that runs counts once.
pub proof fn law_running_guests_count_once(a: Seq<bool>, b: Seq<bool>)
    ensures
        count_set(a + b) == count_set(a) + count_set(b),
        count_set(seq![true]) == 1,
        count_set(seq![false]) == 0,
        count_set(a) <= a.len(),
    decreases a.len() + b.len(),
{
    let none = Seq::<bool>::empty();
    assert(seq![true].drop_last() =~= none);
    assert(seq![false].drop_last() =~= none);
    assert(count_set(none) == 0);
    if b.len() == 0 {
        assert(a + b =~= a);
        if a.len() > 0 {
            law_running_guests_count_once(a.drop_last(), none);
        }
    } else {
        assert((a + b).drop_last() =~= a + b.drop_last());
        law_running_guests_count_once(a, b.drop_last());
    }
}

} // verus!
