//! Numbers on the panel: what a figure says is what was measured, to the
//! digits that it has.

use vstd::prelude::*;

use crate::history::percent;
use crate::numbers::{
    count_text, decimal, double_quotient, gib_text, in_binade, lemma_binade_exists,
    lemma_two_to_positive, nearest, one_digit, rate_text, short_text, two_to,
};
use crate::stats::Stats;

verus! {

/// The number that a text of decimal digits reads as.
pub open spec fn read(s: Seq<char>) -> int
    decreases s.len(),
{
    if s.len() == 0 {
        0
    } else {
        10 * read(s.drop_last()) + (s.last() as u32 - '0' as u32)
    }
}

/// A number in decimal is made of digits alone, reads as that number, and has
/// no zero in front.
pub proof fn law_decimals_read_back(n: nat)
    ensures
        read(decimal(n)) == n,
        decimal(n).len() >= 1,
        forall|i: int| 0 <= i < decimal(n).len() ==> '0' <= #[trigger] decimal(n)[i] <= '9',
        n > 0 ==> decimal(n)[0] != '0',
    decreases n,
{
    let s = decimal(n);
    if n < 10 {
        assert(s.drop_last() =~= Seq::<char>::empty());
        assert(read(Seq::<char>::empty()) == 0);
    } else {
        law_decimals_read_back(n / 10);
        assert(s.drop_last() =~= decimal(n / 10));
        assert forall|i: int| 0 <= i < s.len() implies '0' <= #[trigger] s[i] <= '9' by {
            if i < s.len() - 1 {
                assert(s[i] == decimal(n / 10)[i]);
            }
        }
        assert(s[0] == decimal(n / 10)[0]);
    }
}

/// Different numbers look different.
pub proof fn law_decimals_differ(a: nat, b: nat)
    requires
        decimal(a) == decimal(b),
    ensures
        a == b,
{
    law_decimals_read_back(a);
    law_decimals_read_back(b);
}

/// Whether `q` percent is what is used of a total, rounded down.
pub open spec fn is_percent(q: int, used: int, total: int) -> bool {
    q * total <= used * 100 < (q + 1) * total
}

/// A percentage is the share of what is used in what there is, rounded down;
/// of nothing it is zero.
pub proof fn law_percentages_are_shares(q: int, used: int, total: int)
    requires
        0 <= used,
        0 <= q <= 255,
        0 < total,
        is_percent(q, used, total),
    ensures
        percent(used, total) == q,
        percent(used, 0) == 0,
{
    let n = used * 100;
    assert(n / total == q) by (nonlinear_arith)
        requires
            q * total <= n < (q + 1) * total,
            total > 0,
    ;
}

/// The percentages of the disk and of memory are the shares of what is used
/// of each in what there is of it.
pub proof fn law_stats_are_shares(s: Stats, disk: int, mem: int)
    requires
        0 <= disk <= 255,
        0 <= mem <= 255,
        s.disk_total > 0,
        s.mem_total > 0,
        is_percent(disk, s.disk_used as int, s.disk_total as int),
        is_percent(mem, s.mem_used as int, s.mem_total as int),
    ensures
        s.disk_percentage() == disk,
        s.memory_percentage() == mem,
{
    law_percentages_are_shares(disk, s.disk_used as int, s.disk_total as int);
    law_percentages_are_shares(mem, s.mem_used as int, s.mem_total as int);
}

// ---- rounding ----

/// Rounding goes to the nearest whole number, and to the even one of two that
/// are as near.
pub proof fn law_rounding_to_the_nearest(a: nat, b: nat)
    requires
        b > 0,
    ensures
        -b <= 2 * (nearest(a, b) * b - a) <= b,
        2 * (nearest(a, b) * b - a) == b || 2 * (nearest(a, b) * b - a) == -b ==> nearest(a, b) % 2
            == 0,
{
    let q = a / b;
    let r = a % b;
    vstd::arithmetic::div_mod::lemma_fundamental_div_mod(a as int, b as int);
    assert(b * q == q * b) by (nonlinear_arith);
    assert((q + 1) * b == q * b + b) by (nonlinear_arith);
}

/// Whether a text is a number with one digit behind the point that is nearest
/// to `n / d`.
pub open spec fn is_tenths(text: Seq<char>, n: int, d: int) -> bool {
    exists|t: nat|
        -d <= 2 * (t * d - 10 * n) <= d && text == #[trigger] decimal(t / 10) + "."@ + decimal(
            t % 10,
        )
}

/// Whether a text is a whole number that is nearest to `n / d`.
pub open spec fn is_whole(text: Seq<char>, n: int, d: int) -> bool {
    exists|t: nat| -d <= 2 * (t * d - n) <= d && text == #[trigger] decimal(t)
}

/// What is known of the double next to a quotient.
proof fn lemma_double(n: nat, d: nat)
    requires
        0 < n < 0x10_0000_0000_0000,
        n < 0x20_0000_0000_0000 * d,
        0 < d <= 0x4000_0000,
    ensures
        ({
            let x = double_quotient(n, d);
            &&& -d <= 2 * (x.count * d - n * x.unit) <= d
            &&& x.unit > d
            &&& n < 0x1_0000_0000_0000 ==> x.unit > 16 * d
        }),
{
    lemma_binade_exists(n, d);
    let k = choose|k: nat| in_binade(n, d, k);
    let u = two_to(k);
    lemma_two_to_positive(k);
    law_rounding_to_the_nearest(n * u, d);
    assert(u > d) by (nonlinear_arith)
        requires
            0x10_0000_0000_0000 * d <= n * u,
            n < 0x10_0000_0000_0000,
            u >= 1,
    ;
    if n < 0x1_0000_0000_0000 {
        assert(u > 16 * d) by (nonlinear_arith)
            requires
                0x10_0000_0000_0000 * d <= n * u,
                n < 0x1_0000_0000_0000,
                u >= 1,
        ;
    }
}

proof fn lemma_close(t: int, c: int, u: int, n: int, d: int, s: int)
    requires
        -u <= 2 * (t * u - s * c) <= u,
        -d <= 2 * (c * d - n * u) <= d,
        u > s * d,
        s > 0,
        d > 0,
    ensures
        -d <= 2 * (t * d - s * n) <= d,
{
    let y = 2 * (t * d - s * n);
    assert(u * y == d * (2 * (t * u - s * c)) + s * (2 * (c * d - n * u))) by (nonlinear_arith)
        requires
            y == 2 * (t * d - s * n),
    ;
    let (p, q) = (2 * (t * u - s * c), 2 * (c * d - n * u));
    assert(-(d * u) <= d * p <= d * u) by (nonlinear_arith)
        requires
            -u <= p <= u,
            d > 0,
    ;
    assert(-(s * d) <= s * q <= s * d) by (nonlinear_arith)
        requires
            -d <= q <= d,
            s > 0,
    ;
    assert(y < d + 1 && y > -(d + 1)) by (nonlinear_arith)
        requires
            u * y <= d * u + s * d,
            u * y >= -(d * u) - s * d,
            u > s * d,
            u > 0,
    ;
}

proof fn lemma_tenths(n: nat, d: nat)
    requires
        n < 0x1_0000_0000_0000,
        n < 0x20_0000_0000_0000 * d,
        0 < d <= 0x4000_0000,
    ensures
        is_tenths(one_digit(double_quotient(n, d)), n as int, d as int),
{
    let x = double_quotient(n, d);
    let t = nearest(x.count * 10, x.unit);
    if n == 0 {
        assert(t == 0);
        assert(0 * d == 0) by (nonlinear_arith);
    } else {
        lemma_double(n, d);
        law_rounding_to_the_nearest(x.count * 10, x.unit);
        assert(x.unit > 10 * d);
        lemma_close(t as int, x.count as int, x.unit as int, n as int, d as int, 10);
    }
    assert(one_digit(x) == decimal(t / 10) + "."@ + decimal(t % 10));
}

proof fn lemma_short(n: nat, d: nat)
    requires
        n < 0x10_0000_0000_0000,
        n < 0x20_0000_0000_0000 * d,
        0 < d <= 0x4000_0000,
    ensures
        n < 10 * d ==> is_tenths(short_text(double_quotient(n, d)), n as int, d as int),
        n >= 10 * d ==> is_whole(short_text(double_quotient(n, d)), n as int, d as int),
{
    let x = double_quotient(n, d);
    let (c, u) = (x.count as int, x.unit as int);
    if n == 0 {
        lemma_tenths(n, d);
    } else {
        lemma_double(n, d);
        if n < 10 * d {
            assert(c < 10 * u) by (nonlinear_arith)
                requires
                    2 * (c * d - n * u) <= d,
                    n <= 10 * d - 1,
                    u > d,
                    d > 0,
            ;
            lemma_tenths(n, d);
        } else {
            assert(c >= 10 * u) by (nonlinear_arith)
                requires
                    2 * (c * d - n * u) >= -d,
                    n >= 10 * d,
                    u > 0,
                    d > 0,
            ;
            let t = nearest(x.count, x.unit);
            law_rounding_to_the_nearest(x.count, x.unit);
            lemma_close(t as int, c, u, n as int, d as int, 1);
            assert(short_text(x) == decimal(t));
        }
    }
}

/// A figure in gibibytes is the nearest number to what it stands for, with one
/// digit behind the point below ten and with none from there. (Up to four
/// pebibytes, beyond which doubles skip numbers of bytes.)
pub proof fn law_gibibytes(bytes: nat)
    requires
        bytes < 0x10_0000_0000_0000,
    ensures
        bytes < 10 * 0x4000_0000 ==> is_tenths(gib_text(bytes), bytes as int, 0x4000_0000),
        bytes >= 10 * 0x4000_0000 ==> is_whole(gib_text(bytes), bytes as int, 0x4000_0000),
{
    lemma_short(bytes, 0x4000_0000);
}

/// A rate below a thousand is given in bytes, as it is; else in the largest of
/// kilo-, mega- and gigabytes of which it has at least one, to the nearest
/// number, with one digit behind the point below ten of them and with none
/// from there.
pub proof fn law_rates(n: nat)
    requires
        n <= u32::MAX,
    ensures
        n < 1_000 ==> rate_text(n) == (decimal(n), "B/s"@),
        1_000 <= n < 1_000_000 ==> rate_text(n).1 == "kB/s"@,
        1_000 <= n < 10_000 ==> is_tenths(rate_text(n).0, n as int, 1_000),
        10_000 <= n < 1_000_000 ==> is_whole(rate_text(n).0, n as int, 1_000),
        1_000_000 <= n < 1_000_000_000 ==> rate_text(n).1 == "MB/s"@,
        1_000_000 <= n < 10_000_000 ==> is_tenths(rate_text(n).0, n as int, 1_000_000),
        10_000_000 <= n < 1_000_000_000 ==> is_whole(rate_text(n).0, n as int, 1_000_000),
        n >= 1_000_000_000 ==> rate_text(n).1 == "GB/s"@ && is_tenths(
            rate_text(n).0,
            n as int,
            1_000_000_000,
        ),
{
    lemma_short(n, 1_000);
    lemma_short(n, 1_000_000);
    lemma_short(n, 1_000_000_000);
}

/// A count below a thousand is given as it is; below ten thousand in thousands
/// with one digit behind the point, to the nearest; below a million in whole
/// thousands, rounded down; from there in millions with one digit behind the
/// point, to the nearest.
pub proof fn law_counts(n: nat, q: nat, head: Seq<char>)
    requires
        n <= u32::MAX,
        q * 1_000 <= n < (q + 1) * 1_000,
    ensures
        n <= 999 ==> count_text(n) == decimal(n),
        1_000 <= n <= 9_999 && count_text(n) == head + "k"@ ==> is_tenths(head, n as int, 1_000),
        1_000 <= n <= 9_999 ==> exists|h: Seq<char>| count_text(n) == #[trigger] (h + "k"@),
        10_000 <= n <= 999_999 ==> count_text(n) == decimal(q) + "k"@,
        n >= 1_000_000 && count_text(n) == head + "M"@ ==> is_tenths(head, n as int, 1_000_000),
        n >= 1_000_000 ==> exists|h: Seq<char>| count_text(n) == #[trigger] (h + "M"@),
{
    reveal_strlit("k");
    reveal_strlit("M");
    lemma_tenths(n, 1_000);
    lemma_tenths(n, 1_000_000);
    assert(n / 1_000 == q);
    let (a, b) = (one_digit(double_quotient(n, 1_000)), one_digit(double_quotient(n, 1_000_000)));
    if 1_000 <= n <= 9_999 {
        assert(count_text(n) == a + "k"@);
        if count_text(n) == head + "k"@ {
            assert((a + "k"@).drop_last() =~= a);
            assert((head + "k"@).drop_last() =~= head);
        }
    }
    if n >= 1_000_000 {
        assert(count_text(n) == b + "M"@);
        if count_text(n) == head + "M"@ {
            assert((b + "M"@).drop_last() =~= b);
            assert((head + "M"@).drop_last() =~= head);
        }
    }
}

} // verus!
