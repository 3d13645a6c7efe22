//! Numbers read from text and written as text.

use vstd::prelude::*;

verus! {

// ---- reading ----

/// The value of a digit in bases up to sixteen.
pub open spec fn digit_value(c: char) -> Option<nat> {
    if '0' <= c <= '9' {
        Some((c as u32 - 48) as nat)
    } else if 'a' <= c <= 'f' {
        Some((c as u32 - 87) as nat)
    } else if 'A' <= c <= 'F' {
        Some((c as u32 - 55) as nat)
    } else {
        None
    }
}

/// Whether `c` is a digit in base `radix`.
pub open spec fn is_digit(c: char, radix: nat) -> bool {
    digit_value(c) is Some && digit_value(c)->0 < radix
}

/// Whether `s` is made of digits in base `radix`.
pub open spec fn all_digits(s: Seq<char>, radix: nat) -> bool {
    forall|i: int| 0 <= i < s.len() ==> is_digit(#[trigger] s[i], radix)
}

/// The number that the digits `s` write in base `radix`.
pub open spec fn digits_value(s: Seq<char>, radix: nat) -> nat
    decreases s.len(),
{
    if s.len() == 0 {
        0
    } else {
        digits_value(s.drop_last(), radix) * radix + digit_value(s.last())->0
    }
}

/// The number that `s` writes in base `radix`: an optional plus sign, then
/// at least one digit and nothing else. None where it is above `max`.
pub open spec fn number(s: Seq<char>, radix: nat, max: nat) -> Option<nat> {
    let d = if s.len() > 0 && s[0] == '+' {
        s.skip(1)
    } else {
        s
    };
    if d.len() > 0 && all_digits(d, radix) && digits_value(d, radix) <= max {
        Some(digits_value(d, radix))
    } else {
        None
    }
}

fn digit(c: char) -> (r: Option<u8>)
    ensures
        match r {
            Some(v) => digit_value(c) == Some(v as nat) && v < 16,
            None => digit_value(c) is None,
        },
{
    let u: u32 = c as u32;
    if '0' <= c && c <= '9' {
        Some((u - 48) as u8)
    } else if 'a' <= c && c <= 'f' {
        Some((u - 87) as u8)
    } else if 'A' <= c && c <= 'F' {
        Some((u - 55) as u8)
    } else {
        None
    }
}

proof fn lemma_prefix_value(s: Seq<char>, n: int, radix: nat)
    requires
        0 <= n <= s.len(),
        radix >= 1,
        all_digits(s, radix),
    ensures
        digits_value(s.take(n), radix) <= digits_value(s, radix),
    decreases s.len() - n,
{
    if n < s.len() {
        lemma_prefix_value(s, n + 1, radix);
        let t = s.take(n + 1);
        assert(t.drop_last() =~= s.take(n));
        let v = digits_value(s.take(n), radix);
        assert(v * radix >= v) by (nonlinear_arith)
            requires
                radix >= 1,
        ;
    } else {
        assert(s.take(n) =~= s);
    }
}

/// Reads `s` as a number in base `radix` of at most `max`.
pub fn parse_number(s: &[char], radix: u8, max: u64) -> (r: Option<u64>)
    requires
        1 <= radix <= 16,
    ensures
        match r {
            Some(v) => number(s@, radix as nat, max as nat) == Some(v as nat),
            None => number(s@, radix as nat, max as nat) is None,
        },
{
    let start: usize = if s.len() > 0 && s[0] == '+' {
        1
    } else {
        0
    };
    let ghost d = if s@.len() > 0 && s@[0] == '+' {
        s@.skip(1)
    } else {
        s@
    };
    assert(d =~= s@.skip(start as int));
    if s.len() == start {
        return None;
    }
    let mut v: u64 = 0;
    let mut i: usize = start;
    assert(d.take(0) =~= Seq::<char>::empty());
    while i < s.len()
        invariant
            1 <= radix <= 16,
            start <= i <= s@.len(),
            d == s@.skip(start as int),
            d == (if s@.len() > 0 && s@[0] == '+' {
                s@.skip(1)
            } else {
                s@
            }),
            v == digits_value(d.take(i - start), radix as nat),
            v <= max,
            forall|j: int| 0 <= j < i - start ==> is_digit(#[trigger] d[j], radix as nat),
        decreases s@.len() - i,
    {
        let ghost k = i - start;
        let ghost longer = d.take(k + 1);
        proof {
            assert(d[k] == s@[i as int]);
            assert(longer.drop_last() =~= d.take(k));
            assert(longer.last() == d[k]);
        }
        let x: u8 = match digit(s[i]) {
            Some(x) => x,
            None => {
                assert(!is_digit(d[k], radix as nat));
                return None;
            },
        };
        if x >= radix {
            assert(!is_digit(d[k], radix as nat));
            return None;
        }
        assert(v * radix <= 0xffff_ffff_ffff_ffff * 16) by (nonlinear_arith)
            requires
                v <= 0xffff_ffff_ffff_ffff,
                radix <= 16,
        ;
        let next: u128 = v as u128 * radix as u128 + x as u128;
        if next > max as u128 {
            proof {
                if all_digits(d, radix as nat) {
                    lemma_prefix_value(d, k + 1, radix as nat);
                }
            }
            return None;
        }
        v = next as u64;
        i = i + 1;
    }
    assert(d.take(i - start) =~= d);
    Some(v)
}

/// Reads a word as an unsigned 64-bit number.
pub fn parse_u64(s: &[char]) -> (r: Option<u64>)
    ensures
        match r {
            Some(v) => number(s@, 10, u64::MAX as nat) == Some(v as nat),
            None => number(s@, 10, u64::MAX as nat) is None,
        },
{
    parse_number(s, 10, u64::MAX)
}

// ---- writing ----

/// The character of a decimal digit.
pub open spec fn digit_char(d: nat) -> char {
    (48 + d) as char
}

/// A number in decimal, without leading zeros.
pub open spec fn decimal(n: nat) -> Seq<char>
    decreases n,
{
    if n < 10 {
        seq![digit_char(n)]
    } else {
        decimal(n / 10).push(digit_char(n % 10))
    }
}

fn digit_to_char(d: u8) -> (c: char)
    requires
        d < 10,
    ensures
        c == digit_char(d as nat),
{
    (48 + d) as char
}

/// A number in decimal.
pub fn decimal_text(n: u64) -> (s: String)
    ensures
        s@ == decimal(n as nat),
    decreases n,
{
    if n < 10 {
        let mut s = String::new();
        s.push(digit_to_char(n as u8));
        assert(s@ =~= seq![digit_char(n as nat)]);
        s
    } else {
        let mut s = decimal_text(n / 10);
        s.push(digit_to_char((n % 10) as u8));
        s
    }
}

/// `a` divided by `b` to the nearest whole number, ties to the even one.
pub open spec fn nearest(a: nat, b: nat) -> nat {
    let q = a / b;
    let r = a % b;
    if 2 * r > b || (2 * r == b && q % 2 == 1) {
        q + 1
    } else {
        q
    }
}

fn nearest_of(a: u128, b: u128) -> (q: u128)
    requires
        0 < b <= 0x4000_0000_0000_0000_0000_0000_0000_0000,
        a <= 0x4000_0000_0000_0000_0000_0000_0000_0000,
    ensures
        q == nearest(a as nat, b as nat),
{
    let q: u128 = a / b;
    let r: u128 = a % b;
    assert(q <= a) by (nonlinear_arith)
        requires
            q == a / b,
            b > 0,
    ;
    if 2 * r > b || (2 * r == b && q % 2 == 1) {
        q + 1
    } else {
        q
    }
}

/// Two to the power of `k`.
pub open spec fn two_to(k: nat) -> nat
    decreases k,
{
    if k == 0 {
        1
    } else {
        2 * two_to((k - 1) as nat)
    }
}

/// Whether `n / d`, counted in units of `1 / two_to(k)`, takes 53 bits.
pub open spec fn in_binade(n: nat, d: nat, k: nat) -> bool {
    0x10_0000_0000_0000 * d <= n * two_to(k) < 0x20_0000_0000_0000 * d
}

/// A double as a whole number of units, and the number of units in one.
pub struct Double {
    pub count: nat,
    pub unit: nat,
}

/// The double nearest to `n / d`: the 53-bit number of units that is
/// nearest, ties to even. For quotients below two to the power of 53.
pub open spec fn double_quotient(n: nat, d: nat) -> Double {
    if n == 0 {
        Double { count: 0, unit: 1 }
    } else {
        let unit = two_to(choose|k: nat| in_binade(n, d, k));
        Double { count: nearest(n * unit, d), unit }
    }
}

proof fn lemma_two_to(j: nat, k: nat)
    requires
        j < k,
    ensures
        two_to(k) >= 2 * two_to(j),
        two_to(j) >= 1,
    decreases k,
{
    if j + 1 < k {
        lemma_two_to(j, (k - 1) as nat);
    }
    if j > 0 {
        lemma_two_to((j - 1) as nat, j);
    }
}

proof fn lemma_binade_unique(n: nat, d: nat, j: nat, k: nat)
    requires
        in_binade(n, d, j),
        in_binade(n, d, k),
    ensures
        j == k,
{
    if j < k {
        lemma_two_to(j, k);
        let a = two_to(j);
        let b = two_to(k);
        assert(n * b >= 2 * (n * a)) by (nonlinear_arith)
            requires
                b >= 2 * a,
        ;
    } else if k < j {
        lemma_two_to(k, j);
        let a = two_to(k);
        let b = two_to(j);
        assert(n * b >= 2 * (n * a)) by (nonlinear_arith)
            requires
                b >= 2 * a,
        ;
    }
}

/// The double nearest to `n / d`, as a count of units and the units in one.
fn double_quotient_of(n: u64, d: u64) -> (r: (u128, u128))
    requires
        0 < d <= 0x4000_0000,
        n < 0x20_0000_0000_0000 * d,
    ensures
        r.0 == double_quotient(n as nat, d as nat).count,
        r.1 == double_quotient(n as nat, d as nat).unit,
        r.0 <= 0x20_0000_0000_0000,
        0 < r.1 <= 0x8_0000_0000_0000_0000_0000,
{
    if n == 0 {
        return (0, 1);
    }
    let low: u128 = 0x10_0000_0000_0000 * d as u128;
    let mut unit: u128 = 1;
    let mut scaled: u128 = n as u128;
    let ghost mut k: nat = 0;
    while scaled < low
        invariant
            0 < d <= 0x4000_0000,
            n > 0,
            low == 0x10_0000_0000_0000 * d,
            unit == two_to(k),
            unit >= 1,
            scaled == n * unit,
            scaled >= unit,
            scaled < 2 * low,
        decreases 2 * low - scaled,
    {
        assert(n * (unit * 2) == (n * unit) * 2) by (nonlinear_arith);
        unit = unit * 2;
        scaled = scaled * 2;
        proof {
            k = k + 1;
        }
    }
    proof {
        assert(in_binade(n as nat, d as nat, k));
        let c = choose|c: nat| in_binade(n as nat, d as nat, c);
        lemma_binade_unique(n as nat, d as nat, c, k);
    }
    let count: u128 = nearest_of(scaled, d as u128);
    proof {
        let q = scaled as nat / d as nat;
        assert(q < 0x20_0000_0000_0000) by (nonlinear_arith)
            requires
                q == scaled as nat / d as nat,
                scaled < 0x20_0000_0000_0000 * d,
                d > 0,
        ;
    }
    (count, unit)
}

/// The parts of a double quotient are small enough that the number of its
/// units, and ten times that, rounds to a 64-bit number.
pub proof fn lemma_double_small(n: u64, d: u64)
    requires
        0 < d <= 0x4000_0000,
        n < 0x20_0000_0000_0000 * d,
    ensures
        nearest(
            double_quotient(n as nat, d as nat).count * 10,
            double_quotient(n as nat, d as nat).unit,
        ) <= u64::MAX,
        nearest(
            double_quotient(n as nat, d as nat).count,
            double_quotient(n as nat, d as nat).unit,
        ) <= u64::MAX,
{
    let x = double_quotient(n as nat, d as nat);
    if n > 0 {
        lemma_binade_exists(n as nat, d as nat);
        let k = choose|k: nat| in_binade(n as nat, d as nat, k);
        lemma_two_to_positive(k);
        let s = n * x.unit;
        let dd = d as nat;
        assert(s as nat / dd < 0x20_0000_0000_0000) by (nonlinear_arith)
            requires
                0 <= s < 0x20_0000_0000_0000 * dd,
                dd > 0,
        ;
    }
    lemma_nearest_le(x.count * 10, x.unit);
    lemma_nearest_le(x.count, x.unit);
}

/// Powers of two are positive.
pub proof fn lemma_two_to_positive(k: nat)
    ensures
        two_to(k) >= 1,
    decreases k,
{
    if k > 0 {
        lemma_two_to_positive((k - 1) as nat);
    }
}

proof fn lemma_nearest_le(a: nat, b: nat)
    requires
        b >= 1,
    ensures
        nearest(a, b) <= a + 1,
{
    assert(a / b <= a) by (nonlinear_arith)
        requires
            b >= 1,
    ;
}

/// Every positive quotient below two to the power of 53 has its binade.
pub proof fn lemma_binade_exists(n: nat, d: nat)
    requires
        0 < n < 0x20_0000_0000_0000 * d,
        0 < d <= 0x4000_0000,
    ensures
        exists|k: nat| in_binade(n, d, k),
{
    assert(n * 1 == n) by (nonlinear_arith);
    assert(two_to(0) == 1);
    lemma_binade_from(n, d, 0);
}

proof fn lemma_binade_from(n: nat, d: nat, k: nat)
    requires
        0 < n,
        n * two_to(k) < 0x20_0000_0000_0000 * d,
        0 < d <= 0x4000_0000,
    ensures
        exists|j: nat| in_binade(n, d, j),
    decreases 0x20_0000_0000_0000 * d - n * two_to(k),
{
    lemma_two_to_positive(k);
    let u = two_to(k);
    if 0x10_0000_0000_0000 * d <= n * u {
        assert(in_binade(n, d, k));
    } else {
        assert(n * (2 * u) == 2 * (n * u)) by (nonlinear_arith);
        assert(n * u >= 1) by (nonlinear_arith)
            requires
                n >= 1,
                u >= 1,
        ;
        assert(two_to(k + 1) == 2 * u);
        lemma_binade_from(n, d, k + 1);
    }
}

/// A count of tenths with its decimal point.
pub open spec fn tenths_text(t: nat) -> Seq<char> {
    decimal(t / 10) + "."@ + decimal(t % 10)
}

/// A double with one digit behind the point.
pub open spec fn one_digit(x: Double) -> Seq<char> {
    tenths_text(nearest(x.count * 10, x.unit))
}

/// A double with one digit behind the point below ten, with none above.
pub open spec fn short_text(x: Double) -> Seq<char> {
    if x.count < 10 * x.unit {
        one_digit(x)
    } else {
        decimal(nearest(x.count, x.unit))
    }
}

fn one_digit_of(x: (u128, u128)) -> (s: String)
    requires
        x.0 <= 0x20_0000_0000_0000,
        0 < x.1 <= 0x8_0000_0000_0000_0000_0000,
    ensures
        s@ == one_digit(Double { count: x.0 as nat, unit: x.1 as nat }),
{
    let t: u128 = nearest_of(x.0 * 10, x.1);
    proof {
        let a = x.0 * 10;
        let b = x.1;
        assert(a / b as int <= a) by (nonlinear_arith)
            requires
                b > 0,
                a >= 0,
        ;
    }
    let mut s = decimal_text((t / 10) as u64);
    let tail = decimal_text((t % 10) as u64);
    s.append(".");
    s.append(tail.as_str());
    s
}

fn short_of(x: (u128, u128)) -> (s: String)
    requires
        x.0 <= 0x20_0000_0000_0000,
        0 < x.1 <= 0x8_0000_0000_0000_0000_0000,
    ensures
        s@ == short_text(Double { count: x.0 as nat, unit: x.1 as nat }),
{
    if x.0 < 10 * x.1 {
        one_digit_of(x)
    } else {
        let t: u128 = nearest_of(x.0, x.1);
        proof {
            let a = x.0;
            let b = x.1;
            assert(a as int / b as int <= a) by (nonlinear_arith)
                requires
                    b > 0,
                    a >= 0,
            ;
        }
        decimal_text(t as u64)
    }
}

/// Bytes as gibibytes sized for the panel: "7.6" under ten, "16" above. The
/// figure is that of the double nearest to the quotient.
pub open spec fn gib_text(bytes: nat) -> Seq<char> {
    short_text(double_quotient(bytes, 0x4000_0000))
}

/// Bytes as gibibytes sized for the panel: "7.6" under ten, "16" above.
pub fn format_gib(bytes: u64) -> (s: String)
    ensures
        s@ == gib_text(bytes as nat),
{
    short_of(double_quotient_of(bytes, 0x4000_0000))
}

/// A byte rate as a short number and the unit that scales it.
pub open spec fn rate_text(n: nat) -> (Seq<char>, Seq<char>) {
    if n < 1_000 {
        (decimal(n), "B/s"@)
    } else if n < 1_000_000 {
        (short_text(double_quotient(n, 1_000)), "kB/s"@)
    } else if n < 1_000_000_000 {
        (short_text(double_quotient(n, 1_000_000)), "MB/s"@)
    } else {
        (short_text(double_quotient(n, 1_000_000_000)), "GB/s"@)
    }
}

/// A byte rate split into a short number and the unit that scales it, such
/// as "14" and "B/s", "739" and "kB/s", "1.2" and "MB/s".
pub fn format_rate(bytes_per_sec: u32) -> (r: (String, &'static str))
    ensures
        (r.0@, r.1@) == rate_text(bytes_per_sec as nat),
{
    let n: u64 = bytes_per_sec as u64;
    if n < 1_000 {
        (decimal_text(n), "B/s")
    } else if n < 1_000_000 {
        (short_of(double_quotient_of(n, 1_000)), "kB/s")
    } else if n < 1_000_000_000 {
        (short_of(double_quotient_of(n, 1_000_000)), "MB/s")
    } else {
        (short_of(double_quotient_of(n, 1_000_000_000)), "GB/s")
    }
}

/// A count sized for the panel.
pub open spec fn count_text(n: nat) -> Seq<char> {
    if n <= 999 {
        decimal(n)
    } else if n <= 9_999 {
        one_digit(double_quotient(n, 1_000)) + "k"@
    } else if n <= 999_999 {
        decimal(n / 1_000) + "k"@
    } else {
        one_digit(double_quotient(n, 1_000_000)) + "M"@
    }
}

/// A count sized for the panel: "999", "1.2k", "412k", "1.3M".
pub fn format_count(n: u32) -> (s: String)
    ensures
        s@ == count_text(n as nat),
{
    let v: u64 = n as u64;
    if n <= 999 {
        decimal_text(v)
    } else if n <= 9_999 {
        let mut s = one_digit_of(double_quotient_of(v, 1_000));
        s.append("k");
        s
    } else if n <= 999_999 {
        let mut s = decimal_text(v / 1_000);
        s.append("k");
        s
    } else {
        let mut s = one_digit_of(double_quotient_of(v, 1_000_000));
        s.append("M");
        s
    }
}

} // verus!
