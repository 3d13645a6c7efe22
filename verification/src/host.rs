//! Facts about the host, read from what its kernel and tools print: names,
//! disk and network counters, throttling flags, uptime, guests.

use vstd::prelude::*;
use vstd::slice::slice_subrange;

use crate::numbers::{decimal, decimal_text, number, parse_number, parse_u64};
use crate::text::{
    all_in, before, begins_with, chars_of, ends_with, is_all, lines, prefix_before, split_lines,
    split_words, stands_at, starts_with, string_of, trim, trimmed, views, words, Class,
};

verus! {

// ---- disks ----

/// Whether a device name is that of a whole physical disk.
pub open spec fn whole_disk(name: Seq<char>) -> bool {
    if starts_with(name, "nvme"@) {
        all_in(name.skip(4), Class::Except('p'))
    } else if starts_with(name, "mmcblk"@) {
        all_in(name.skip(6), Class::Digit)
    } else if starts_with(name, "sd"@) || starts_with(name, "vd"@) || starts_with(name, "hd"@) {
        all_in(name.skip(2), Class::Letter)
    } else {
        false
    }
}

/// Whether a device name is that of a whole physical disk (sda, vdb,
/// nvme0n1, mmcblk0) rather than of a partition or a virtual device.
pub fn is_whole_disk(name: &[char]) -> (r: bool)
    ensures
        r == whole_disk(name@),
{
    proof {
        reveal_strlit("nvme");
        reveal_strlit("mmcblk");
        reveal_strlit("sd");
        reveal_strlit("vd");
        reveal_strlit("hd");
    }
    if begins_with(name, "nvme") {
        is_all(slice_subrange(name, 4, name.len()), Class::Except('p'))
    } else if begins_with(name, "mmcblk") {
        is_all(slice_subrange(name, 6, name.len()), Class::Digit)
    } else if begins_with(name, "sd") || begins_with(name, "vd") || begins_with(name, "hd") {
        is_all(slice_subrange(name, 2, name.len()), Class::Letter)
    } else {
        false
    }
}

/// A word as a number, or zero where it is none.
pub open spec fn number_or_zero(w: Seq<char>) -> nat {
    match number(w, 10, u64::MAX as nat) {
        Some(v) => v,
        None => 0,
    }
}

/// The operations that one line counts: the fourth and eighth words of a
/// line about a whole disk.
pub open spec fn line_ops(line: Seq<char>) -> nat {
    let w = words(line);
    if w.len() < 8 || !whole_disk(w[2]) {
        0
    } else {
        number_or_zero(w[3]) + number_or_zero(w[7])
    }
}

/// The operations that the given lines count.
pub open spec fn total_ops(ls: Seq<Seq<char>>) -> nat
    decreases ls.len(),
{
    if ls.len() == 0 {
        0
    } else {
        total_ops(ls.drop_last()) + line_ops(ls.last())
    }
}

fn parse_or_zero(w: &[char]) -> (v: u64)
    ensures
        v == number_or_zero(w@),
{
    match parse_u64(w) {
        Some(v) => v,
        None => 0,
    }
}

fn ops_of_line(line: &[char]) -> (n: u128)
    ensures
        n == line_ops(line@),
        n <= 2 * u64::MAX,
{
    let w = split_words(line);
    assert(views(w@).len() == w@.len());
    if w.len() < 8 {
        return 0;
    }
    assert(views(w@)[2] == w@[2]@ && views(w@)[3] == w@[3]@ && views(w@)[7] == w@[7]@);
    if !is_whole_disk(&w[2]) {
        return 0;
    }
    parse_or_zero(&w[3]) as u128 + parse_or_zero(&w[7]) as u128
}

proof fn lemma_ops_grow(ls: Seq<Seq<char>>, n: int)
    requires
        0 <= n <= ls.len(),
    ensures
        total_ops(ls.take(n)) <= total_ops(ls),
    decreases ls.len() - n,
{
    if n < ls.len() {
        lemma_ops_grow(ls, n + 1);
        assert(ls.take(n + 1).drop_last() =~= ls.take(n));
    } else {
        assert(ls.take(n) =~= ls);
    }
}

/// Completed reads and writes summed over the physical disks of a disk
/// statistics listing. None where the sum does not fit 64 bits.
pub fn read_disk_ops(stats: &str) -> (r: Option<u64>)
    ensures
        match r {
            Some(n) => n == total_ops(lines(stats@)),
            None => total_ops(lines(stats@)) > u64::MAX,
        },
{
    let text = chars_of(stats);
    let ls = split_lines(&text);
    let ghost all = lines(stats@);
    let mut ops: u64 = 0;
    let mut i: usize = 0;
    assert(all.take(0) =~= Seq::<Seq<char>>::empty());
    while i < ls.len()
        invariant
            i <= ls@.len(),
            views(ls@) == all,
            all == lines(stats@),
            ops == total_ops(all.take(i as int)),
        decreases ls@.len() - i,
    {
        assert(all.take(i + 1).drop_last() =~= all.take(i as int));
        assert(views(ls@)[i as int] == ls@[i as int]@);
        let n: u128 = ops_of_line(&ls[i]);
        if ops as u128 + n > u64::MAX as u128 {
            proof {
                lemma_ops_grow(all, i + 1);
            }
            return None;
        }
        ops = (ops as u128 + n) as u64;
        i = i + 1;
    }
    assert(all.take(i as int) =~= all);
    Some(ops)
}

/// Operations completed since the previous reading, never below zero; zero
/// where either reading is missing.
pub open spec fn ops_between(prev: Option<u64>, cur: Option<u64>) -> int {
    match (prev, cur) {
        (Some(p), Some(c)) => if c >= p {
            c - p
        } else {
            0
        },
        _ => 0,
    }
}

/// Operations completed since the previous reading.
pub fn ops_delta(prev: Option<u64>, cur: Option<u64>) -> (d: u64)
    ensures
        d == ops_between(prev, cur),
{
    match (prev, cur) {
        (Some(p), Some(c)) => c.saturating_sub(p),
        _ => 0,
    }
}

/// Used and total bytes of a filesystem, from its fragment size and its
/// counts of blocks and free blocks.
pub fn statvfs_used_total(frsize: u64, blocks: u64, bfree: u64) -> (r: (u64, u64))
    requires
        blocks * frsize <= u64::MAX,
        bfree * frsize <= u64::MAX,
    ensures
        r.1 == blocks * frsize,
        r.0 == (if blocks >= bfree {
            blocks * frsize - bfree * frsize
        } else {
            0
        }),
{
    let total: u64 = blocks * frsize;
    let free: u64 = bfree * frsize;
    proof {
        if blocks >= bfree {
            assert(blocks * frsize >= bfree * frsize) by (nonlinear_arith)
                requires
                    blocks >= bfree,
            ;
        } else {
            assert(blocks * frsize <= bfree * frsize) by (nonlinear_arith)
                requires
                    blocks < bfree,
            ;
        }
    }
    (total.saturating_sub(free), total)
}

// ---- network ----

/// A network interface: its name and the bytes it received and sent.
pub type Interface = (String, u64, u64);

/// Whether an interface name is that of physical hardware.
pub open spec fn physical(name: Seq<char>) -> bool {
    starts_with(name, "en"@) || starts_with(name, "eth"@) || starts_with(name, "wl"@)
}

/// Bytes received and sent over the physical interfaces.
pub open spec fn net_totals(v: Seq<Interface>) -> (nat, nat)
    decreases v.len(),
{
    if v.len() == 0 {
        (0, 0)
    } else {
        let rest = net_totals(v.drop_last());
        if physical(v.last().0@) {
            (rest.0 + v.last().1 as nat, rest.1 + v.last().2 as nat)
        } else {
            rest
        }
    }
}

fn is_physical(name: &str) -> (r: bool)
    ensures
        r == physical(name@),
{
    let n = chars_of(name);
    begins_with(&n, "en") || begins_with(&n, "eth") || begins_with(&n, "wl")
}

proof fn lemma_net_grow(v: Seq<Interface>, n: int)
    requires
        0 <= n <= v.len(),
    ensures
        net_totals(v.take(n)).0 <= net_totals(v).0,
        net_totals(v.take(n)).1 <= net_totals(v).1,
    decreases v.len() - n,
{
    if n < v.len() {
        lemma_net_grow(v, n + 1);
        assert(v.take(n + 1).drop_last() =~= v.take(n));
    } else {
        assert(v.take(n) =~= v);
    }
}

/// Bytes received and sent, summed over the physical interfaces only:
/// bridges, taps and veths mirror the same packets. None where a sum does
/// not fit 64 bits.
pub fn physical_net_totals(networks: &Vec<Interface>) -> (r: Option<(u64, u64)>)
    ensures
        match r {
            Some(t) => (t.0 as nat, t.1 as nat) == net_totals(networks@),
            None => net_totals(networks@).0 > u64::MAX || net_totals(networks@).1 > u64::MAX,
        },
{
    let mut rx: u64 = 0;
    let mut tx: u64 = 0;
    let mut i: usize = 0;
    assert(networks@.take(0) =~= Seq::<Interface>::empty());
    while i < networks.len()
        invariant
            i <= networks@.len(),
            (rx as nat, tx as nat) == net_totals(networks@.take(i as int)),
        decreases networks@.len() - i,
    {
        assert(networks@.take(i + 1).drop_last() =~= networks@.take(i as int));
        if is_physical(networks[i].0.as_str()) {
            proof {
                lemma_net_grow(networks@, i + 1);
            }
            match (rx.checked_add(networks[i].1), tx.checked_add(networks[i].2)) {
                (Some(a), Some(b)) => {
                    rx = a;
                    tx = b;
                },
                _ => {
                    return None;
                },
            }
        }
        i = i + 1;
    }
    assert(networks@.take(i as int) =~= networks@);
    Some((rx, tx))
}

// ---- names ----

/// The kernel's host name: what procfs says, trimmed; else what libc says,
/// if that is not empty; else "unknown".
pub open spec fn kernel_name(procfs: Option<Seq<char>>, libc: Option<Seq<char>>) -> Seq<char> {
    match (procfs, libc) {
        (Some(p), _) => trim(p),
        (None, Some(l)) if l.len() > 0 => l,
        _ => "unknown"@,
    }
}

/// The kernel's host name, from the texts that could be read.
pub fn kernel_hostname(procfs: Option<&str>, libc: Option<&str>) -> (r: String)
    ensures
        r@ == kernel_name(
            match procfs {
                Some(s) => Some(s@),
                None => None,
            },
            match libc {
                Some(s) => Some(s@),
                None => None,
            },
        ),
{
    match (procfs, libc) {
        (Some(p), _) => {
            let c = chars_of(p);
            string_of(trimmed(&c))
        },
        (None, Some(l)) => {
            if l.is_empty() {
                "unknown".to_owned()
            } else {
                l.to_owned()
            }
        },
        _ => "unknown".to_owned(),
    }
}

/// How many bytes stand before the first zero byte, or all of them.
pub fn c_string_len(buf: &[u8]) -> (n: usize)
    ensures
        n <= buf@.len(),
        forall|i: int| 0 <= i < n ==> buf@[i] != 0,
        n < buf@.len() ==> buf@[n as int] == 0,
{
    let mut n: usize = 0;
    while n < buf.len() && buf[n] != 0
        invariant
            n <= buf@.len(),
            forall|i: int| 0 <= i < n ==> buf@[i] != 0,
        decreases buf@.len() - n,
    {
        n = n + 1;
    }
    n
}

/// Short host name: the kernel's name without any domain part.
pub fn hostname(kernel: &str) -> (r: String)
    ensures
        r@ == before(kernel@, '.'),
{
    let c = chars_of(kernel);
    string_of(prefix_before(&c, '.'))
}

/// The first word that is the short name with a domain behind it.
pub open spec fn qualified_word(ws: Seq<Seq<char>>, short: Seq<char>) -> Option<Seq<char>>
    decreases ws.len(),
{
    if ws.len() == 0 {
        None
    } else if starts_with(ws[0], short.push('.')) {
        Some(ws[0])
    } else {
        qualified_word(ws.drop_first(), short)
    }
}

/// The first such word among the names of a hosts file: on each line, the
/// words behind the address, up to a comment.
pub open spec fn qualified_name(ls: Seq<Seq<char>>, short: Seq<char>) -> Option<Seq<char>>
    decreases ls.len(),
{
    if ls.len() == 0 {
        None
    } else {
        match qualified_word(names_on(ls[0]), short) {
            Some(n) => Some(n),
            None => qualified_name(ls.drop_first(), short),
        }
    }
}

/// The names on a line of a hosts file.
pub open spec fn names_on(line: Seq<char>) -> Seq<Seq<char>> {
    let w = words(before(line, '#'));
    if w.len() == 0 {
        w
    } else {
        w.skip(1)
    }
}

/// Fully qualified host name: the kernel's name if it has a domain, else the
/// first name of the hosts file that extends it by one, else the name alone.
pub open spec fn qualified(short: Seq<char>, hosts: Option<Seq<char>>) -> Seq<char> {
    if !all_in(short, Class::Except('.')) || hosts is None {
        short
    } else {
        match qualified_name(lines(hosts->0), short) {
            Some(n) => n,
            None => short,
        }
    }
}

fn find_qualified(line: &[char], dotted: &[char], Ghost(short): Ghost<Seq<char>>) -> (r: Option<
    String,
>)
    requires
        dotted@ == short.push('.'),
    ensures
        match r {
            Some(n) => qualified_word(names_on(line@), short) == Some(n@),
            None => qualified_word(names_on(line@), short) is None,
        },
{
    let w = split_words(prefix_before(line, '#'));
    let ghost all = names_on(line@);
    assert(views(w@).len() == w@.len());
    if w.len() == 0 {
        return None;
    }
    let mut i: usize = 1;
    assert(all.skip(0) =~= all);
    while i < w.len()
        invariant
            1 <= i <= w@.len(),
            dotted@ == short.push('.'),
            all == names_on(line@),
            all == views(w@).skip(1),
            qualified_word(all, short) == qualified_word(all.skip(i - 1), short),
        decreases w@.len() - i,
    {
        let ghost rest = all.skip(i - 1);
        assert(rest[0] == w@[i as int]@);
        assert(rest.drop_first() =~= all.skip(i as int));
        if stands_at(&w[i], dotted, 0) {
            return Some(string_of(&w[i]));
        }
        i = i + 1;
    }
    None
}

/// Fully qualified host name, extended through the hosts file (none where it
/// could not be read) if the kernel's name is a short one.
pub fn fqdn(kernel: &str, hosts: Option<&str>) -> (r: String)
    ensures
        r@ == qualified(
            kernel@,
            match hosts {
                Some(h) => Some(h@),
                None => None,
            },
        ),
{
    let short = chars_of(kernel);
    if !is_all(&short, Class::Except('.')) {
        return kernel.to_owned();
    }
    let h = match hosts {
        Some(h) => h,
        None => {
            return kernel.to_owned();
        },
    };
    let mut dotted = chars_of(kernel);
    dotted.push('.');
    let text = chars_of(h);
    let ls = split_lines(&text);
    let ghost all = lines(h@);
    let mut i: usize = 0;
    assert(all.skip(0) =~= all);
    while i < ls.len()
        invariant
            i <= ls@.len(),
            views(ls@) == all,
            dotted@ == kernel@.push('.'),
            qualified_name(all, kernel@) == qualified_name(all.skip(i as int), kernel@),
            all == lines(h@),
            hosts == Some(h),
            all_in(kernel@, Class::Except('.')),
        decreases ls@.len() - i,
    {
        let ghost rest = all.skip(i as int);
        assert(rest[0] == ls@[i as int]@);
        assert(rest.drop_first() =~= all.skip(i + 1));
        if let Some(n) = find_qualified(&ls[i], &dotted, Ghost(kernel@)) {
            return n;
        }
        i = i + 1;
    }
    kernel.to_owned()
}

/// The address to show: the one found, or a placeholder.
pub fn ip_address(found: Option<String>) -> (r: String)
    ensures
        r@ == (match found {
            Some(a) => a@,
            None => "xxx.xxx.xxx.xxx"@,
        }),
{
    match found {
        Some(a) => a,
        None => "xxx.xxx.xxx.xxx".to_owned(),
    }
}

/// The header line: address and host name.
pub fn header_text(ip: &str, host: &str) -> (r: String)
    ensures
        r@ == ip@ + " - "@ + host@,
{
    let mut s = ip.to_owned();
    s.append(" - ");
    s.append(host);
    s
}

// ---- throttling and uptime ----

/// `s` without any "0x" that it begins with, however often.
pub open spec fn without_0x(s: Seq<char>) -> Seq<char>
    decreases s.len(),
{
    if s.len() >= 2 && s[0] == '0' && s[1] == 'x' {
        without_0x(s.skip(2))
    } else {
        s
    }
}

/// The throttling bits that a text writes in hexadecimal; none where it is
/// missing or no such number.
pub open spec fn flags_of(text: Option<Seq<char>>) -> u32 {
    match text {
        Some(s) => match number(without_0x(trim(s)), 16, u32::MAX as nat) {
            Some(v) => v as u32,
            None => 0,
        },
        None => 0,
    }
}

/// The Pi firmware's throttling bitmask. Bits 0 to 3: under-voltage,
/// frequency capped, throttled, soft temperature limit, right now; bits 16
/// to 19: the same since boot.
pub fn throttled_flags(text: Option<&str>) -> (r: u32)
    ensures
        r == flags_of(
            match text {
                Some(s) => Some(s@),
                None => None,
            },
        ),
{
    match text {
        Some(s) => {
            let c = chars_of(s);
            let mut t = trimmed(&c);
            while t.len() >= 2 && t[0] == '0' && t[1] == 'x'
                invariant
                    without_0x(t@) == without_0x(trim(s@)),
                decreases t@.len(),
            {
                let ghost was = t@;
                t = slice_subrange(t, 2, t.len());
                assert(t@ == was.skip(2));
            }
            match parse_number(t, 16, u32::MAX as u64) {
                Some(v) => v as u32,
                None => 0,
            }
        },
        None => 0,
    }
}

/// Uptime to fit the panel: days and hours, or hours and minutes, or
/// minutes.
pub open spec fn uptime(secs: nat) -> Seq<char> {
    let days = secs / 86_400;
    let hours = secs % 86_400 / 3600;
    let minutes = secs % 3600 / 60;
    if days > 0 {
        decimal(days) + "d"@ + decimal(hours) + "h"@
    } else if hours > 0 {
        decimal(hours) + "h"@ + decimal(minutes) + "m"@
    } else {
        decimal(minutes) + "m"@
    }
}

/// Host uptime formatted to fit the panel: "4d3h", "7h12m", or "42m".
pub fn uptime_text(secs: u64) -> (r: String)
    ensures
        r@ == uptime(secs as nat),
{
    let days: u64 = secs / 86_400;
    let hours: u64 = secs % 86_400 / 3600;
    let minutes: u64 = secs % 3600 / 60;
    if days > 0 {
        let mut s = decimal_text(days);
        s.append("d");
        s.append(decimal_text(hours).as_str());
        s.append("h");
        s
    } else if hours > 0 {
        let mut s = decimal_text(hours);
        s.append("h");
        s.append(decimal_text(minutes).as_str());
        s.append("m");
        s
    } else {
        let mut s = decimal_text(minutes);
        s.append("m");
        s
    }
}

// ---- guests ----

/// How many guests run, of how many that are defined.
pub struct GuestCounts {
    pub running: usize,
    pub total: usize,
}

/// The guest ids that the given file names define: those that end in
/// ".conf", without it.
pub open spec fn ids_of(names: Seq<String>) -> Seq<Seq<char>>
    decreases names.len(),
{
    if names.len() == 0 {
        Seq::empty()
    } else {
        let rest = ids_of(names.drop_last());
        let n = names.last()@;
        if ends_with(n, ".conf"@) {
            rest.push(n.take(n.len() - 5))
        } else {
            rest
        }
    }
}

/// The views of a list of strings.
pub open spec fn string_views(v: Seq<String>) -> Seq<Seq<char>> {
    Seq::new(v.len(), |i: int| v[i]@)
}

/// The guest ids that the given file names define.
pub fn vm_ids(names: &Vec<String>) -> (r: Vec<String>)
    ensures
        string_views(r@) == ids_of(names@),
{
    let suffix = chars_of(".conf");
    proof {
        reveal_strlit(".conf");
    }
    let mut r: Vec<String> = Vec::new();
    let mut i: usize = 0;
    assert(string_views(r@) =~= Seq::<Seq<char>>::empty());
    assert(names@.take(0) =~= Seq::<String>::empty());
    while i < names.len()
        invariant
            i <= names@.len(),
            suffix@ == ".conf"@,
            suffix@.len() == 5,
            string_views(r@) == ids_of(names@.take(i as int)),
        decreases names@.len() - i,
    {
        assert(names@.take(i + 1).drop_last() =~= names@.take(i as int));
        let n = chars_of(names[i].as_str());
        let ghost was = r@;
        if n.len() >= 5 && stands_at(&n, &suffix, n.len() - 5) {
            let id = string_of(slice_subrange(&n, 0, n.len() - 5));
            r.push(id);
            assert(string_views(r@) =~= string_views(was).push(n@.take(n@.len() - 5)));
        }
        i = i + 1;
    }
    assert(names@.take(i as int) =~= names@);
    r
}

/// How many of the flags are set.
pub open spec fn count_set(v: Seq<bool>) -> nat
    decreases v.len(),
{
    if v.len() == 0 {
        0
    } else {
        count_set(v.drop_last()) + (if v.last() {
            1nat
        } else {
            0
        })
    }
}

/// Guest counts of the node, from whether each defined guest runs; none
/// where the host is not a Proxmox node.
pub fn proxmox_vms(pve_host: bool, running: &Vec<bool>) -> (r: Option<GuestCounts>)
    ensures
        match r {
            Some(c) => pve_host && c.total == running@.len() && c.running == count_set(running@),
            None => !pve_host,
        },
{
    if !pve_host {
        return None;
    }
    let mut n: usize = 0;
    let mut i: usize = 0;
    assert(running@.take(0) =~= Seq::<bool>::empty());
    while i < running.len()
        invariant
            i <= running@.len(),
            n <= i,
            n == count_set(running@.take(i as int)),
        decreases running@.len() - i,
    {
        assert(running@.take(i + 1).drop_last() =~= running@.take(i as int));
        if running[i] {
            n = n + 1;
        }
        i = i + 1;
    }
    assert(running@.take(i as int) =~= running@);
    Some(GuestCounts { running: n, total: running.len() })
}

} // verus!
