//! The warnings: each names its cause, none is missing, and they come in
//! order.

use vstd::prelude::*;

use crate::laws::columns::{lemma_in_both, lemma_in_push};
use crate::laws::status::all_problems;
use crate::numbers::decimal;
use crate::stats::{
    active_events, bit_set, event_name, heat_text, minor_list, past_events, push_if, severe_list,
    Stats,
};

verus! {

proof fn lemma_in_push_if<T>(s: Seq<T>, c: bool, v: T, x: T)
    ensures
        push_if(s, c, v).contains(x) <==> s.contains(x) || (c && x == v),
{
    lemma_in_push(s, v);
    assert(s.push(v).contains(x) <==> s.contains(x) || x == v);
}

proof fn lemma_flags(flags: u32)
    ensures
        bit_set(flags, 0) <==> flags & 0x1 != 0,
        bit_set(flags, 1) <==> flags & 0x2 != 0,
        bit_set(flags, 2) <==> flags & 0x4 != 0,
        bit_set(flags, 3) <==> flags & 0x8 != 0,
        bit_set(flags, 16) <==> flags & 0x1_0000 != 0,
        bit_set(flags, 17) <==> flags & 0x2_0000 != 0,
        bit_set(flags, 18) <==> flags & 0x4_0000 != 0,
        bit_set(flags, 19) <==> flags & 0x8_0000 != 0,
{
    assert(1u32 << 0u32 == 0x1 && 1u32 << 1u32 == 0x2 && 1u32 << 2u32 == 0x4 && 1u32 << 3u32 == 0x8
        && 1u32 << 16u32 == 0x1_0000 && 1u32 << 17u32 == 0x2_0000 && 1u32 << 18u32 == 0x4_0000
        && 1u32 << 19u32 == 0x8_0000) by (bit_vector);
}

proof fn lemma_texts(t: u8)
    ensures
        heat_text("CPU"@, " HOT "@, t) == "CPU HOT "@ + decimal(t as nat) + "\u{b0}"@,
        heat_text("CPU"@, " WARM "@, t) == "CPU WARM "@ + decimal(t as nat) + "\u{b0}"@,
        heat_text("NVME"@, " HOT "@, t) == "NVME HOT "@ + decimal(t as nat) + "\u{b0}"@,
        heat_text("NVME"@, " WARM "@, t) == "NVME WARM "@ + decimal(t as nat) + "\u{b0}"@,
        event_name(0) + " SINCE BOOT"@ == "UNDERVOLTAGE SINCE BOOT"@,
        event_name(1) + " SINCE BOOT"@ == "FREQ CAPPED SINCE BOOT"@,
        event_name(2) + " SINCE BOOT"@ == "THROTTLED SINCE BOOT"@,
        event_name(3) + " SINCE BOOT"@ == "SOFT TEMP LIMIT SINCE BOOT"@,
{
    reveal_strlit("CPU");
    reveal_strlit("NVME");
    reveal_strlit(" HOT ");
    reveal_strlit(" WARM ");
    reveal_strlit("CPU HOT ");
    reveal_strlit("CPU WARM ");
    reveal_strlit("NVME HOT ");
    reveal_strlit("NVME WARM ");
    reveal_strlit("UNDERVOLTAGE");
    reveal_strlit("FREQ CAPPED");
    reveal_strlit("THROTTLED");
    reveal_strlit("SOFT TEMP LIMIT");
    reveal_strlit(" SINCE BOOT");
    reveal_strlit("UNDERVOLTAGE SINCE BOOT");
    reveal_strlit("FREQ CAPPED SINCE BOOT");
    reveal_strlit("THROTTLED SINCE BOOT");
    reveal_strlit("SOFT TEMP LIMIT SINCE BOOT");
    assert("CPU"@ + " HOT "@ =~= "CPU HOT "@);
    assert("CPU"@ + " WARM "@ =~= "CPU WARM "@);
    assert("NVME"@ + " HOT "@ =~= "NVME HOT "@);
    assert("NVME"@ + " WARM "@ =~= "NVME WARM "@);
    assert("UNDERVOLTAGE"@ + " SINCE BOOT"@ =~= "UNDERVOLTAGE SINCE BOOT"@);
    assert("FREQ CAPPED"@ + " SINCE BOOT"@ =~= "FREQ CAPPED SINCE BOOT"@);
    assert("THROTTLED"@ + " SINCE BOOT"@ =~= "THROTTLED SINCE BOOT"@);
    assert("SOFT TEMP LIMIT"@ + " SINCE BOOT"@ =~= "SOFT TEMP LIMIT SINCE BOOT"@);
}

/// The list holds a warning exactly when its cause is there: a throttling bit
/// that is set now, or was since boot; the processor or the NVMe drive at 85
/// degrees, or at 75, under its own name and with its own reading; the disk at
/// 95 percent, or at 90; memory at 95 percent.
pub proof fn law_warnings_name_their_cause(
    flags: u32,
    cpu: Option<u8>,
    nvme: Option<u8>,
    disk: u8,
    mem: u8,
    e: (Seq<char>, bool),
)
    ensures
        all_problems(flags, cpu, nvme, disk, mem).contains(e) <==> {
            ||| flags & 0x1 != 0 && e == ("UNDERVOLTAGE"@, true)
            ||| flags & 0x2 != 0 && e == ("FREQ CAPPED"@, true)
            ||| flags & 0x4 != 0 && e == ("THROTTLED"@, true)
            ||| flags & 0x8 != 0 && e == ("SOFT TEMP LIMIT"@, true)
            ||| cpu is Some && cpu->0 >= 85 && e == ("CPU HOT "@ + decimal(cpu->0 as nat) + "\u{b0}"@, true)
            ||| nvme is Some && nvme->0 >= 85 && e == ("NVME HOT "@ + decimal(nvme->0 as nat) + "\u{b0}"@, true)
            ||| disk >= 95 && e == ("DISK "@ + decimal(disk as nat) + "% FULL"@, true)
            ||| flags & 0x1 == 0 && flags & 0x1_0000 != 0 && e == ("UNDERVOLTAGE SINCE BOOT"@, false)
            ||| flags & 0x2 == 0 && flags & 0x2_0000 != 0 && e == ("FREQ CAPPED SINCE BOOT"@, false)
            ||| flags & 0x4 == 0 && flags & 0x4_0000 != 0 && e == ("THROTTLED SINCE BOOT"@, false)
            ||| flags & 0x8 == 0 && flags & 0x8_0000 != 0 && e == ("SOFT TEMP LIMIT SINCE BOOT"@, false)
            ||| cpu is Some && 75 <= cpu->0 < 85 && e == ("CPU WARM "@ + decimal(cpu->0 as nat) + "\u{b0}"@, false)
            ||| nvme is Some && 75 <= nvme->0 < 85 && e == ("NVME WARM "@ + decimal(nvme->0 as nat) + "\u{b0}"@, false)
            ||| 90 <= disk < 95 && e == ("DISK "@ + decimal(disk as nat) + "% FULL"@, false)
            ||| mem >= 95 && e == ("RAM "@ + decimal(mem as nat) + "%"@, false)
        },
{
    lemma_flags(flags);
    lemma_texts(cpu->0);
    lemma_texts(nvme->0);
    lemma_all_in(flags, cpu, nvme, disk, mem, e);
}

proof fn lemma_all_in(
    flags: u32,
    cpu: Option<u8>,
    nvme: Option<u8>,
    disk: u8,
    mem: u8,
    e: (Seq<char>, bool),
)
    ensures
        severe_list(flags, cpu, nvme, disk).contains(e) <==> {
            ||| bit_set(flags, 0) && e == (event_name(0), true)
            ||| bit_set(flags, 1) && e == (event_name(1), true)
            ||| bit_set(flags, 2) && e == (event_name(2), true)
            ||| bit_set(flags, 3) && e == (event_name(3), true)
            ||| cpu is Some && cpu->0 >= 85 && e == (heat_text("CPU"@, " HOT "@, cpu->0), true)
            ||| nvme is Some && nvme->0 >= 85 && e == (heat_text("NVME"@, " HOT "@, nvme->0), true)
            ||| disk >= 95 && e == ("DISK "@ + decimal(disk as nat) + "% FULL"@, true)
        },
        minor_list(flags, cpu, nvme, disk, mem).contains(e) <==> {
            ||| !bit_set(flags, 0) && bit_set(flags, 16) && e == (event_name(0) + " SINCE BOOT"@, false)
            ||| !bit_set(flags, 1) && bit_set(flags, 17) && e == (event_name(1) + " SINCE BOOT"@, false)
            ||| !bit_set(flags, 2) && bit_set(flags, 18) && e == (event_name(2) + " SINCE BOOT"@, false)
            ||| !bit_set(flags, 3) && bit_set(flags, 19) && e == (event_name(3) + " SINCE BOOT"@, false)
            ||| cpu is Some && 75 <= cpu->0 < 85 && e == (heat_text("CPU"@, " WARM "@, cpu->0), false)
            ||| nvme is Some && 75 <= nvme->0 < 85 && e == (heat_text("NVME"@, " WARM "@, nvme->0), false)
            ||| 90 <= disk < 95 && e == ("DISK "@ + decimal(disk as nat) + "% FULL"@, false)
            ||| mem >= 95 && e == ("RAM "@ + decimal(mem as nat) + "%"@, false)
        },
        all_problems(flags, cpu, nvme, disk, mem).contains(e) <==> severe_list(
            flags,
            cpu,
            nvme,
            disk,
        ).contains(e) || minor_list(flags, cpu, nvme, disk, mem).contains(e),
{
    lemma_in_both(severe_list(flags, cpu, nvme, disk), minor_list(flags, cpu, nvme, disk, mem));
    lemma_events_in(flags, e);
    let a = active_events(flags, 4);
    let hot = (heat_text("CPU"@, " HOT "@, cpu->0), true);
    let drive = (heat_text("NVME"@, " HOT "@, nvme->0), true);
    let full = ("DISK "@ + decimal(disk as nat) + "% FULL"@, true);
    lemma_in_push_if(a, cpu is Some && cpu->0 >= 85, hot, e);
    let b = push_if(a, cpu is Some && cpu->0 >= 85, hot);
    lemma_in_push_if(b, nvme is Some && nvme->0 >= 85, drive, e);
    let c = push_if(b, nvme is Some && nvme->0 >= 85, drive);
    lemma_in_push_if(c, disk >= 95, full, e);
    let d = push_if(c, disk >= 95, full);
    assert(severe_list(flags, cpu, nvme, disk) == d);
    let p = past_events(flags, 4);
    let warm = (heat_text("CPU"@, " WARM "@, cpu->0), false);
    let drive_warm = (heat_text("NVME"@, " WARM "@, nvme->0), false);
    let filling = ("DISK "@ + decimal(disk as nat) + "% FULL"@, false);
    let ram = ("RAM "@ + decimal(mem as nat) + "%"@, false);
    lemma_in_push_if(p, cpu is Some && 75 <= cpu->0 < 85, warm, e);
    let q = push_if(p, cpu is Some && 75 <= cpu->0 < 85, warm);
    lemma_in_push_if(q, nvme is Some && 75 <= nvme->0 < 85, drive_warm, e);
    let r = push_if(q, nvme is Some && 75 <= nvme->0 < 85, drive_warm);
    lemma_in_push_if(r, 90 <= disk < 95, filling, e);
    let t = push_if(r, 90 <= disk < 95, filling);
    lemma_in_push_if(t, mem >= 95, ram, e);
    let u = push_if(t, mem >= 95, ram);
    assert(minor_list(flags, cpu, nvme, disk, mem) == u);
}

proof fn lemma_event_step(flags: u32, n: nat, x: (Seq<char>, bool))
    requires
        n < 4,
    ensures
        active_events(flags, n + 1).contains(x) <==> active_events(flags, n).contains(x) || (
        bit_set(flags, n as u32) && x == (event_name(n as int), true)),
        past_events(flags, n + 1).contains(x) <==> past_events(flags, n).contains(x) || (!bit_set(
            flags,
            n as u32,
        ) && bit_set(flags, (n + 16) as u32) && x == (
            event_name(n as int) + " SINCE BOOT"@,
            false,
        )),
{
    lemma_in_push_if(
        active_events(flags, n),
        bit_set(flags, n as u32),
        (event_name(n as int), true),
        x,
    );
    lemma_in_push_if(
        past_events(flags, n),
        !bit_set(flags, n as u32) && bit_set(flags, (n + 16) as u32),
        (event_name(n as int) + " SINCE BOOT"@, false),
        x,
    );
}

proof fn lemma_events_in(flags: u32, e: (Seq<char>, bool))
    ensures
        active_events(flags, 4).contains(e) <==> {
            ||| bit_set(flags, 0) && e == (event_name(0), true)
            ||| bit_set(flags, 1) && e == (event_name(1), true)
            ||| bit_set(flags, 2) && e == (event_name(2), true)
            ||| bit_set(flags, 3) && e == (event_name(3), true)
        },
        past_events(flags, 4).contains(e) <==> {
            ||| !bit_set(flags, 0) && bit_set(flags, 16) && e == (event_name(0) + " SINCE BOOT"@, false)
            ||| !bit_set(flags, 1) && bit_set(flags, 17) && e == (event_name(1) + " SINCE BOOT"@, false)
            ||| !bit_set(flags, 2) && bit_set(flags, 18) && e == (event_name(2) + " SINCE BOOT"@, false)
            ||| !bit_set(flags, 3) && bit_set(flags, 19) && e == (event_name(3) + " SINCE BOOT"@, false)
        },
{
    let none = Seq::<(Seq<char>, bool)>::empty();
    assert(active_events(flags, 0) =~= none);
    assert(past_events(flags, 0) =~= none);
    lemma_event_step(flags, 0, e);
    lemma_event_step(flags, 1, e);
    lemma_event_step(flags, 2, e);
    lemma_event_step(flags, 3, e);
}

/// Whether a list of warnings holds one that begins with the given text.
pub open spec fn one_begins(w: Seq<(Seq<char>, bool)>, t: Seq<char>) -> bool {
    exists|e: (Seq<char>, bool)| #[trigger]
        w.contains(e) && t.len() <= e.0.len() && e.0.take(t.len() as int) == t
}

/// A heat warning names the sensor that it is about: there is one of the
/// processor exactly when that reads 75 degrees or more, and one of the NVMe
/// drive exactly when that does.
pub proof fn law_heat_warnings_name_their_sensor(
    flags: u32,
    cpu: Option<u8>,
    nvme: Option<u8>,
    disk: u8,
    mem: u8,
)
    ensures
        one_begins(all_problems(flags, cpu, nvme, disk, mem), "CPU"@) <==> cpu is Some && cpu->0
            >= 75,
        one_begins(all_problems(flags, cpu, nvme, disk, mem), "NVME"@) <==> nvme is Some && nvme->0
            >= 75,
        one_begins(all_problems(flags, cpu, nvme, disk, mem), "DISK"@) <==> disk >= 90,
        one_begins(all_problems(flags, cpu, nvme, disk, mem), "RAM"@) <==> mem >= 95,
{
    let w = all_problems(flags, cpu, nvme, disk, mem);
    reveal_strlit("CPU");
    reveal_strlit("NVME");
    reveal_strlit("DISK");
    reveal_strlit("RAM");
    assert forall|e: (Seq<char>, bool)| #[trigger] w.contains(e) implies {
        &&& e.0.len() >= 4
        &&& e.0.take(3) == "CPU"@ ==> cpu is Some && cpu->0 >= 75
        &&& e.0.take(4) == "NVME"@ ==> nvme is Some && nvme->0 >= 75
        &&& e.0.take(4) == "DISK"@ ==> disk >= 90
        &&& e.0.take(3) == "RAM"@ ==> mem >= 95
    } by {
        law_warnings_name_their_cause(flags, cpu, nvme, disk, mem, e);
        lemma_heads(cpu->0, nvme->0, disk, mem);
        assert(e.0.take(3)[0] == e.0[0]);
        assert(e.0.take(4)[0] == e.0[0]);
    }
    lemma_heads(cpu->0, nvme->0, disk, mem);
    if cpu is Some && cpu->0 >= 75 {
        let e = if cpu->0 >= 85 {
            ("CPU HOT "@ + decimal(cpu->0 as nat) + "\u{b0}"@, true)
        } else {
            ("CPU WARM "@ + decimal(cpu->0 as nat) + "\u{b0}"@, false)
        };
        law_warnings_name_their_cause(flags, cpu, nvme, disk, mem, e);
        assert(w.contains(e));
        assert(e.0.take(3) =~= "CPU"@);
    }
    if nvme is Some && nvme->0 >= 75 {
        let e = if nvme->0 >= 85 {
            ("NVME HOT "@ + decimal(nvme->0 as nat) + "\u{b0}"@, true)
        } else {
            ("NVME WARM "@ + decimal(nvme->0 as nat) + "\u{b0}"@, false)
        };
        law_warnings_name_their_cause(flags, cpu, nvme, disk, mem, e);
        assert(w.contains(e));
        assert(e.0.take(4) =~= "NVME"@);
    }
    if disk >= 90 {
        let e = ("DISK "@ + decimal(disk as nat) + "% FULL"@, disk >= 95);
        law_warnings_name_their_cause(flags, cpu, nvme, disk, mem, e);
        assert(w.contains(e));
        assert(e.0.take(4) =~= "DISK"@);
    }
    if mem >= 95 {
        let e = ("RAM "@ + decimal(mem as nat) + "%"@, false);
        law_warnings_name_their_cause(flags, cpu, nvme, disk, mem, e);
        assert(w.contains(e));
        assert(e.0.take(3) =~= "RAM"@);
    }
}

/// How the texts of the warnings begin.
proof fn lemma_heads(cpu: u8, nvme: u8, disk: u8, mem: u8)
    ensures
        ({
            let a = "CPU HOT "@ + decimal(cpu as nat) + "\u{b0}"@;
            let b = "CPU WARM "@ + decimal(cpu as nat) + "\u{b0}"@;
            let c = "NVME HOT "@ + decimal(nvme as nat) + "\u{b0}"@;
            let d = "NVME WARM "@ + decimal(nvme as nat) + "\u{b0}"@;
            let f = "DISK "@ + decimal(disk as nat) + "% FULL"@;
            let g = "RAM "@ + decimal(mem as nat) + "%"@;
            &&& a.len() >= 4 && a[0] == 'C' && a[1] == 'P' && a[2] == 'U'
            &&& b.len() >= 4 && b[0] == 'C' && b[1] == 'P' && b[2] == 'U'
            &&& c.len() >= 4 && c[0] == 'N' && c[1] == 'V' && c[2] == 'M' && c[3] == 'E'
            &&& d.len() >= 4 && d[0] == 'N' && d[1] == 'V' && d[2] == 'M' && d[3] == 'E'
            &&& f.len() >= 4 && f[0] == 'D' && f[1] == 'I' && f[2] == 'S' && f[3] == 'K'
            &&& g.len() >= 4 && g[0] == 'R' && g[1] == 'A' && g[2] == 'M'
        }),
        "UNDERVOLTAGE"@.len() >= 4 && "UNDERVOLTAGE"@[0] == 'U',
        "FREQ CAPPED"@.len() >= 4 && "FREQ CAPPED"@[0] == 'F',
        "THROTTLED"@.len() >= 4 && "THROTTLED"@[0] == 'T',
        "SOFT TEMP LIMIT"@.len() >= 4 && "SOFT TEMP LIMIT"@[0] == 'S',
        "UNDERVOLTAGE SINCE BOOT"@.len() >= 4 && "UNDERVOLTAGE SINCE BOOT"@[0] == 'U',
        "FREQ CAPPED SINCE BOOT"@.len() >= 4 && "FREQ CAPPED SINCE BOOT"@[0] == 'F',
        "THROTTLED SINCE BOOT"@.len() >= 4 && "THROTTLED SINCE BOOT"@[0] == 'T',
        "SOFT TEMP LIMIT SINCE BOOT"@.len() >= 4 && "SOFT TEMP LIMIT SINCE BOOT"@[0] == 'S',
{
    reveal_strlit("CPU HOT ");
    reveal_strlit("CPU WARM ");
    reveal_strlit("NVME HOT ");
    reveal_strlit("NVME WARM ");
    reveal_strlit("DISK ");
    reveal_strlit("RAM ");
    reveal_strlit("UNDERVOLTAGE");
    reveal_strlit("FREQ CAPPED");
    reveal_strlit("THROTTLED");
    reveal_strlit("SOFT TEMP LIMIT");
    reveal_strlit("UNDERVOLTAGE SINCE BOOT");
    reveal_strlit("FREQ CAPPED SINCE BOOT");
    reveal_strlit("THROTTLED SINCE BOOT");
    reveal_strlit("SOFT TEMP LIMIT SINCE BOOT");
}

/// Where a warning stands among those of its severity, by what it is about:
/// throttling, the processor, the NVMe drive, the disk, memory.
pub open spec fn rank(t: Seq<char>) -> int {
    if t[0] == 'U' {
        0
    } else if t[0] == 'F' {
        1
    } else if t[0] == 'T' {
        2
    } else if t[0] == 'S' {
        3
    } else if t[0] == 'C' {
        4
    } else if t[0] == 'N' {
        5
    } else if t[0] == 'D' {
        6
    } else {
        7
    }
}

/// Whether warnings of one severity come in order, each about something else.
pub open spec fn ordered(w: Seq<(Seq<char>, bool)>) -> bool {
    forall|i: int, j: int|
        0 <= i < j < w.len() && (#[trigger] w[i]).1 == (#[trigger] w[j]).1 ==> rank(w[i].0) < rank(
            w[j].0,
        )
}

proof fn lemma_ordered_push(w: Seq<(Seq<char>, bool)>, c: bool, e: (Seq<char>, bool), n: int)
    requires
        ordered(w),
        forall|i: int| 0 <= i < w.len() ==> rank((#[trigger] w[i]).0) < n && w[i].1 == e.1,
        rank(e.0) == n,
    ensures
        ordered(push_if(w, c, e)),
        forall|i: int|
            0 <= i < push_if(w, c, e).len() ==> rank((#[trigger] push_if(w, c, e)[i]).0) < n + 1
                && push_if(w, c, e)[i].1 == e.1,
{
    let t = push_if(w, c, e);
    assert forall|i: int, j: int|
        0 <= i < j < t.len() && (#[trigger] t[i]).1 == (#[trigger] t[j]).1 implies rank(t[i].0)
        < rank(t[j].0) by {
        assert(t[i] == w[i]);
        if j < w.len() {
            assert(t[j] == w[j]);
        }
    }
    assert forall|i: int| 0 <= i < t.len() implies rank((#[trigger] t[i]).0) < n + 1 && t[i].1
        == e.1 by {
        if i < w.len() {
            assert(t[i] == w[i]);
        }
    }
}

proof fn lemma_events_ordered(flags: u32, n: nat)
    requires
        n <= 4,
    ensures
        ordered(active_events(flags, n)),
        ordered(past_events(flags, n)),
        forall|i: int|
            0 <= i < active_events(flags, n).len() ==> rank((#[trigger] active_events(flags, n)[i]).0)
                < n && active_events(flags, n)[i].1,
        forall|i: int|
            0 <= i < past_events(flags, n).len() ==> rank((#[trigger] past_events(flags, n)[i]).0) < n
                && !past_events(flags, n)[i].1,
    decreases n,
{
    if n > 0 {
        let m = (n - 1) as nat;
        lemma_events_ordered(flags, m);
        lemma_heads(0, 0, 0, 0);
        lemma_texts(0);
        lemma_ordered_push(
            active_events(flags, m),
            bit_set(flags, m as u32),
            (event_name(m as int), true),
            m as int,
        );
        lemma_ordered_push(
            past_events(flags, m),
            !bit_set(flags, m as u32) && bit_set(flags, (n + 15) as u32),
            (event_name(m as int) + " SINCE BOOT"@, false),
            m as int,
        );
    }
}

proof fn lemma_severe_ordered(flags: u32, cpu: Option<u8>, nvme: Option<u8>, disk: u8)
    ensures
        ordered(severe_list(flags, cpu, nvme, disk)),
        forall|i: int|
            0 <= i < severe_list(flags, cpu, nvme, disk).len() ==> (#[trigger] severe_list(
                flags,
                cpu,
                nvme,
                disk,
            )[i]).1,
{
    lemma_events_ordered(flags, 4);
    lemma_heads(cpu->0, nvme->0, disk, 0);
    lemma_texts(cpu->0);
    lemma_texts(nvme->0);
    let a = active_events(flags, 4);
    let hot = (heat_text("CPU"@, " HOT "@, cpu->0), true);
    let drive = (heat_text("NVME"@, " HOT "@, nvme->0), true);
    let full = ("DISK "@ + decimal(disk as nat) + "% FULL"@, true);
    assert(rank(hot.0) == 4 && rank(drive.0) == 5 && rank(full.0) == 6);
    lemma_ordered_push(a, cpu is Some && cpu->0 >= 85, hot, 4);
    let b = push_if(a, cpu is Some && cpu->0 >= 85, hot);
    lemma_ordered_push(b, nvme is Some && nvme->0 >= 85, drive, 5);
    let c = push_if(b, nvme is Some && nvme->0 >= 85, drive);
    lemma_ordered_push(c, disk >= 95, full, 6);
}

proof fn lemma_minor_ordered(flags: u32, cpu: Option<u8>, nvme: Option<u8>, disk: u8, mem: u8)
    ensures
        ordered(minor_list(flags, cpu, nvme, disk, mem)),
        forall|i: int|
            0 <= i < minor_list(flags, cpu, nvme, disk, mem).len() ==> !(#[trigger] minor_list(
                flags,
                cpu,
                nvme,
                disk,
                mem,
            )[i]).1,
{
    lemma_events_ordered(flags, 4);
    lemma_heads(cpu->0, nvme->0, disk, mem);
    lemma_texts(cpu->0);
    lemma_texts(nvme->0);
    let p = past_events(flags, 4);
    let warm = (heat_text("CPU"@, " WARM "@, cpu->0), false);
    let drive = (heat_text("NVME"@, " WARM "@, nvme->0), false);
    let filling = ("DISK "@ + decimal(disk as nat) + "% FULL"@, false);
    let ram = ("RAM "@ + decimal(mem as nat) + "%"@, false);
    assert(rank(warm.0) == 4 && rank(drive.0) == 5 && rank(filling.0) == 6 && rank(ram.0) == 7);
    lemma_ordered_push(p, cpu is Some && 75 <= cpu->0 < 85, warm, 4);
    let q = push_if(p, cpu is Some && 75 <= cpu->0 < 85, warm);
    lemma_ordered_push(q, nvme is Some && 75 <= nvme->0 < 85, drive, 5);
    let r = push_if(q, nvme is Some && 75 <= nvme->0 < 85, drive);
    lemma_ordered_push(r, 90 <= disk < 95, filling, 6);
    let t = push_if(r, 90 <= disk < 95, filling);
    lemma_ordered_push(t, mem >= 95, ram, 7);
}

/// The warnings come worst first: all that are severe before all that are not,
/// and in either group throttling, then the processor, then the NVMe drive,
/// then the disk, then memory, none of them twice.
pub proof fn law_warnings_come_in_order(
    flags: u32,
    cpu: Option<u8>,
    nvme: Option<u8>,
    disk: u8,
    mem: u8,
    i: int,
    j: int,
)
    requires
        0 <= i < j < all_problems(flags, cpu, nvme, disk, mem).len(),
    ensures
        ({
            let w = all_problems(flags, cpu, nvme, disk, mem);
            &&& w[j].1 ==> w[i].1
            &&& w[i].1 == w[j].1 ==> rank(w[i].0) < rank(w[j].0)
        }),
{
    lemma_severe_ordered(flags, cpu, nvme, disk);
    lemma_minor_ordered(flags, cpu, nvme, disk, mem);
    let x = severe_list(flags, cpu, nvme, disk);
    let y = minor_list(flags, cpu, nvme, disk, mem);
    let w = all_problems(flags, cpu, nvme, disk, mem);
    if j < x.len() {
        assert(w[i] == x[i] && w[j] == x[j]);
    } else if i >= x.len() {
        assert(w[i] == y[i - x.len()] && w[j] == y[j - x.len()]);
    } else {
        assert(w[i] == x[i] && w[j] == y[j - x.len()]);
    }
}

/// The host's problems are the warnings for its own readings: its throttling
/// bits, its processor's and its NVMe drive's temperature, its disk and its
/// memory.
pub proof fn law_problems_are_those_of_the_readings(s: Stats)
    ensures
        s.problems() == all_problems(
            s.throttled,
            s.temps().0,
            s.temps().1,
            s.disk_percentage(),
            s.memory_percentage(),
        ),
{
}

} // verus!
