//! The history: series keep their newest samples, and the schedule keeps
//! their graphs to their windows.

use vstd::prelude::*;

use crate::history::{
    bumped, interval_millis, percent, pushed, temp_sample, FirstReadings, HistoryView, SamplerConfig,
    SamplerView, HISTORY_CAP,
};

verus! {

/// A series after a list of samples, one after the other.
pub open spec fn pushed_all<T>(s: Seq<T>, more: Seq<T>) -> Seq<T>
    decreases more.len(),
{
    if more.len() == 0 {
        s
    } else {
        pushed(pushed_all(s, more.drop_last()), more.last())
    }
}

/// The newest samples of a list, as many as a series holds.
pub open spec fn newest<T>(s: Seq<T>) -> Seq<T> {
    if s.len() <= HISTORY_CAP {
        s
    } else {
        s.skip(s.len() - HISTORY_CAP)
    }
}

/// A series holds the newest of all samples that it was given, in order, up
/// to its cap.
pub proof fn law_series_keep_the_newest<T>(s: Seq<T>, more: Seq<T>)
    requires
        s.len() <= HISTORY_CAP,
    ensures
        pushed_all(s, more) == newest(s + more),
        pushed_all(s, more).len() <= HISTORY_CAP,
        more.len() > 0 ==> pushed_all(s, more).last() == more.last(),
    decreases more.len(),
{
    if more.len() == 0 {
        assert(s + more =~= s);
    } else {
        law_series_keep_the_newest(s, more.drop_last());
        let all = s + more;
        assert(all.drop_last() =~= s + more.drop_last());
        assert(pushed_all(s, more) =~= newest(all));
    }
}

/// A sampler's history is within its bounds from the start.
pub proof fn law_history_starts_bounded(cfg: SamplerConfig, r: FirstReadings, now: int)
    ensures
        SamplerView::first(cfg, r, now).history.bounded(),
{
}

/// No sample takes a history beyond its bounds, and each kind of sample
/// leaves the other series alone.
pub proof fn law_history_stays_bounded(
    s: SamplerView,
    total: u8,
    cores: Seq<u8>,
    load: u8,
    cpu: Option<u8>,
    nvme: Option<u8>,
    used: int,
    all: int,
    ops: Option<u64>,
    count: u32,
    net: (u64, u64),
    rx: u32,
    tx: u32,
    storage: Option<(Seq<char>, u64, u64)>,
    now: int,
)
    requires
        s.history.bounded(),
    ensures
        s.with_cpu(total, cores, load, now).history.bounded(),
        s.with_temps(cpu, nvme, now).history.bounded(),
        s.with_mem(used, all, now).history.bounded(),
        s.with_io(ops, count, now).history.bounded(),
        s.with_net(net, rx, tx, now).history.bounded(),
        s.with_storage(storage, now).history.bounded(),
        s.with_cpu(total, cores, load, now).history == (HistoryView {
            total: pushed(s.history.total, total),
            cores: s.with_cpu(total, cores, load, now).history.cores,
            load: pushed(s.history.load, load),
            ..s.history
        }),
        s.with_cpu(total, cores, load, now).history.cores.len() == cores.len(),
        s.with_temps(cpu, nvme, now).history == (HistoryView {
            temps: s.with_temps(cpu, nvme, now).history.temps,
            ..s.history
        }),
        s.with_mem(used, all, now).history == (HistoryView {
            mem: pushed(s.history.mem, percent(used, all) as u8),
            ..s.history
        }),
        s.with_io(ops, count, now).history == (HistoryView {
            iops: pushed(s.history.iops, count),
            ..s.history
        }),
        s.with_net(net, rx, tx, now).history == (HistoryView {
            net_rx: pushed(s.history.net_rx, rx),
            net_tx: pushed(s.history.net_tx, tx),
            ..s.history
        }),
        s.with_storage(storage, now).history == (HistoryView { vm_storage: storage, ..s.history }),
{
}

/// Temperature rows stay what they are: a reading changes no label and no
/// number of series, and it adds one sample to each, the oldest making room
/// where the series is full.
pub proof fn law_temperature_rows_stay(
    s: SamplerView,
    cpu: Option<u8>,
    nvme: Option<u8>,
    now: int,
    i: int,
)
    requires
        0 <= i < s.history.temps.len(),
        s.history.temps[i].1.len() <= HISTORY_CAP,
    ensures
        s.with_temps(cpu, nvme, now).history.temps.len() == s.history.temps.len(),
        s.with_temps(cpu, nvme, now).history.temps[i].0 == s.history.temps[i].0,
        s.with_temps(cpu, nvme, now).history.temps[i].1.len() == if s.history.temps[i].1.len()
            < HISTORY_CAP {
            s.history.temps[i].1.len() + 1
        } else {
            HISTORY_CAP as nat
        },
        s.with_temps(cpu, nvme, now).history.temps[i].1.last() == temp_sample(
            s.history.temps[i],
            cpu,
            nvme,
        ),
{
}

/// Sampled at its interval, a graph with one sample per column spans its
/// window, to within a millisecond per column, unless the window is so short
/// that the least interval of a tenth of a second stretches it.
pub proof fn law_graphs_span_their_window(window_secs: int, columns: int)
    requires
        window_secs >= 1,
        columns >= 1,
    ensures
        interval_millis(window_secs, columns) >= 100,
        window_secs * 1000 >= 100 * columns ==> {
            &&& columns * interval_millis(window_secs, columns) <= window_secs * 1000
            &&& window_secs * 1000 < columns * (interval_millis(window_secs, columns) + 1)
        },
{
    let (a, b) = (window_secs * 1000, columns);
    let q = a / b;
    assert(b * q <= a < b * (q + 1)) by (nonlinear_arith)
        requires
            q == a / b,
            b >= 1,
    ;
    if a >= 100 * b {
        assert(q >= 100) by (nonlinear_arith)
            requires
                a >= 100 * b,
                q == a / b,
                b >= 1,
        ;
    }
}

/// The next deadline of a series is never in the past and never more than
/// one interval away.
pub proof fn law_deadlines_lie_ahead(deadline: int, interval: int, now: int)
    requires
        deadline <= now,
        interval >= 0,
    ensures
        now <= bumped(deadline, interval, now) <= now + interval,
{
}

/// A sampler wakes up in time for each of its series, and never without one
/// of them being due.
pub proof fn law_wakes_for_the_earliest(s: SamplerView)
    ensures
        s.earliest() <= s.next_cpu,
        s.earliest() <= s.next_temp,
        s.earliest() <= s.next_mem,
        s.earliest() <= s.next_io,
        s.earliest() <= s.next_net,
        s.earliest() <= s.next_storage,
        s.earliest() == s.next_cpu || s.earliest() == s.next_temp || s.earliest() == s.next_mem
            || s.earliest() == s.next_io || s.earliest() == s.next_net || s.earliest()
            == s.next_storage,
{
}

/// A series takes its new sample at the end. It holds up to 160, and at that
/// the oldest makes room; all others stay in order.
pub proof fn law_samples_go_to_the_end<T>(s: Seq<T>, v: T, i: int)
    requires
        s.len() <= 160,
    ensures
        pushed(s, v).len() == if s.len() < 160 {
            s.len() + 1
        } else {
            160
        },
        pushed(s, v)[pushed(s, v).len() - 1] == v,
        s.len() < 160 && 0 <= i < s.len() ==> pushed(s, v)[i] == s[i],
        s.len() == 160 && 0 <= i < 159 ==> pushed(s, v)[i] == s[i + 1],
{
}

/// A processor sample adds to the series of all cores together, to that of the
/// load, and to that of each core its own usage. A core that was not there
/// before starts a series, and one that is gone loses its own.
pub proof fn law_cores_take_their_own_samples(
    s: SamplerView,
    total: u8,
    cores: Seq<u8>,
    load: u8,
    now: int,
    i: int,
)
    ensures
        ({
            let h = s.with_cpu(total, cores, load, now).history;
            &&& h.total == pushed(s.history.total, total)
            &&& h.load == pushed(s.history.load, load)
            &&& h.cores.len() == cores.len()
            &&& 0 <= i < cores.len() && i < s.history.cores.len() ==> h.cores[i] == pushed(
                s.history.cores[i],
                cores[i],
            )
            &&& s.history.cores.len() <= i < cores.len() ==> h.cores[i] == seq![cores[i]]
        }),
{
    if s.history.cores.len() <= i < cores.len() {
        let h = s.with_cpu(total, cores, load, now).history;
        assert(h.cores[i] =~= seq![cores[i]]);
    }
}

/// A temperature series takes its own sensor's reading, the processor's or the
/// NVMe drive's by its label; where that is missing it repeats its last sample.
pub proof fn law_temperatures_take_their_own_samples(
    s: SamplerView,
    cpu: Option<u8>,
    nvme: Option<u8>,
    now: int,
    i: int,
    own: Option<u8>,
)
    requires
        0 <= i < s.history.temps.len(),
        own == if s.history.temps[i].0 == "CPU"@ {
            cpu
        } else {
            nvme
        },
    ensures
        ({
            let (label, old) = s.history.temps[i];
            let (name, new) = s.with_temps(cpu, nvme, now).history.temps[i];
            &&& name == label
            &&& own is Some ==> new == pushed(old, own->0)
            &&& own is None && old.len() > 0 ==> new == pushed(old, old[old.len() - 1])
            &&& own is None && old.len() == 0 ==> new == pushed(old, 0)
        }),
{
}

/// How the history starts: a series for each sensor that reads, under its name
/// and with that reading, the processor's before the NVMe drive's; one memory
/// sample; the storage; nothing else.
pub proof fn law_first_samples(cfg: SamplerConfig, r: FirstReadings, now: int)
    ensures
        ({
            let h = SamplerView::first(cfg, r, now).history;
            &&& h.total.len() == 0 && h.cores.len() == 0 && h.iops.len() == 0 && h.load.len() == 0
            &&& h.net_rx.len() == 0 && h.net_tx.len() == 0
            &&& h.mem == seq![percent(r.mem_used as int, r.mem_total as int) as u8]
            &&& r.cpu_temp is Some && r.nvme_temp is Some ==> h.temps == seq![
                ("CPU"@, seq![r.cpu_temp->0]),
                ("NVME"@, seq![r.nvme_temp->0]),
            ]
            &&& r.cpu_temp is Some && r.nvme_temp is None ==> h.temps == seq![
                ("CPU"@, seq![r.cpu_temp->0]),
            ]
            &&& r.cpu_temp is None && r.nvme_temp is Some ==> h.temps == seq![
                ("NVME"@, seq![r.nvme_temp->0]),
            ]
            &&& r.cpu_temp is None && r.nvme_temp is None ==> h.temps.len() == 0
            &&& r.vm_storage is None ==> h.vm_storage is None
            &&& r.vm_storage is Some ==> h.vm_storage == Some(
                ((r.vm_storage->0).0@, (r.vm_storage->0).1, (r.vm_storage->0).2),
            )
        }),
{
    let h = SamplerView::first(cfg, r, now).history;
    if r.cpu_temp is Some && r.nvme_temp is Some {
        assert(h.temps =~= seq![
            ("CPU"@, seq![r.cpu_temp->0]),
            ("NVME"@, seq![r.nvme_temp->0]),
        ]);
    } else if r.cpu_temp is Some {
        assert(h.temps =~= seq![("CPU"@, seq![r.cpu_temp->0])]);
    } else if r.nvme_temp is Some {
        assert(h.temps =~= seq![("NVME"@, seq![r.nvme_temp->0])]);
    }
}

/// When a series is first due: one of its own intervals from the start, the
/// storage after a minute. What was counted by then is what later readings
/// are compared with.
pub proof fn law_first_deadlines(cfg: SamplerConfig, r: FirstReadings, now: int)
    ensures
        ({
            let s = SamplerView::first(cfg, r, now);
            &&& s.next_cpu == now + cfg.cpu
            &&& s.next_temp == now + cfg.temp
            &&& s.next_mem == now + cfg.mem
            &&& s.next_io == now + cfg.io
            &&& s.next_net == now + cfg.net
            &&& s.next_storage == now + 60_000_000_000
            &&& s.prev_ops == r.disk_ops
            &&& s.prev_net == r.net
            &&& s.cfg == cfg
        }),
{
}

/// Whether a deadline has moved on by its interval, or to one interval from
/// now where even that would have been missed.
pub open spec fn moved(was: int, got: int, interval: int, now: int) -> bool {
    if was + interval >= now {
        got == was + interval
    } else {
        got == now + interval
    }
}

/// Whether two samplers have the same deadlines, but for the one that is
/// named.
pub open spec fn same_but(a: SamplerView, b: SamplerView, which: int) -> bool {
    &&& which == 0 || a.next_cpu == b.next_cpu
    &&& which == 1 || a.next_temp == b.next_temp
    &&& which == 2 || a.next_mem == b.next_mem
    &&& which == 3 || a.next_io == b.next_io
    &&& which == 4 || a.next_net == b.next_net
    &&& which == 5 || a.next_storage == b.next_storage
    &&& which == 3 || a.prev_ops == b.prev_ops
    &&& which == 4 || a.prev_net == b.prev_net
    &&& a.cfg == b.cfg
}

/// Each kind of sample moves its own deadline by its own interval and no
/// other; a count becomes the one that the next is compared with.
pub proof fn law_samples_move_their_own_deadline(
    s: SamplerView,
    total: u8,
    cores: Seq<u8>,
    load: u8,
    cpu: Option<u8>,
    nvme: Option<u8>,
    used: int,
    all: int,
    ops: Option<u64>,
    count: u32,
    net: (u64, u64),
    rx: u32,
    tx: u32,
    storage: Option<(Seq<char>, u64, u64)>,
    now: int,
)
    ensures
        ({
            let t = s.with_cpu(total, cores, load, now);
            moved(s.next_cpu, t.next_cpu, s.cfg.cpu as int, now) && same_but(s, t, 0)
        }),
        ({
            let t = s.with_temps(cpu, nvme, now);
            moved(s.next_temp, t.next_temp, s.cfg.temp as int, now) && same_but(s, t, 1)
        }),
        ({
            let t = s.with_mem(used, all, now);
            moved(s.next_mem, t.next_mem, s.cfg.mem as int, now) && same_but(s, t, 2)
        }),
        ({
            let t = s.with_io(ops, count, now);
            moved(s.next_io, t.next_io, s.cfg.io as int, now) && same_but(s, t, 3) && t.prev_ops
                == ops
        }),
        ({
            let t = s.with_net(net, rx, tx, now);
            moved(s.next_net, t.next_net, s.cfg.net as int, now) && same_but(s, t, 4) && t.prev_net
                == net
        }),
        ({
            let t = s.with_storage(storage, now);
            moved(s.next_storage, t.next_storage, 60_000_000_000, now) && same_but(s, t, 5)
        }),
{
}

/// A window of no seconds counts as one of a second.
pub proof fn law_shortest_window(columns: int)
    requires
        columns >= 1,
    ensures
        interval_millis(0, columns) == interval_millis(1, columns),
{
}

} // verus!
