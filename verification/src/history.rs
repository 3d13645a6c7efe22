//! Rolling history of the host's statistics, and the schedule by which its
//! series advance.

use std::collections::VecDeque;

use vstd::prelude::*;

use crate::host::{ops_between, ops_delta};
use crate::storage::{storage_view, Storage};
use crate::text::{chars_of, same_text};

verus! {

/// More samples than any graph has columns; pages show the newest samples
/// of a series, so the span of a graph is set by the interval alone.
pub const HISTORY_CAP: usize = 160;

/// How often the storage figures are read, in nanoseconds.
pub const STORAGE_INTERVAL: u128 = 60_000_000_000;

// ---- a series ----

/// A series with one more sample: at the cap, the oldest makes room.
pub open spec fn pushed<T>(s: Seq<T>, v: T) -> Seq<T> {
    if s.len() >= HISTORY_CAP {
        s.drop_first().push(v)
    } else {
        s.push(v)
    }
}

/// Adds a sample to a series of small values.
pub fn push_capped(samples: &mut VecDeque<u8>, value: u8)
    ensures
        final(samples)@ == pushed(old(samples)@, value),
{
    if samples.len() >= HISTORY_CAP {
        samples.pop_front();
    }
    samples.push_back(value);
    assert(samples@ =~= pushed(old(samples)@, value));
}

/// Adds a sample to a series of counts.
pub fn push_capped_u32(samples: &mut VecDeque<u32>, value: u32)
    ensures
        final(samples)@ == pushed(old(samples)@, value),
{
    if samples.len() >= HISTORY_CAP {
        samples.pop_front();
    }
    samples.push_back(value);
    assert(samples@ =~= pushed(old(samples)@, value));
}

/// A percentage of `used` in `total`, cut to eight bits; zero of nothing.
pub open spec fn percent(used: int, total: int) -> int {
    if total == 0 {
        0
    } else {
        used * 100 / total % 256
    }
}

/// A percentage of `used` in `total`, cut to eight bits; zero of nothing.
pub fn percent_of(used: u64, total: u64) -> (p: u8)
    requires
        used * 100 <= u64::MAX,
    ensures
        p == percent(used as int, total as int),
{
    if total == 0 {
        0
    } else {
        let v: u64 = used * 100 / total;
        assert(v as u8 == v % 256) by (bit_vector);
        v as u8
    }
}

// ---- the history ----

/// One tracked temperature sensor. Only sensors present at the start get a
/// series, so pages can lay out rows from the series alone.
pub struct TempSeries {
    pub label: &'static str,
    pub samples: VecDeque<u8>,
}

impl View for TempSeries {
    type V = (Seq<char>, Seq<u8>);

    open spec fn view(&self) -> (Seq<char>, Seq<u8>) {
        (self.label@, self.samples@)
    }
}

/// Rolling statistics, oldest sample first. Each series advances on its own
/// interval, so different pages can span different windows.
pub struct History {
    pub total: VecDeque<u8>,
    pub cores: Vec<VecDeque<u8>>,
    pub temps: Vec<TempSeries>,
    pub mem: VecDeque<u8>,
    pub iops: VecDeque<u32>,
    /// One-minute load average as a percentage of the number of cores.
    pub load: VecDeque<u8>,
    /// Network rates in bytes per second.
    pub net_rx: VecDeque<u32>,
    pub net_tx: VecDeque<u32>,
    /// The node's main storage for virtual machines; none off Proxmox.
    pub vm_storage: Option<Storage>,
}

/// What a history holds.
#[verifier::ext_equal]
pub struct HistoryView {
    pub total: Seq<u8>,
    pub cores: Seq<Seq<u8>>,
    pub temps: Seq<(Seq<char>, Seq<u8>)>,
    pub mem: Seq<u8>,
    pub iops: Seq<u32>,
    pub load: Seq<u8>,
    pub net_rx: Seq<u32>,
    pub net_tx: Seq<u32>,
    pub vm_storage: Option<(Seq<char>, u64, u64)>,
}

/// What a list of series holds.
pub open spec fn series_views(v: Seq<VecDeque<u8>>) -> Seq<Seq<u8>> {
    Seq::new(v.len(), |i: int| v[i]@)
}

/// What a list of temperature series holds.
pub open spec fn temp_views(v: Seq<TempSeries>) -> Seq<(Seq<char>, Seq<u8>)> {
    Seq::new(v.len(), |i: int| v[i]@)
}

/// What an optional storage holds.
pub open spec fn storage_option(s: Option<Storage>) -> Option<(Seq<char>, u64, u64)> {
    match s {
        Some(s) => Some(storage_view(s)),
        None => None,
    }
}

impl View for History {
    type V = HistoryView;

    open spec fn view(&self) -> HistoryView {
        HistoryView {
            total: self.total@,
            cores: series_views(self.cores@),
            temps: temp_views(self.temps@),
            mem: self.mem@,
            iops: self.iops@,
            load: self.load@,
            net_rx: self.net_rx@,
            net_tx: self.net_tx@,
            vm_storage: storage_option(self.vm_storage),
        }
    }
}

impl HistoryView {
    /// Whether no series exceeds the cap.
    pub open spec fn bounded(self) -> bool {
        &&& self.total.len() <= HISTORY_CAP
        &&& forall|i: int| 0 <= i < self.cores.len() ==> (#[trigger] self.cores[i]).len() <= HISTORY_CAP
        &&& forall|i: int|
            0 <= i < self.temps.len() ==> (#[trigger] self.temps[i]).1.len() <= HISTORY_CAP
        &&& self.mem.len() <= HISTORY_CAP
        &&& self.iops.len() <= HISTORY_CAP
        &&& self.load.len() <= HISTORY_CAP
        &&& self.net_rx.len() <= HISTORY_CAP
        &&& self.net_tx.len() <= HISTORY_CAP
    }
}

fn copy_series(v: &VecDeque<u8>) -> (r: VecDeque<u8>)
    ensures
        r@ == v@,
{
    let mut r: VecDeque<u8> = VecDeque::new();
    let mut i: usize = 0;
    while i < v.len()
        invariant
            i <= v@.len(),
            r@ == v@.take(i as int),
        decreases v@.len() - i,
    {
        r.push_back(v[i]);
        i = i + 1;
    }
    r
}

fn copy_counts(v: &VecDeque<u32>) -> (r: VecDeque<u32>)
    ensures
        r@ == v@,
{
    let mut r: VecDeque<u32> = VecDeque::new();
    let mut i: usize = 0;
    while i < v.len()
        invariant
            i <= v@.len(),
            r@ == v@.take(i as int),
        decreases v@.len() - i,
    {
        r.push_back(v[i]);
        i = i + 1;
    }
    r
}

impl Default for History {
    /// An empty history.
    fn default() -> (h: History)
        ensures
            h@ == (HistoryView {
                total: Seq::empty(),
                cores: Seq::empty(),
                temps: Seq::empty(),
                mem: Seq::empty(),
                iops: Seq::empty(),
                load: Seq::empty(),
                net_rx: Seq::empty(),
                net_tx: Seq::empty(),
                vm_storage: None,
            }),
    {
        let h = History {
            total: VecDeque::new(),
            cores: Vec::new(),
            temps: Vec::new(),
            mem: VecDeque::new(),
            iops: VecDeque::new(),
            load: VecDeque::new(),
            net_rx: VecDeque::new(),
            net_tx: VecDeque::new(),
            vm_storage: None,
        };
        assert(series_views(h.cores@) =~= Seq::<Seq<u8>>::empty());
        assert(temp_views(h.temps@) =~= Seq::<(Seq<char>, Seq<u8>)>::empty());
        h
    }
}

impl Clone for History {
    /// A copy that holds the same.
    fn clone(&self) -> (r: History)
        ensures
            r@ == self@,
    {
        let mut cores: Vec<VecDeque<u8>> = Vec::new();
        let mut i: usize = 0;
        while i < self.cores.len()
            invariant
                i <= self.cores@.len(),
                cores@.len() == i,
                forall|j: int| 0 <= j < i ==> (#[trigger] cores@[j])@ == self.cores@[j]@,
            decreases self.cores@.len() - i,
        {
            cores.push(copy_series(&self.cores[i]));
            i = i + 1;
        }
        let mut temps: Vec<TempSeries> = Vec::new();
        let mut k: usize = 0;
        while k < self.temps.len()
            invariant
                k <= self.temps@.len(),
                temps@.len() == k,
                forall|j: int| 0 <= j < k ==> (#[trigger] temps@[j])@ == self.temps@[j]@,
            decreases self.temps@.len() - k,
        {
            temps.push(
                TempSeries {
                    label: self.temps[k].label,
                    samples: copy_series(&self.temps[k].samples),
                },
            );
            k = k + 1;
        }
        let vm_storage = match &self.vm_storage {
            Some(s) => Some((s.0.clone(), s.1, s.2)),
            None => None,
        };
        let r = History {
            total: copy_series(&self.total),
            cores,
            temps,
            mem: copy_series(&self.mem),
            iops: copy_counts(&self.iops),
            load: copy_series(&self.load),
            net_rx: copy_counts(&self.net_rx),
            net_tx: copy_counts(&self.net_tx),
            vm_storage,
        };
        assert(r@ =~~= self@);
        r
    }
}

// ---- the schedule ----

/// Sampling intervals in nanoseconds.
#[derive(Clone, Copy)]
pub struct SamplerConfig {
    pub cpu: u128,
    pub temp: u128,
    pub mem: u128,
    pub io: u128,
    pub net: u128,
}

/// Milliseconds between samples so that `columns` of them span the window,
/// but never less than a tenth of a second.
pub open spec fn interval_millis(window_secs: int, columns: int) -> int {
    let window = if window_secs >= 1 {
        window_secs
    } else {
        1
    };
    if window * 1000 / columns >= 100 {
        window * 1000 / columns
    } else {
        100
    }
}

/// Milliseconds between samples so that `columns` of them span the window.
pub fn sample_interval(window_secs: u64, columns: u64) -> (ms: u64)
    requires
        columns > 0,
        window_secs * 1000 <= u64::MAX,
    ensures
        ms == interval_millis(window_secs as int, columns as int),
{
    let window: u64 = if window_secs >= 1 {
        window_secs
    } else {
        1
    };
    let ms: u64 = window * 1000 / columns;
    if ms >= 100 {
        ms
    } else {
        100
    }
}

/// Graph widths: one sample per column.
pub const GRAPH_WIDTH: usize = 118;

pub const TEMP_GRAPH_WIDTH: usize = 82;

pub const MEM_GRAPH_WIDTH: usize = 105;

pub const IO_GRAPH_WIDTH: usize = 122;

pub const NET_GRAPH_WIDTH: usize = 124;

/// The intervals for the given windows in seconds: each series takes one
/// sample per column of its graph. The network window is at least 300.
pub fn sampler_config(cpu: u64, temp: u64, mem: u64, io: u64, net: u64) -> (c: SamplerConfig)
    requires
        cpu * 1000 <= u64::MAX,
        temp * 1000 <= u64::MAX,
        mem * 1000 <= u64::MAX,
        io * 1000 <= u64::MAX,
        net * 1000 <= u64::MAX,
    ensures
        c.cpu == interval_millis(cpu as int, GRAPH_WIDTH as int) * 1_000_000,
        c.temp == interval_millis(temp as int, TEMP_GRAPH_WIDTH as int) * 1_000_000,
        c.mem == interval_millis(mem as int, MEM_GRAPH_WIDTH as int) * 1_000_000,
        c.io == interval_millis(io as int, IO_GRAPH_WIDTH as int) * 1_000_000,
        c.net == interval_millis(
            if net >= 300 {
                net as int
            } else {
                300
            },
            NET_GRAPH_WIDTH as int,
        ) * 1_000_000,
{
    let net_window: u64 = if net >= 300 {
        net
    } else {
        300
    };
    SamplerConfig {
        cpu: sample_interval(cpu, GRAPH_WIDTH as u64) as u128 * 1_000_000,
        temp: sample_interval(temp, TEMP_GRAPH_WIDTH as u64) as u128 * 1_000_000,
        mem: sample_interval(mem, MEM_GRAPH_WIDTH as u64) as u128 * 1_000_000,
        io: sample_interval(io, IO_GRAPH_WIDTH as u64) as u128 * 1_000_000,
        net: sample_interval(net_window, NET_GRAPH_WIDTH as u64) as u128 * 1_000_000,
    }
}

/// A deadline moved on by its interval; where sampling fell behind, one
/// interval from now.
pub open spec fn bumped(deadline: int, interval: int, now: int) -> int {
    if deadline + interval < now {
        now + interval
    } else {
        deadline + interval
    }
}

fn bump(deadline: u128, interval: u128, now: u128) -> (r: u128)
    requires
        deadline <= now,
        now + interval <= u128::MAX,
    ensures
        r == bumped(deadline as int, interval as int, now as int),
{
    if deadline + interval < now {
        now + interval
    } else {
        deadline + interval
    }
}

/// What is read before sampling starts.
pub struct FirstReadings {
    pub cpu_temp: Option<u8>,
    pub nvme_temp: Option<u8>,
    pub mem_used: u64,
    pub mem_total: u64,
    pub vm_storage: Option<Storage>,
    pub disk_ops: Option<u64>,
    pub net: (u64, u64),
}

/// Which series are due.
#[derive(Clone, Copy, PartialEq, Eq, Structural, Debug)]
pub struct Due {
    pub cpu: bool,
    pub temp: bool,
    pub mem: bool,
    pub io: bool,
    pub net: bool,
    pub storage: bool,
}

/// The state of the sampler: its history, its counters' previous readings,
/// and when each series is due. Times are nanoseconds on any one clock.
pub struct Sampler {
    cfg: SamplerConfig,
    history: History,
    prev_ops: Option<u64>,
    prev_net: (u64, u64),
    next_cpu: u128,
    next_temp: u128,
    next_mem: u128,
    next_io: u128,
    next_net: u128,
    next_storage: u128,
}

/// What a sampler holds.
#[verifier::ext_equal]
pub struct SamplerView {
    pub cfg: SamplerConfig,
    pub history: HistoryView,
    pub prev_ops: Option<u64>,
    pub prev_net: (u64, u64),
    pub next_cpu: int,
    pub next_temp: int,
    pub next_mem: int,
    pub next_io: int,
    pub next_net: int,
    pub next_storage: int,
}

/// The temperature series to start with: one for each sensor that reads,
/// holding that reading.
pub open spec fn first_temps(cpu: Option<u8>, nvme: Option<u8>) -> Seq<(Seq<char>, Seq<u8>)> {
    (match cpu {
        Some(t) => seq![("CPU"@, seq![t])],
        None => Seq::empty(),
    }) + (match nvme {
        Some(t) => seq![("NVME"@, seq![t])],
        None => Seq::empty(),
    })
}

/// A list of series with exactly `n` of them: the first ones kept, empty
/// ones added.
pub open spec fn resized(s: Seq<Seq<u8>>, n: nat) -> Seq<Seq<u8>> {
    Seq::new(
        n,
        |i: int|
            if i < s.len() {
                s[i]
            } else {
                Seq::empty()
            },
    )
}

/// The reading that a temperature series takes: its own sensor's, or its
/// last sample again where the sensor dropped out, or zero.
pub open spec fn temp_sample(s: (Seq<char>, Seq<u8>), cpu: Option<u8>, nvme: Option<u8>) -> u8 {
    let reading = if s.0 == "CPU"@ {
        cpu
    } else {
        nvme
    };
    match reading {
        Some(t) => t,
        None => if s.1.len() > 0 {
            s.1.last()
        } else {
            0
        },
    }
}

impl SamplerView {
    /// A sampler's state when it starts: every series due one interval from
    /// now; memory and the temperatures hold a first sample already, since
    /// their intervals are long.
    pub open spec fn first(cfg: SamplerConfig, r: FirstReadings, now: int) -> SamplerView {
        SamplerView {
            cfg,
            history: HistoryView {
                total: Seq::empty(),
                cores: Seq::empty(),
                temps: first_temps(r.cpu_temp, r.nvme_temp),
                mem: seq![percent(r.mem_used as int, r.mem_total as int) as u8],
                iops: Seq::empty(),
                load: Seq::empty(),
                net_rx: Seq::empty(),
                net_tx: Seq::empty(),
                vm_storage: storage_option(r.vm_storage),
            },
            prev_ops: r.disk_ops,
            prev_net: r.net,
            next_cpu: now + cfg.cpu,
            next_temp: now + cfg.temp,
            next_mem: now + cfg.mem,
            next_io: now + cfg.io,
            next_net: now + cfg.net,
            next_storage: now + STORAGE_INTERVAL,
        }
    }

    /// The earliest deadline.
    pub open spec fn earliest(self) -> int {
        let a = if self.next_cpu <= self.next_temp {
            self.next_cpu
        } else {
            self.next_temp
        };
        let b = if self.next_mem <= self.next_io {
            self.next_mem
        } else {
            self.next_io
        };
        let c = if self.next_net <= self.next_storage {
            self.next_net
        } else {
            self.next_storage
        };
        let d = if a <= b {
            a
        } else {
            b
        };
        if c <= d {
            c
        } else {
            d
        }
    }

    pub open spec fn with_cpu(self, total: u8, cores: Seq<u8>, load: u8, now: int) -> SamplerView {
        let h = self.history;
        let kept = resized(h.cores, cores.len());
        SamplerView {
            history: HistoryView {
                total: pushed(h.total, total),
                cores: Seq::new(cores.len(), |i: int| pushed(kept[i], cores[i])),
                load: pushed(h.load, load),
                ..h
            },
            next_cpu: bumped(self.next_cpu, self.cfg.cpu as int, now),
            ..self
        }
    }

    pub open spec fn with_temps(self, cpu: Option<u8>, nvme: Option<u8>, now: int) -> SamplerView {
        let h = self.history;
        SamplerView {
            history: HistoryView {
                temps: Seq::new(
                    h.temps.len(),
                    |i: int|
                        (h.temps[i].0, pushed(h.temps[i].1, temp_sample(h.temps[i], cpu, nvme))),
                ),
                ..h
            },
            next_temp: bumped(self.next_temp, self.cfg.temp as int, now),
            ..self
        }
    }

    pub open spec fn with_mem(self, used: int, total: int, now: int) -> SamplerView {
        let h = self.history;
        SamplerView {
            history: HistoryView { mem: pushed(h.mem, percent(used, total) as u8), ..h },
            next_mem: bumped(self.next_mem, self.cfg.mem as int, now),
            ..self
        }
    }

    pub open spec fn with_io(self, ops: Option<u64>, iops: u32, now: int) -> SamplerView {
        let h = self.history;
        SamplerView {
            history: HistoryView { iops: pushed(h.iops, iops), ..h },
            prev_ops: ops,
            next_io: bumped(self.next_io, self.cfg.io as int, now),
            ..self
        }
    }

    pub open spec fn with_net(
        self,
        totals: (u64, u64),
        rx: u32,
        tx: u32,
        now: int,
    ) -> SamplerView {
        let h = self.history;
        SamplerView {
            history: HistoryView {
                net_rx: pushed(h.net_rx, rx),
                net_tx: pushed(h.net_tx, tx),
                ..h
            },
            prev_net: totals,
            next_net: bumped(self.next_net, self.cfg.net as int, now),
            ..self
        }
    }

    pub open spec fn with_storage(
        self,
        storage: Option<(Seq<char>, u64, u64)>,
        now: int,
    ) -> SamplerView {
        let h = self.history;
        SamplerView {
            history: HistoryView { vm_storage: storage, ..h },
            next_storage: bumped(self.next_storage, STORAGE_INTERVAL as int, now),
            ..self
        }
    }
}

fn smaller(a: u128, b: u128) -> (r: u128)
    ensures
        r == (if a <= b {
            a
        } else {
            b
        }),
{
    if a <= b {
        a
    } else {
        b
    }
}

impl View for Sampler {
    type V = SamplerView;

    closed spec fn view(&self) -> SamplerView {
        SamplerView {
            cfg: self.cfg,
            history: self.history@,
            prev_ops: self.prev_ops,
            prev_net: self.prev_net,
            next_cpu: self.next_cpu as int,
            next_temp: self.next_temp as int,
            next_mem: self.next_mem as int,
            next_io: self.next_io as int,
            next_net: self.next_net as int,
            next_storage: self.next_storage as int,
        }
    }
}

impl Sampler {
    /// Starts sampling now.
    pub fn start(cfg: SamplerConfig, first: FirstReadings, now: u128) -> (s: Sampler)
        requires
            first.mem_used * 100 <= u64::MAX,
            now + cfg.cpu <= u128::MAX,
            now + cfg.temp <= u128::MAX,
            now + cfg.mem <= u128::MAX,
            now + cfg.io <= u128::MAX,
            now + cfg.net <= u128::MAX,
            now + STORAGE_INTERVAL <= u128::MAX,
        ensures
            s@ == SamplerView::first(cfg, first, now as int),
    {
        let mut history = History::default();
        if let Some(t) = first.cpu_temp {
            let mut samples: VecDeque<u8> = VecDeque::new();
            samples.push_back(t);
            assert(samples@ =~= seq![t]);
            history.temps.push(TempSeries { label: "CPU", samples });
        }
        if let Some(t) = first.nvme_temp {
            let mut samples: VecDeque<u8> = VecDeque::new();
            samples.push_back(t);
            assert(samples@ =~= seq![t]);
            history.temps.push(TempSeries { label: "NVME", samples });
        }
        push_capped(&mut history.mem, percent_of(first.mem_used, first.mem_total));
        history.vm_storage = first.vm_storage;
        let s = Sampler {
            cfg,
            history,
            prev_ops: first.disk_ops,
            prev_net: first.net,
            next_cpu: now + cfg.cpu,
            next_temp: now + cfg.temp,
            next_mem: now + cfg.mem,
            next_io: now + cfg.io,
            next_net: now + cfg.net,
            next_storage: now + STORAGE_INTERVAL,
        };
        assert(s@ =~~= SamplerView::first(cfg, first, now as int));
        s
    }

    /// A copy of the history as it stands.
    pub fn snapshot(&self) -> (h: History)
        ensures
            h@ == self@.history,
    {
        self.history.clone()
    }

    /// How long to sleep until a series is due.
    pub fn wait(&self, now: u128) -> (nanos: u128)
        ensures
            nanos == (if self@.earliest() > now {
                self@.earliest() - now
            } else {
                0
            }),
    {
        let a: u128 = smaller(self.next_cpu, self.next_temp);
        let b: u128 = smaller(self.next_mem, self.next_io);
        let c: u128 = smaller(self.next_net, self.next_storage);
        let d: u128 = smaller(c, smaller(a, b));
        if d > now {
            d - now
        } else {
            0
        }
    }

    /// Which series are due.
    pub fn due(&self, now: u128) -> (d: Due)
        ensures
            d.cpu == (now >= self@.next_cpu),
            d.temp == (now >= self@.next_temp),
            d.mem == (now >= self@.next_mem),
            d.io == (now >= self@.next_io),
            d.net == (now >= self@.next_net),
            d.storage == (now >= self@.next_storage),
    {
        Due {
            cpu: now >= self.next_cpu,
            temp: now >= self.next_temp,
            mem: now >= self.next_mem,
            io: now >= self.next_io,
            net: now >= self.next_net,
            storage: now >= self.next_storage,
        }
    }

    /// Records the usage of all cores together and of each, and the load.
    pub fn record_cpu(&mut self, total: u8, cores: &Vec<u8>, load: u8, now: u128)
        requires
            old(self)@.next_cpu <= now,
            now + old(self)@.cfg.cpu <= u128::MAX,
        ensures
            final(self)@ == old(self)@.with_cpu(total, cores@, load, now as int),
    {
        let ghost was = self@;
        push_capped(&mut self.history.total, total);
        let mut kept: Vec<VecDeque<u8>> = Vec::new();
        let mut i: usize = 0;
        while i < cores.len()
            invariant
                i <= cores@.len(),
                series_views(self.history.cores@) == was.history.cores,
                self.history.total@ == pushed(was.history.total, total),
                (SamplerView {
                    history: HistoryView { total: was.history.total, ..self@.history },
                    ..self@
                }) == was,
                self.next_cpu <= now,
                now + self.cfg.cpu <= u128::MAX,
                kept@.len() == i,
                forall|j: int|
                    0 <= j < i ==> (#[trigger] kept@[j])@ == pushed(
                        resized(was.history.cores, cores@.len())[j],
                        cores@[j],
                    ),
            decreases cores@.len() - i,
        {
            let mut samples = if i < self.history.cores.len() {
                copy_series(&self.history.cores[i])
            } else {
                VecDeque::new()
            };
            push_capped(&mut samples, cores[i]);
            kept.push(samples);
            i = i + 1;
        }
        self.history.cores = kept;
        push_capped(&mut self.history.load, load);
        self.next_cpu = bump(self.next_cpu, self.cfg.cpu, now);
        assert(self@ =~~= was.with_cpu(total, cores@, load, now as int));
    }

    /// Records the temperatures.
    pub fn record_temps(&mut self, cpu: Option<u8>, nvme: Option<u8>, now: u128)
        requires
            old(self)@.next_temp <= now,
            now + old(self)@.cfg.temp <= u128::MAX,
        ensures
            final(self)@ == old(self)@.with_temps(cpu, nvme, now as int),
    {
        let ghost was = self@;
        let mut temps: Vec<TempSeries> = Vec::new();
        let mut i: usize = 0;
        while i < self.history.temps.len()
            invariant
                i <= self.history.temps@.len(),
                self@ == was,
                temps@.len() == i,
                forall|j: int|
                    0 <= j < i ==> (#[trigger] temps@[j])@ == (
                        was.history.temps[j].0,
                        pushed(
                            was.history.temps[j].1,
                            temp_sample(was.history.temps[j], cpu, nvme),
                        ),
                    ),
            decreases self.history.temps@.len() - i,
        {
            let series = &self.history.temps[i];
            assert(was.history.temps[i as int] == series@);
            let label = chars_of(series.label);
            let reading = if same_text(&label, "CPU") {
                cpu
            } else {
                nvme
            };
            let value: u8 = match reading {
                Some(t) => t,
                None => {
                    if series.samples.len() > 0 {
                        series.samples[series.samples.len() - 1]
                    } else {
                        0
                    }
                },
            };
            let mut samples = copy_series(&series.samples);
            push_capped(&mut samples, value);
            temps.push(TempSeries { label: series.label, samples });
            i = i + 1;
        }
        self.history.temps = temps;
        self.next_temp = bump(self.next_temp, self.cfg.temp, now);
        assert(self@ =~~= was.with_temps(cpu, nvme, now as int));
    }

    /// Records the memory in use.
    pub fn record_mem(&mut self, used: u64, total: u64, now: u128)
        requires
            used * 100 <= u64::MAX,
            old(self)@.next_mem <= now,
            now + old(self)@.cfg.mem <= u128::MAX,
        ensures
            final(self)@ == old(self)@.with_mem(used as int, total as int, now as int),
    {
        let ghost was = self@;
        push_capped(&mut self.history.mem, percent_of(used, total));
        self.next_mem = bump(self.next_mem, self.cfg.mem, now);
        assert(self@ =~~= was.with_mem(used as int, total as int, now as int));
    }

    /// Disk operations since the previous reading.
    pub fn io_delta(&self, ops: Option<u64>) -> (d: u64)
        ensures
            d == ops_between(self@.prev_ops, ops),
    {
        ops_delta(self.prev_ops, ops)
    }

    /// Records the disk operations counted so far and their rate.
    pub fn record_io(&mut self, ops: Option<u64>, iops: u32, now: u128)
        requires
            old(self)@.next_io <= now,
            now + old(self)@.cfg.io <= u128::MAX,
        ensures
            final(self)@ == old(self)@.with_io(ops, iops, now as int),
    {
        let ghost was = self@;
        push_capped_u32(&mut self.history.iops, iops);
        self.prev_ops = ops;
        self.next_io = bump(self.next_io, self.cfg.io, now);
        assert(self@ =~~= was.with_io(ops, iops, now as int));
    }

    /// Bytes received and sent since the previous reading, never below zero.
    pub fn net_delta(&self, totals: (u64, u64)) -> (d: (u64, u64))
        ensures
            d.0 == ops_between(Some(self@.prev_net.0), Some(totals.0)),
            d.1 == ops_between(Some(self@.prev_net.1), Some(totals.1)),
    {
        (totals.0.saturating_sub(self.prev_net.0), totals.1.saturating_sub(self.prev_net.1))
    }

    /// Records the bytes counted so far and their rates.
    pub fn record_net(&mut self, totals: (u64, u64), rx: u32, tx: u32, now: u128)
        requires
            old(self)@.next_net <= now,
            now + old(self)@.cfg.net <= u128::MAX,
        ensures
            final(self)@ == old(self)@.with_net(totals, rx, tx, now as int),
    {
        let ghost was = self@;
        push_capped_u32(&mut self.history.net_rx, rx);
        push_capped_u32(&mut self.history.net_tx, tx);
        self.prev_net = totals;
        self.next_net = bump(self.next_net, self.cfg.net, now);
        assert(self@ =~~= was.with_net(totals, rx, tx, now as int));
    }

    /// Records the storage figures.
    pub fn record_storage(&mut self, storage: Option<Storage>, now: u128)
        requires
            old(self)@.next_storage <= now,
            now + STORAGE_INTERVAL <= u128::MAX,
        ensures
            final(self)@ == old(self)@.with_storage(storage_option(storage), now as int),
    {
        let ghost was = self@;
        self.history.vm_storage = storage;
        self.next_storage = bump(self.next_storage, STORAGE_INTERVAL, now);
        assert(self@ =~~= was.with_storage(storage_option(storage), now as int));
    }
}

} // verus!
