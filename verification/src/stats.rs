//! The host's readings and what follows from them: percentages, the sensors
//! that matter, warnings, the status color of the header.

use vstd::prelude::*;

use crate::color::{ORANGE, RED, WHITE, YELLOW};
use crate::history::{percent, percent_of};
use crate::layout::lemma_decimal_short;
use crate::numbers::{decimal, decimal_text};
use crate::text::{chars_of, contains, holds_text, lowercase, to_lowercase};

verus! {

// ---- sensors ----

/// A sensor: its label and its reading in whole degrees Celsius, if it has
/// one.
pub struct Component {
    pub label: String,
    pub temperature: Option<u8>,
}

/// Whether a label, in lower case, is that of a processor's sensor.
pub open spec fn cpu_label(lower: Seq<char>) -> bool {
    ||| contains(lower, "cpu"@)
    ||| contains(lower, "coretemp"@)
    ||| contains(lower, "k10temp"@)
    ||| contains(lower, "package"@)
}

/// Whether a label, in lower case, is that of an NVMe drive's sensor.
pub open spec fn nvme_label(lower: Seq<char>) -> bool {
    contains(lower, "nvme"@) || contains(lower, "composite"@)
}

/// Whether a label, in lower case, is that of a processor's sensor.
pub fn is_cpu_label(lower: &[char]) -> (r: bool)
    ensures
        r == cpu_label(lower@),
{
    holds_text(lower, "cpu") || holds_text(lower, "coretemp") || holds_text(lower, "k10temp")
        || holds_text(lower, "package")
}

/// Whether a label, in lower case, is that of an NVMe drive's sensor.
pub fn is_nvme_label(lower: &[char]) -> (r: bool)
    ensures
        r == nvme_label(lower@),
{
    holds_text(lower, "nvme") || holds_text(lower, "composite")
}

/// Processor and NVMe temperature after one more sensor, given its label in
/// lower case: it fills the first of the two that is still open and that its
/// label fits.
pub open spec fn with_sensor(
    found: (Option<u8>, Option<u8>),
    lower: Seq<char>,
    temperature: Option<u8>,
) -> (Option<u8>, Option<u8>) {
    if temperature is None {
        found
    } else if found.0 is None && cpu_label(lower) {
        (temperature, found.1)
    } else if found.1 is None && nvme_label(lower) {
        (found.0, temperature)
    } else {
        found
    }
}

/// Processor and NVMe temperature after one more sensor.
pub fn add_sensor(
    found: (Option<u8>, Option<u8>),
    lower: &[char],
    temperature: Option<u8>,
) -> (r: (Option<u8>, Option<u8>))
    ensures
        r == with_sensor(found, lower@, temperature),
{
    if temperature.is_none() {
        found
    } else if found.0.is_none() && is_cpu_label(lower) {
        (temperature, found.1)
    } else if found.1.is_none() && is_nvme_label(lower) {
        (found.0, temperature)
    } else {
        found
    }
}

/// The labels and readings of a list of sensors.
pub open spec fn component_views(v: Seq<Component>) -> Seq<(Seq<char>, Option<u8>)> {
    Seq::new(v.len(), |i: int| (v[i].label@, v[i].temperature))
}

/// The labels, in lower case, and readings of a list of sensors.
pub open spec fn lower_views(v: Seq<Component>) -> Seq<(Seq<char>, Option<u8>)> {
    Seq::new(v.len(), |i: int| (lowercase(v[i].label@), v[i].temperature))
}

/// The sensors with their labels in lower case.
pub fn lowered(components: &Vec<Component>) -> (r: Vec<Component>)
    ensures
        component_views(r@) == lower_views(components@),
{
    let mut r: Vec<Component> = Vec::new();
    let mut i: usize = 0;
    while i < components.len()
        invariant
            i <= components@.len(),
            r@.len() == i,
            forall|k: int|
                0 <= k < i ==> (#[trigger] r@[k]).label@ == lowercase(components@[k].label@)
                    && r@[k].temperature == components@[k].temperature,
        decreases components@.len() - i,
    {
        let label = to_lowercase(components[i].label.as_str());
        r.push(Component { label, temperature: components[i].temperature });
        i = i + 1;
    }
    assert(component_views(r@) =~= lower_views(components@));
    r
}

/// Processor and NVMe temperature of a list of sensors with labels in lower
/// case.
pub open spec fn sensed(v: Seq<(Seq<char>, Option<u8>)>) -> (Option<u8>, Option<u8>)
    decreases v.len(),
{
    if v.len() == 0 {
        (None, None)
    } else {
        with_sensor(sensed(v.drop_last()), v.last().0, v.last().1)
    }
}

/// Processor and NVMe temperature of a list of sensors with labels in lower
/// case.
pub fn temps_of(lower: &Vec<Component>) -> (r: (Option<u8>, Option<u8>))
    ensures
        r == sensed(component_views(lower@)),
{
    let ghost v = component_views(lower@);
    let mut found: (Option<u8>, Option<u8>) = (None, None);
    let mut i: usize = 0;
    assert(v.take(0) =~= Seq::empty());
    while i < lower.len()
        invariant
            v == component_views(lower@),
            i <= lower@.len(),
            found == sensed(v.take(i as int)),
        decreases lower@.len() - i,
    {
        assert(v.take(i + 1).drop_last() =~= v.take(i as int));
        assert(v[i as int] == (lower@[i as int].label@, lower@[i as int].temperature));
        let c = chars_of(lower[i].label.as_str());
        found = add_sensor(found, &c, lower[i].temperature);
        i = i + 1;
    }
    assert(v.take(i as int) =~= v);
    found
}

/// Processor and NVMe temperature of a list of sensors.
pub fn read_temps(components: &Vec<Component>) -> (r: (Option<u8>, Option<u8>))
    ensures
        r == sensed(lower_views(components@)),
{
    temps_of(&lowered(components))
}

/// The temperatures to show: those sensed, or stand-ins where there are any
/// and nothing was sensed.
pub open spec fn temps_or_mock(
    found: (Option<u8>, Option<u8>),
    mock: Option<(u8, u8)>,
) -> (Option<u8>, Option<u8>) {
    if found.0 is None && found.1 is None && mock is Some {
        (Some((mock->0).0), Some((mock->0).1))
    } else {
        found
    }
}

/// The temperatures to show: those of the sensors, or stand-ins (given only
/// where the panel is simulated) where no sensor reads.
pub fn sensor_temps(components: &Vec<Component>, mock: Option<(u8, u8)>) -> (r: (
    Option<u8>,
    Option<u8>,
))
    ensures
        r == temps_or_mock(sensed(lower_views(components@)), mock),
{
    let found = read_temps(components);
    if found.0.is_none() && found.1.is_none() {
        if let Some(m) = mock {
            return (Some(m.0), Some(m.1));
        }
    }
    found
}

/// The first sensor at or behind `i` whose label holds "cpu".
pub open spec fn first_cpu(v: Seq<(Seq<char>, Option<u8>)>, i: int) -> Option<int>
    decreases v.len() - i,
{
    if i < 0 || i >= v.len() {
        None
    } else if contains(v[i].0, "cpu"@) {
        Some(i)
    } else {
        first_cpu(v, i + 1)
    }
}

/// The first sensor at or behind `i` that reads anything.
pub open spec fn first_reading(v: Seq<(Seq<char>, Option<u8>)>, i: int) -> Option<int>
    decreases v.len() - i,
{
    if i < 0 || i >= v.len() {
        None
    } else if v[i].1 is Some {
        Some(i)
    } else {
        first_reading(v, i + 1)
    }
}

/// The reading of the first sensor labelled as a processor's, or, where none
/// is, of the first sensor that reads anything; zero where there is no
/// reading.
pub open spec fn soc_temperature(v: Seq<(Seq<char>, Option<u8>)>) -> u8 {
    let at = match first_cpu(v, 0) {
        Some(i) => Some(i),
        None => first_reading(v, 0),
    };
    match at {
        Some(i) => match v[i].1 {
            Some(t) => t,
            None => 0,
        },
        None => 0,
    }
}

fn find_cpu(lower: &Vec<Component>) -> (r: Option<usize>)
    ensures
        match r {
            Some(i) => first_cpu(component_views(lower@), 0) == Some(i as int) && i < lower@.len(),
            None => first_cpu(component_views(lower@), 0) is None,
        },
{
    let ghost v = component_views(lower@);
    let mut i: usize = 0;
    while i < lower.len()
        invariant
            v == component_views(lower@),
            i <= v.len(),
            first_cpu(v, 0) == first_cpu(v, i as int),
        decreases v.len() - i,
    {
        assert(v[i as int] == (lower@[i as int].label@, lower@[i as int].temperature));
        let c = chars_of(lower[i].label.as_str());
        if holds_text(&c, "cpu") {
            return Some(i);
        }
        i = i + 1;
    }
    None
}

/// The reading of the first sensor labelled as a processor's, or, where none
/// is, of the first sensor that reads anything, given their labels in lower
/// case.
pub fn soc_of(lower: &Vec<Component>) -> (t: u8)
    ensures
        t == soc_temperature(component_views(lower@)),
{
    let ghost v = component_views(lower@);
    if let Some(i) = find_cpu(lower) {
        assert(v[i as int].1 == lower@[i as int].temperature);
        return match lower[i].temperature {
            Some(t) => t,
            None => 0,
        };
    }
    let mut i: usize = 0;
    while i < lower.len()
        invariant
            v == component_views(lower@),
            i <= v.len(),
            first_cpu(v, 0) is None,
            first_reading(v, 0) == first_reading(v, i as int),
        decreases v.len() - i,
    {
        assert(v[i as int].1 == lower@[i as int].temperature);
        if let Some(t) = lower[i].temperature {
            return t;
        }
        i = i + 1;
    }
    0
}

// ---- warnings ----

/// A problem of the host: a severe one is happening right now, the others
/// are worth knowing.
pub struct Warning {
    pub text: String,
    pub severe: bool,
}

impl View for Warning {
    type V = (Seq<char>, bool);

    open spec fn view(&self) -> (Seq<char>, bool) {
        (self.text@, self.severe)
    }
}

/// What a list of warnings says.
pub open spec fn warning_views(v: Seq<Warning>) -> Seq<(Seq<char>, bool)> {
    Seq::new(v.len(), |i: int| v[i]@)
}

/// A list with one more entry where a condition holds.
pub open spec fn push_if<T>(s: Seq<T>, cond: bool, v: T) -> Seq<T> {
    if cond {
        s.push(v)
    } else {
        s
    }
}

/// Whether a throttling bit is set.
pub open spec fn bit_set(flags: u32, bit: u32) -> bool {
    flags & (1u32 << bit) != 0
}

/// The name of a throttling event.
pub open spec fn event_name(bit: int) -> Seq<char> {
    if bit == 0 {
        "UNDERVOLTAGE"@
    } else if bit == 1 {
        "FREQ CAPPED"@
    } else if bit == 2 {
        "THROTTLED"@
    } else {
        "SOFT TEMP LIMIT"@
    }
}

/// Throttling events that are happening, among the first `n`.
pub open spec fn active_events(flags: u32, n: nat) -> Seq<(Seq<char>, bool)>
    decreases n,
{
    if n == 0 {
        Seq::empty()
    } else {
        push_if(
            active_events(flags, (n - 1) as nat),
            bit_set(flags, (n - 1) as u32),
            (event_name(n - 1), true),
        )
    }
}

/// Throttling events since boot that are not happening now, among the first
/// `n`.
pub open spec fn past_events(flags: u32, n: nat) -> Seq<(Seq<char>, bool)>
    decreases n,
{
    if n == 0 {
        Seq::empty()
    } else {
        push_if(
            past_events(flags, (n - 1) as nat),
            !bit_set(flags, (n - 1) as u32) && bit_set(flags, (n + 15) as u32),
            (event_name(n - 1) + " SINCE BOOT"@, false),
        )
    }
}

/// The text about a hot sensor.
pub open spec fn heat_text(label: Seq<char>, word: Seq<char>, t: u8) -> Seq<char> {
    label + word + decimal(t as nat) + "\u{b0}"@
}

/// Severe problems, in the order of the page: throttling, heat, a full disk.
pub open spec fn severe_list(
    flags: u32,
    cpu: Option<u8>,
    nvme: Option<u8>,
    disk: u8,
) -> Seq<(Seq<char>, bool)> {
    let a = active_events(flags, 4);
    let b = push_if(
        a,
        cpu is Some && cpu->0 >= 85,
        (heat_text("CPU"@, " HOT "@, cpu->0), true),
    );
    let c = push_if(
        b,
        nvme is Some && nvme->0 >= 85,
        (heat_text("NVME"@, " HOT "@, nvme->0), true),
    );
    push_if(c, disk >= 95, ("DISK "@ + decimal(disk as nat) + "% FULL"@, true))
}

/// Lesser problems, in the same order, and memory last.
pub open spec fn minor_list(
    flags: u32,
    cpu: Option<u8>,
    nvme: Option<u8>,
    disk: u8,
    mem: u8,
) -> Seq<(Seq<char>, bool)> {
    let a = past_events(flags, 4);
    let b = push_if(
        a,
        cpu is Some && 75 <= cpu->0 < 85,
        (heat_text("CPU"@, " WARM "@, cpu->0), false),
    );
    let c = push_if(
        b,
        nvme is Some && 75 <= nvme->0 < 85,
        (heat_text("NVME"@, " WARM "@, nvme->0), false),
    );
    let d = push_if(c, 90 <= disk < 95, ("DISK "@ + decimal(disk as nat) + "% FULL"@, false));
    push_if(d, mem >= 95, ("RAM "@ + decimal(mem as nat) + "%"@, false))
}

fn event_text(bit: u32) -> (s: &'static str)
    requires
        bit < 4,
    ensures
        s@ == event_name(bit as int),
{
    if bit == 0 {
        "UNDERVOLTAGE"
    } else if bit == 1 {
        "FREQ CAPPED"
    } else if bit == 2 {
        "THROTTLED"
    } else {
        "SOFT TEMP LIMIT"
    }
}

fn add_warning(v: &mut Vec<Warning>, text: String, severe: bool)
    ensures
        warning_views(final(v)@) == warning_views(old(v)@).push((text@, severe)),
{
    let ghost was = v@;
    v.push(Warning { text, severe });
    assert(warning_views(v@) =~= warning_views(was).push((text@, severe)));
}

fn join(a: &str, b: &str, n: u8, c: &str) -> (s: String)
    ensures
        s@ == a@ + b@ + decimal(n as nat) + c@,
{
    let mut s = a.to_owned();
    s.append(b);
    s.append(decimal_text(n as u64).as_str());
    s.append(c);
    s
}

fn heat_warning(severe: &mut Vec<Warning>, minor: &mut Vec<Warning>, label: &str, t: Option<u8>)
    ensures
        warning_views(final(severe)@) == push_if(
            warning_views(old(severe)@),
            t is Some && t->0 >= 85,
            (heat_text(label@, " HOT "@, t->0), true),
        ),
        warning_views(final(minor)@) == push_if(
            warning_views(old(minor)@),
            t is Some && 75 <= t->0 < 85,
            (heat_text(label@, " WARM "@, t->0), false),
        ),
{
    if let Some(t) = t {
        if t >= 85 {
            add_warning(severe, join(label, " HOT ", t, "\u{b0}"), true);
        } else if t >= 75 {
            add_warning(minor, join(label, " WARM ", t, "\u{b0}"), false);
        }
    }
}

/// The problems that the given readings show, worst first.
pub fn warnings_for(
    flags: u32,
    cpu: Option<u8>,
    nvme: Option<u8>,
    disk: u8,
    mem: u8,
) -> (r: Vec<Warning>)
    ensures
        warning_views(r@) == severe_list(flags, cpu, nvme, disk) + minor_list(
            flags,
            cpu,
            nvme,
            disk,
            mem,
        ),
{
    let mut severe: Vec<Warning> = Vec::new();
    let mut minor: Vec<Warning> = Vec::new();
    assert(warning_views(severe@) =~= Seq::empty());
    assert(warning_views(minor@) =~= Seq::empty());
    let mut bit: u32 = 0;
    while bit < 4
        invariant
            bit <= 4,
            warning_views(severe@) == active_events(flags, bit as nat),
            warning_views(minor@) == past_events(flags, bit as nat),
        decreases 4 - bit,
    {
        if flags & (1u32 << bit) != 0 {
            add_warning(&mut severe, event_text(bit).to_owned(), true);
        } else if flags & (1u32 << (bit + 16)) != 0 {
            let mut s = event_text(bit).to_owned();
            s.append(" SINCE BOOT");
            add_warning(&mut minor, s, false);
        }
        bit = bit + 1;
    }
    heat_warning(&mut severe, &mut minor, "CPU", cpu);
    heat_warning(&mut severe, &mut minor, "NVME", nvme);
    if disk >= 95 {
        let s = join("DISK ", "", disk, "% FULL");
        proof {
            reveal_strlit("");
            assert("DISK "@ + ""@ =~= "DISK "@);
        }
        add_warning(&mut severe, s, true);
    } else if disk >= 90 {
        let s = join("DISK ", "", disk, "% FULL");
        proof {
            reveal_strlit("");
            assert("DISK "@ + ""@ =~= "DISK "@);
        }
        add_warning(&mut minor, s, false);
    }
    if mem >= 95 {
        let s = join("RAM ", "", mem, "%");
        proof {
            reveal_strlit("");
            assert("RAM "@ + ""@ =~= "RAM "@);
        }
        add_warning(&mut minor, s, false);
    }
    let ghost a = severe@;
    let ghost b = minor@;
    severe.append(&mut minor);
    assert(warning_views(severe@) =~= warning_views(a) + warning_views(b));
    severe
}

proof fn lemma_events_short(flags: u32, n: nat)
    requires
        n <= 4,
    ensures
        active_events(flags, n).len() <= n,
        past_events(flags, n).len() <= n,
        short_texts(active_events(flags, n)),
        short_texts(past_events(flags, n)),
    decreases n,
{
    reveal_strlit("UNDERVOLTAGE");
    reveal_strlit("FREQ CAPPED");
    reveal_strlit("THROTTLED");
    reveal_strlit("SOFT TEMP LIMIT");
    reveal_strlit(" SINCE BOOT");
    if n > 0 {
        lemma_events_short(flags, (n - 1) as nat);
    }
}

/// Whether no text of a list of warnings is long.
pub open spec fn short_texts(w: Seq<(Seq<char>, bool)>) -> bool {
    forall|i: int| 0 <= i < w.len() ==> (#[trigger] w[i]).0.len() <= 60
}

/// No warning is longer than sixty characters.
pub proof fn lemma_problems_short(stats: &Stats)
    ensures
        short_texts(stats.problems()),
{
    reveal_strlit("CPU");
    reveal_strlit("NVME");
    reveal_strlit(" HOT ");
    reveal_strlit(" WARM ");
    reveal_strlit("\u{b0}");
    reveal_strlit("DISK ");
    reveal_strlit("% FULL");
    reveal_strlit("RAM ");
    reveal_strlit("%");
    lemma_events_short(stats.throttled, 4);
    let (cpu, nvme) = stats.temps();
    let disk = stats.disk_percentage();
    let mem = stats.memory_percentage();
    lemma_decimal_short(cpu->0 as nat);
    lemma_decimal_short(nvme->0 as nat);
    lemma_decimal_short(disk as nat);
    lemma_decimal_short(mem as nat);
    let a = severe_list(stats.throttled, cpu, nvme, disk);
    let b = minor_list(stats.throttled, cpu, nvme, disk, mem);
    assert(short_texts(a));
    assert(short_texts(b));
    assert(stats.problems() =~= a + b);
}

// ---- status ----

/// How alarming a temperature is, from 0 to 3.
pub open spec fn temp_level(t: int) -> int {
    if t <= 64 {
        0
    } else if t <= 74 {
        1
    } else if t <= 84 {
        2
    } else {
        3
    }
}

/// How alarming the fullness of the disk is, from 0 to 3.
pub open spec fn disk_level(p: int) -> int {
    if p <= 79 {
        0
    } else if p <= 89 {
        1
    } else if p <= 94 {
        2
    } else {
        3
    }
}

/// How alarming the throttling bits are: an active one is the worst, one
/// since boot a caution.
pub open spec fn throttle_level(flags: u32) -> int {
    if flags & 0xf != 0 {
        3
    } else if flags & 0xf0000 != 0 {
        1
    } else {
        0
    }
}

/// The larger of two numbers.
pub open spec fn larger(a: int, b: int) -> int {
    if a >= b {
        a
    } else {
        b
    }
}

/// A reading, or zero where there is none.
pub open spec fn or_zero(t: Option<u8>) -> int {
    match t {
        Some(t) => t as int,
        None => 0,
    }
}

/// The worst level of all.
pub open spec fn status_level(cpu: Option<u8>, nvme: Option<u8>, disk: int, flags: u32) -> int {
    larger(
        larger(temp_level(larger(or_zero(cpu), or_zero(nvme))), disk_level(disk)),
        throttle_level(flags),
    )
}

/// The color of a level: white, yellow, orange, red.
pub open spec fn level_color(level: int) -> u16 {
    if level <= 0 {
        WHITE
    } else if level == 1 {
        YELLOW
    } else if level == 2 {
        ORANGE
    } else {
        RED
    }
}

/// The header color that the given readings call for.
pub fn status_color_for(cpu: Option<u8>, nvme: Option<u8>, disk: u8, flags: u32) -> (c: u16)
    ensures
        c == level_color(status_level(cpu, nvme, disk as int, flags)),
{
    let c: u8 = match cpu {
        Some(t) => t,
        None => 0,
    };
    let n: u8 = match nvme {
        Some(t) => t,
        None => 0,
    };
    let temp: u8 = if c >= n {
        c
    } else {
        n
    };
    let by_temp: u8 = if temp <= 64 {
        0
    } else if temp <= 74 {
        1
    } else if temp <= 84 {
        2
    } else {
        3
    };
    let by_disk: u8 = if disk <= 79 {
        0
    } else if disk <= 89 {
        1
    } else if disk <= 94 {
        2
    } else {
        3
    };
    let by_flags: u8 = if flags & 0xf != 0 {
        3
    } else if flags & 0xf0000 != 0 {
        1
    } else {
        0
    };
    let a: u8 = if by_temp >= by_disk {
        by_temp
    } else {
        by_disk
    };
    let level: u8 = if a >= by_flags {
        a
    } else {
        by_flags
    };
    if level == 0 {
        WHITE
    } else if level == 1 {
        YELLOW
    } else if level == 2 {
        ORANGE
    } else {
        RED
    }
}

// ---- the readings ----

/// The host's readings at one moment.
pub struct Stats {
    /// Usage of all cores together, in percent.
    pub cpu: u8,
    /// The sensors, in the order of the system's list.
    pub components: Vec<Component>,
    /// Stand-in temperatures where the panel is simulated.
    pub mock: Option<(u8, u8)>,
    pub mem_used: u64,
    pub mem_total: u64,
    pub disk_used: u64,
    pub disk_total: u64,
    /// The firmware's throttling bits.
    pub throttled: u32,
}

impl Stats {
    /// Whether percentages of the readings can be taken in 64 bits.
    pub open spec fn wf(self) -> bool {
        self.mem_used * 100 <= u64::MAX && self.disk_used * 100 <= u64::MAX
    }

    /// Processor and NVMe temperature.
    pub open spec fn temps(self) -> (Option<u8>, Option<u8>) {
        temps_or_mock(sensed(lower_views(self.components@)), self.mock)
    }

    /// Fullness of the root filesystem.
    pub open spec fn disk_percentage(self) -> u8 {
        percent(self.disk_used as int, self.disk_total as int) as u8
    }

    /// Memory in use.
    pub open spec fn memory_percentage(self) -> u8 {
        percent(self.mem_used as int, self.mem_total as int) as u8
    }

    /// Everything wrong with the host.
    pub open spec fn problems(self) -> Seq<(Seq<char>, bool)> {
        severe_list(
            self.throttled,
            self.temps().0,
            self.temps().1,
            self.disk_percentage(),
        ) + minor_list(
            self.throttled,
            self.temps().0,
            self.temps().1,
            self.disk_percentage(),
            self.memory_percentage(),
        )
    }

    /// The header color.
    pub open spec fn status(self) -> u16 {
        level_color(
            status_level(
                self.temps().0,
                self.temps().1,
                self.disk_percentage() as int,
                self.throttled,
            ),
        )
    }

    /// The given readings: usage of the cores, sensors, stand-in
    /// temperatures, used and total memory, used and total disk, throttling
    /// bits.
    pub fn new(
        cpu: u8,
        components: Vec<Component>,
        mock: Option<(u8, u8)>,
        memory: (u64, u64),
        disk: (u64, u64),
        throttled: u32,
    ) -> (s: Stats)
        ensures
            s.cpu == cpu,
            s.components == components,
            s.mock == mock,
            (s.mem_used, s.mem_total) == memory,
            (s.disk_used, s.disk_total) == disk,
            s.throttled == throttled,
    {
        Stats {
            cpu,
            components,
            mock,
            mem_used: memory.0,
            mem_total: memory.1,
            disk_used: disk.0,
            disk_total: disk.1,
            throttled,
        }
    }

    /// Whether percentages of the readings can be taken.
    pub fn is_wf(&self) -> (r: bool)
        ensures
            r == self.wf(),
    {
        self.mem_used <= u64::MAX / 100 && self.disk_used <= u64::MAX / 100
    }

    /// Usage of all cores together, in percent.
    pub fn cpu_percent(&self) -> (p: u8)
        ensures
            p == self.cpu,
    {
        self.cpu
    }

    /// Memory in use, in percent.
    pub fn memory_percent(&self) -> (p: u8)
        requires
            self.wf(),
        ensures
            p == self.memory_percentage(),
    {
        percent_of(self.mem_used, self.mem_total)
    }

    /// Processor temperature in whole degrees Celsius: the first sensor
    /// labelled as a processor's, or the first that reads anything.
    pub fn temperature_celsius(&self) -> (t: u8)
        ensures
            t == soc_temperature(lower_views(self.components@)),
    {
        soc_of(&lowered(&self.components))
    }

    /// Processor and NVMe temperature.
    pub fn temps_now(&self) -> (r: (Option<u8>, Option<u8>))
        ensures
            r == self.temps(),
    {
        sensor_temps(&self.components, self.mock)
    }

    /// Used and total memory in bytes.
    pub fn memory_used_total(&self) -> (r: (u64, u64))
        ensures
            r == (self.mem_used, self.mem_total),
    {
        (self.mem_used, self.mem_total)
    }

    /// Fullness of the root filesystem, in percent.
    pub fn disk_percent(&self) -> (p: u8)
        requires
            self.wf(),
        ensures
            p == self.disk_percentage(),
    {
        percent_of(self.disk_used, self.disk_total)
    }

    /// Used and total bytes of the root filesystem.
    pub fn disk_used_total(&self) -> (r: (u64, u64))
        ensures
            r == (self.disk_used, self.disk_total),
    {
        (self.disk_used, self.disk_total)
    }

    /// Everything wrong with the host, worst first; nothing on a healthy
    /// one.
    pub fn warnings(&self) -> (r: Vec<Warning>)
        requires
            self.wf(),
        ensures
            warning_views(r@) == self.problems(),
    {
        let (cpu, nvme) = self.temps_now();
        warnings_for(self.throttled, cpu, nvme, self.disk_percent(), self.memory_percent())
    }
}

/// The header color: white while the host is healthy, then yellow, orange
/// and red as the hottest sensor or the root filesystem heads for trouble;
/// red at once while the firmware throttles.
pub fn status_color(stats: &Stats) -> (c: u16)
    requires
        stats.wf(),
    ensures
        c == stats.status(),
{
    let (cpu, nvme) = stats.temps_now();
    status_color_for(cpu, nvme, stats.disk_percent(), stats.throttled)
}

} // verus!
