//! The colors: the load gradient, the temperatures, the status of the host.

use vstd::prelude::*;

use crate::color::{heat_color, load_color};
use crate::layout::Palette;
use crate::stats::{level_color, status_level, Stats};

verus! {

/// The load gradient: up to fifty percent green stays full and red grows with
/// the percentage, so that both are full at fifty; from there to a hundred red
/// stays full and green goes down to nothing; beyond a hundred nothing
/// changes. There is no blue in it.
pub proof fn law_load_gradient_in_proportion(p: int)
    requires
        0 <= p <= 255,
    ensures
        ({
            let c = load_color(p);
            let (r, g, b) = (c / 2048, c / 32 % 64, c % 32);
            &&& b == 0
            &&& p <= 50 ==> g == 63 && r * 50 <= 31 * p < (r + 1) * 50
            &&& 50 <= p <= 100 ==> r == 31 && g * 50 <= 63 * (100 - p) < (g + 1) * 50
            &&& p >= 100 ==> r == 31 && g == 0
        }),
{
    if p < 50 {
        let r = 31 * p / 50;
        assert(0 <= r <= 31);
        assert(load_color(p) == r * 2048 + 63 * 32);
    } else if p == 50 {
        assert(load_color(p) == 31 * 2048 + 63 * 32);
    } else if p < 100 {
        let g = 63 * (100 - p) / 50;
        assert(0 <= g <= 63);
        assert(load_color(p) == 31 * 2048 + g * 32);
    } else {
        assert(load_color(p) == 31 * 2048);
    }
}

/// A temperature is green under 50 degrees, yellow from there to 65, orange to
/// 75, red above.
pub proof fn law_heat_colors(t: int)
    ensures
        heat_color(t) == 0x07e0 <==> t < 50,
        heat_color(t) == 0xffe0 <==> 50 <= t < 65,
        heat_color(t) == 0xfbc0 <==> 65 <= t < 75,
        heat_color(t) == 0xf800 <==> t >= 75,
{
}

/// Load samples take their color from the load gradient, temperatures from
/// their own scale.
pub proof fn law_palettes(v: u8)
    ensures
        Palette::Load.color(v) == load_color(v as int),
        Palette::Heat.color(v) == heat_color(v as int),
{
}

/// Whether the hotter of two sensors, as far as they read, is at `t` degrees
/// or more.
pub open spec fn as_hot(cpu: Option<u8>, nvme: Option<u8>, t: int) -> bool {
    (cpu is Some && cpu->0 >= t) || (nvme is Some && nvme->0 >= t)
}

/// The header's color: red while the firmware throttles, a sensor reads 85
/// degrees, or the disk is at 95 percent; else orange at 75 degrees or 90
/// percent; else yellow at 65 degrees, at 80 percent, or when the firmware
/// has throttled since boot; else white.
pub proof fn law_status_colors(cpu: Option<u8>, nvme: Option<u8>, disk: u8, flags: u32)
    ensures
        ({
            let c = level_color(status_level(cpu, nvme, disk as int, flags));
            let red = flags & 0xf != 0 || as_hot(cpu, nvme, 85) || disk >= 95;
            let orange = as_hot(cpu, nvme, 75) || disk >= 90;
            let yellow = as_hot(cpu, nvme, 65) || disk >= 80 || flags & 0xf_0000 != 0;
            &&& c == 0xf800 <==> red
            &&& c == 0xfbc0 <==> orange && !red
            &&& c == 0xffe0 <==> yellow && !orange && !red
            &&& c == 0xffff <==> !yellow && !orange && !red
        }),
{
}

/// The header's color goes by the host's own readings.
pub proof fn law_status_is_that_of_the_readings(s: Stats)
    ensures
        s.status() == level_color(
            status_level(s.temps().0, s.temps().1, s.disk_percentage() as int, s.throttled),
        ),
{
}

} // verus!
