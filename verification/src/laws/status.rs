//! Warnings and the status light: which readings call for which, and that
//! the two agree.

use vstd::prelude::*;

use crate::color::{RED, WHITE};
use crate::pages::{Page, WarningsPage};
use crate::stats::{
    active_events, bit_set, level_color, minor_list, past_events, severe_list, status_level, Stats,
};

verus! {

/// All problems that the given readings show, as the warnings page lists
/// them.
pub open spec fn all_problems(
    flags: u32,
    cpu: Option<u8>,
    nvme: Option<u8>,
    disk: u8,
    mem: u8,
) -> Seq<(Seq<char>, bool)> {
    severe_list(flags, cpu, nvme, disk) + minor_list(flags, cpu, nvme, disk, mem)
}

proof fn lemma_marked(flags: u32, n: nat)
    ensures
        forall|i: int| 0 <= i < active_events(flags, n).len() ==> (#[trigger] active_events(
            flags,
            n,
        )[i]).1,
        forall|i: int| 0 <= i < past_events(flags, n).len() ==> !(#[trigger] past_events(
            flags,
            n,
        )[i]).1,
    decreases n,
{
    if n > 0 {
        let m = (n - 1) as nat;
        lemma_marked(flags, m);
        assert forall|i: int| 0 <= i < active_events(flags, n).len() implies (
        #[trigger] active_events(flags, n)[i]).1 by {
            if i < active_events(flags, m).len() {
                assert(active_events(flags, n)[i] == active_events(flags, m)[i]);
            }
        }
        assert forall|i: int| 0 <= i < past_events(flags, n).len() implies !(
        #[trigger] past_events(flags, n)[i]).1 by {
            if i < past_events(flags, m).len() {
                assert(past_events(flags, n)[i] == past_events(flags, m)[i]);
            }
        }
    }
}

/// Every severe problem stands before every lesser one.
pub proof fn law_worst_problems_first(
    flags: u32,
    cpu: Option<u8>,
    nvme: Option<u8>,
    disk: u8,
    mem: u8,
    i: int,
    j: int,
)
    requires
        0 <= i <= j < all_problems(flags, cpu, nvme, disk, mem).len(),
        all_problems(flags, cpu, nvme, disk, mem)[j].1,
    ensures
        all_problems(flags, cpu, nvme, disk, mem)[i].1,
{
    lemma_marked(flags, 4);
    let a = severe_list(flags, cpu, nvme, disk);
    let b = minor_list(flags, cpu, nvme, disk, mem);
    assert(forall|k: int| 0 <= k < a.len() ==> (#[trigger] a[k]).1);
    assert(forall|k: int| 0 <= k < b.len() ==> !(#[trigger] b[k]).1);
    if j >= a.len() {
        assert(all_problems(flags, cpu, nvme, disk, mem)[j] == b[j - a.len()]);
    }
}

proof fn lemma_bits(flags: u32)
    ensures
        flags & 0xf == 0 <==> !bit_set(flags, 0) && !bit_set(flags, 1) && !bit_set(flags, 2)
            && !bit_set(flags, 3),
        flags & 0xf0000 == 0 <==> !bit_set(flags, 16) && !bit_set(flags, 17) && !bit_set(flags, 18)
            && !bit_set(flags, 19),
{
    assert(flags & 0xf == 0 <==> (flags & (1u32 << 0u32) == 0 && flags & (1u32 << 1u32) == 0
        && flags & (1u32 << 2u32) == 0 && flags & (1u32 << 3u32) == 0)) by (bit_vector);
    assert(flags & 0xf0000 == 0 <==> (flags & (1u32 << 16u32) == 0 && flags & (1u32 << 17u32) == 0
        && flags & (1u32 << 18u32) == 0 && flags & (1u32 << 19u32) == 0)) by (bit_vector);
}

proof fn lemma_no_events(flags: u32)
    ensures
        active_events(flags, 4).len() == 0 <==> flags & 0xf == 0,
        flags & 0xf == 0 ==> (past_events(flags, 4).len() == 0 <==> flags & 0xf0000 == 0),
{
    lemma_bits(flags);
    reveal_with_fuel(active_events, 5);
    reveal_with_fuel(past_events, 5);
}

/// There are warnings exactly when a throttling event is or was active, a
/// sensor reads 75 degrees or more, the disk is at least 90 percent full, or
/// memory at least 95.
pub proof fn law_when_there_are_warnings(
    flags: u32,
    cpu: Option<u8>,
    nvme: Option<u8>,
    disk: u8,
    mem: u8,
)
    ensures
        all_problems(flags, cpu, nvme, disk, mem).len() == 0 <==> {
            &&& flags & 0xf == 0
            &&& flags & 0xf0000 == 0
            &&& cpu is None || cpu->0 < 75
            &&& nvme is None || nvme->0 < 75
            &&& disk < 90
            &&& mem < 95
        },
{
    lemma_no_events(flags);
}

/// The warnings page is in the rotation exactly while there is something to
/// warn about.
pub proof fn law_warnings_page_hides_while_clear(stats: &Stats)
    ensures
        WarningsPage.wanted(stats) <==> !{
            &&& stats.throttled & 0xf == 0
            &&& stats.throttled & 0xf0000 == 0
            &&& stats.temps().0 is None || stats.temps().0->0 < 75
            &&& stats.temps().1 is None || stats.temps().1->0 < 75
            &&& stats.disk_percentage() < 90
            &&& stats.memory_percentage() < 95
        },
{
    law_when_there_are_warnings(
        stats.throttled,
        stats.temps().0,
        stats.temps().1,
        stats.disk_percentage(),
        stats.memory_percentage(),
    );
}

/// The header is red exactly when there is a severe warning.
pub proof fn law_red_means_severe(flags: u32, cpu: Option<u8>, nvme: Option<u8>, disk: u8)
    ensures
        severe_list(flags, cpu, nvme, disk).len() > 0 <==> status_level(
            cpu,
            nvme,
            disk as int,
            flags,
        ) == 3,
        severe_list(flags, cpu, nvme, disk).len() > 0 <==> level_color(
            status_level(cpu, nvme, disk as int, flags),
        ) == RED,
{
    lemma_no_events(flags);
}

/// While the header is white, nothing but memory can be warned about.
pub proof fn law_white_means_healthy(
    flags: u32,
    cpu: Option<u8>,
    nvme: Option<u8>,
    disk: u8,
    mem: u8,
)
    requires
        level_color(status_level(cpu, nvme, disk as int, flags)) == WHITE,
        mem < 95,
    ensures
        all_problems(flags, cpu, nvme, disk, mem).len() == 0,
{
    lemma_no_events(flags);
}

/// The status only gets worse with a hotter sensor or a fuller disk.
pub proof fn law_status_escalates(
    flags: u32,
    cool: u8,
    hot: u8,
    nvme: Option<u8>,
    disk: u8,
    fuller: u8,
)
    requires
        cool <= hot,
        disk <= fuller,
    ensures
        0 <= status_level(Some(cool), nvme, disk as int, flags) <= status_level(
            Some(hot),
            nvme,
            fuller as int,
            flags,
        ) <= 3,
        status_level(None, nvme, disk as int, flags) <= status_level(
            Some(cool),
            nvme,
            disk as int,
            flags,
        ),
{
}

} // verus!
