//! Storage figures and counters: which one is shown, and what sums up.

use vstd::prelude::*;

use crate::history::percent;
use crate::host::{net_totals, total_ops, Interface};
use crate::storage::{answered, largest, BackendView};

verus! {

/// The storage that is shown is one of the candidates; none has a larger
/// total, and none behind it has the same. There is one exactly when there is
/// a candidate.
pub proof fn law_the_largest_storage_is_shown(c: Seq<(Seq<char>, u64, u64)>)
    ensures
        largest(c) is Some <==> c.len() > 0,
        largest(c) matches Some(best) ==> exists|k: int|
            {
                &&& 0 <= k < c.len()
                &&& #[trigger] c[k] == best
                &&& forall|i: int| 0 <= i < c.len() ==> (#[trigger] c[i]).2 <= best.2
                &&& forall|i: int| k < i < c.len() ==> (#[trigger] c[i]).2 < best.2
            },
    decreases c.len(),
{
    if c.len() > 0 {
        let init = c.drop_last();
        law_the_largest_storage_is_shown(init);
        match largest(init) {
            Some(best) if best.2 > c.last().2 => {
                let k = choose|k: int|
                    {
                        &&& 0 <= k < init.len()
                        &&& #[trigger] init[k] == best
                        &&& forall|i: int| 0 <= i < init.len() ==> (#[trigger] init[i]).2 <= best.2
                        &&& forall|i: int| k < i < init.len() ==> (#[trigger] init[i]).2 < best.2
                    };
                assert(c[k] == best);
                assert forall|i: int| 0 <= i < c.len() implies (#[trigger] c[i]).2 <= best.2 by {
                    if i < init.len() {
                        assert(init[i] == c[i]);
                    }
                }
                assert forall|i: int| k < i < c.len() implies (#[trigger] c[i]).2 < best.2 by {
                    if i < init.len() {
                        assert(init[i] == c[i]);
                    }
                }
            },
            _ => {
                let k = c.len() - 1;
                assert(c[k] == c.last());
                assert forall|i: int| 0 <= i < c.len() implies (#[trigger] c[i]).2
                    <= c.last().2 by {
                    if i < init.len() {
                        assert(init[i] == c[i]);
                    }
                }
            },
        }
    }
}

/// Storages that give no figures, or have no size, are never shown.
pub proof fn law_only_answers_are_candidates(
    queries: Seq<(Seq<char>, BackendView)>,
    figures: Seq<Option<(u64, u64)>>,
)
    ensures
        forall|k: int|
            0 <= k < answered(queries, figures).len() ==> (#[trigger] answered(
                queries,
                figures,
            )[k]).2 > 0,
        answered(queries, figures).len() <= figures.len(),
    decreases figures.len(),
{
    if figures.len() > 0 {
        law_only_answers_are_candidates(queries, figures.drop_last());
    }
}

/// Network totals add up: the totals of two lists of interfaces together are
/// the sums of each list's.
pub proof fn law_network_totals_add_up(a: Seq<Interface>, b: Seq<Interface>)
    ensures
        net_totals(a + b).0 == net_totals(a).0 + net_totals(b).0,
        net_totals(a + b).1 == net_totals(a).1 + net_totals(b).1,
    decreases b.len(),
{
    if b.len() == 0 {
        assert(a + b =~= a);
    } else {
        assert((a + b).drop_last() =~= a + b.drop_last());
        law_network_totals_add_up(a, b.drop_last());
    }
}

/// Disk operations add up over the lines of the statistics.
pub proof fn law_disk_operations_add_up(a: Seq<Seq<char>>, b: Seq<Seq<char>>)
    ensures
        total_ops(a + b) == total_ops(a) + total_ops(b),
    decreases b.len(),
{
    if b.len() == 0 {
        assert(a + b =~= a);
    } else {
        assert((a + b).drop_last() =~= a + b.drop_last());
        law_disk_operations_add_up(a, b.drop_last());
    }
}

/// What is used is never more than a hundred percent of what there is, and
/// all of it is exactly that.
pub proof fn law_percentages_are_percentages(used: int, total: int)
    requires
        0 <= used <= total,
    ensures
        0 <= percent(used, total) <= 100,
        used == total && total > 0 ==> percent(used, total) == 100,
{
    if total > 0 {
        assert(0 <= used * 100 / total <= 100) by (nonlinear_arith)
            requires
                0 <= used <= total,
                total > 0,
        ;
        if used == total {
            assert(used * 100 / total == 100) by (nonlinear_arith)
                requires
                    used == total,
                    total > 0,
            ;
        }
    }
}

} // verus!
