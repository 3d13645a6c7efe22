//! The sensors: which reading counts as the processor's, and which as the NVMe
//! drive's.

use vstd::prelude::*;

use crate::laws::texts::{law_searches_find_the_first, stands};
use crate::stats::{
    cpu_label, first_cpu, first_reading, lower_views, nvme_label, sensed, soc_temperature,
    temps_or_mock, with_sensor, Stats,
};
use crate::text::{contains, lowercase};

verus! {

/// Whether a text stands anywhere in another.
pub open spec fn holds(s: Seq<char>, t: Seq<char>) -> bool {
    exists|j: int| #[trigger] stands(s, t, j)
}

/// Whether a label, in lower case, is a processor's.
pub open spec fn of_cpu(l: Seq<char>) -> bool {
    holds(l, "cpu"@) || holds(l, "coretemp"@) || holds(l, "k10temp"@) || holds(l, "package"@)
}

/// Whether a label, in lower case, is an NVMe drive's.
pub open spec fn of_nvme(l: Seq<char>) -> bool {
    holds(l, "nvme"@) || holds(l, "composite"@)
}

proof fn lemma_labels(l: Seq<char>)
    ensures
        cpu_label(l) <==> of_cpu(l),
        nvme_label(l) <==> of_nvme(l),
        contains(l, "cpu"@) <==> holds(l, "cpu"@),
{
    law_searches_find_the_first(l, "cpu"@, 0);
    law_searches_find_the_first(l, "coretemp"@, 0);
    law_searches_find_the_first(l, "k10temp"@, 0);
    law_searches_find_the_first(l, "package"@, 0);
    law_searches_find_the_first(l, "nvme"@, 0);
    law_searches_find_the_first(l, "composite"@, 0);
}

/// Whether a sensor reads, under the label of a processor.
pub open spec fn reads_cpu(v: Seq<(Seq<char>, Option<u8>)>, i: int) -> bool {
    v[i].1 is Some && of_cpu(v[i].0)
}

/// Whether a sensor is the first that reads under the label of a processor.
pub open spec fn is_first_cpu(v: Seq<(Seq<char>, Option<u8>)>, i: int) -> bool {
    reads_cpu(v, i) && forall|j: int| 0 <= j < i ==> !#[trigger] reads_cpu(v, j)
}

/// Whether a sensor reads, under the label of an NVMe drive, and does not
/// already stand for the processor.
pub open spec fn reads_nvme(v: Seq<(Seq<char>, Option<u8>)>, i: int) -> bool {
    v[i].1 is Some && of_nvme(v[i].0) && !is_first_cpu(v, i)
}

/// The processor's temperature is that of the first sensor that reads under a
/// processor's label; the NVMe drive's is that of the first that reads under
/// an NVMe drive's and does not stand for the processor. There is none exactly
/// where no sensor does.
pub proof fn law_first_sensor_counts(v: Seq<(Seq<char>, Option<u8>)>, i: int)
    ensures
        0 <= i < v.len() && is_first_cpu(v, i) ==> sensed(v).0 == v[i].1,
        (forall|j: int| 0 <= j < v.len() ==> !#[trigger] reads_cpu(v, j)) <==> sensed(v).0 is None,
        0 <= i < v.len() && reads_nvme(v, i) && (forall|j: int|
            0 <= j < i ==> !#[trigger] reads_nvme(v, j)) ==> sensed(v).1 == v[i].1,
        (forall|j: int| 0 <= j < v.len() ==> !#[trigger] reads_nvme(v, j)) <==> sensed(v).1 is None,
    decreases v.len(),
{
    if v.len() > 0 {
        let t = v.drop_last();
        let n = v.len() - 1;
        law_first_sensor_counts(t, i);
        lemma_labels(v[n].0);
        assert(sensed(v) == with_sensor(sensed(t), v[n].0, v[n].1));
        assert forall|j: int| 0 <= j < n implies (#[trigger] reads_cpu(v, j) <==> reads_cpu(t, j)) by {}
        assert forall|j: int| 0 <= j < n implies (#[trigger] is_first_cpu(v, j) <==> is_first_cpu(
            t,
            j,
        )) by {
            lemma_first_kept(v, j);
        }
        assert forall|j: int| 0 <= j < n implies (#[trigger] reads_nvme(v, j) <==> reads_nvme(t, j)) by {
            assert(is_first_cpu(v, j) <==> is_first_cpu(t, j));
        }
        assert(sensed(t).0 is None <==> forall|j: int| 0 <= j < n ==> !#[trigger] reads_cpu(v, j)) by {
            if sensed(t).0 is None {
                assert forall|j: int| 0 <= j < n implies !#[trigger] reads_cpu(v, j) by {
                    assert(!reads_cpu(t, j));
                }
            }
            if forall|j: int| 0 <= j < n ==> !#[trigger] reads_cpu(v, j) {
                assert forall|j: int| 0 <= j < t.len() implies !#[trigger] reads_cpu(t, j) by {
                    assert(!reads_cpu(v, j));
                }
            }
        }
        assert(sensed(t).1 is None <==> forall|j: int| 0 <= j < n ==> !#[trigger] reads_nvme(v, j)) by {
            if sensed(t).1 is None {
                assert forall|j: int| 0 <= j < n implies !#[trigger] reads_nvme(v, j) by {
                    assert(!reads_nvme(t, j));
                }
            }
            if forall|j: int| 0 <= j < n ==> !#[trigger] reads_nvme(v, j) {
                assert forall|j: int| 0 <= j < t.len() implies !#[trigger] reads_nvme(t, j) by {
                    assert(!reads_nvme(v, j));
                }
            }
        }
        assert(is_first_cpu(v, n) <==> reads_cpu(v, n) && sensed(t).0 is None);
        assert(sensed(v).1 is None <==> sensed(t).1 is None && !reads_nvme(v, n));
        assert(sensed(v).0 is None <==> sensed(t).0 is None && !reads_cpu(v, n));
        if 0 <= i < n {
            assert(is_first_cpu(v, i) <==> is_first_cpu(t, i));
            assert(reads_nvme(v, i) <==> reads_nvme(t, i));
            if is_first_cpu(v, i) {
                assert(reads_cpu(v, i));
            }
            if reads_nvme(v, i) && (forall|j: int| 0 <= j < i ==> !#[trigger] reads_nvme(v, j)) {
                assert forall|j: int| 0 <= j < i implies !#[trigger] reads_nvme(t, j) by {
                    assert(!reads_nvme(v, j));
                }
            }
        }
    }
}

proof fn lemma_first_kept(v: Seq<(Seq<char>, Option<u8>)>, j: int)
    requires
        0 <= j < v.len() - 1,
    ensures
        is_first_cpu(v, j) <==> is_first_cpu(v.drop_last(), j),
{
    let t = v.drop_last();
    assert forall|k: int| 0 <= k <= j implies (#[trigger] reads_cpu(v, k) <==> reads_cpu(t, k)) by {}
    if is_first_cpu(t, j) {
        assert forall|k: int| 0 <= k < j implies !#[trigger] reads_cpu(v, k) by {
            assert(!reads_cpu(t, k));
        }
    }
    if is_first_cpu(v, j) {
        assert forall|k: int| 0 <= k < j implies !#[trigger] reads_cpu(t, k) by {
            assert(!reads_cpu(v, k));
        }
    }
}

/// The temperatures to show are those that are sensed. Stand-ins take their
/// place only where neither is, and only where there are any.
pub proof fn law_stand_ins_only_without_sensors(
    cpu: Option<u8>,
    nvme: Option<u8>,
    mock: Option<(u8, u8)>,
)
    ensures
        cpu is Some || nvme is Some || mock is None ==> temps_or_mock((cpu, nvme), mock) == (
            cpu,
            nvme,
        ),
        mock is Some ==> temps_or_mock((None, None), mock) == (
            Some((mock->0).0),
            Some((mock->0).1),
        ),
{
}

/// The temperatures of the host are those of its own sensors, by their labels
/// in lower case.
pub proof fn law_temperatures_are_those_of_the_sensors(s: Stats, i: int)
    ensures
        s.temps() == temps_or_mock(sensed(lower_views(s.components@)), s.mock),
        lower_views(s.components@).len() == s.components@.len(),
        0 <= i < s.components@.len() ==> lower_views(s.components@)[i] == (
            lowercase(s.components@[i].label@),
            s.components@[i].temperature,
        ),
{
}

proof fn lemma_first_cpu_from(v: Seq<(Seq<char>, Option<u8>)>, from: int, i: int)
    requires
        0 <= from <= v.len(),
    ensures
        from <= i < v.len() && holds(v[i].0, "cpu"@) && (forall|j: int|
            from <= j < i ==> !holds((#[trigger] v[j]).0, "cpu"@)) ==> first_cpu(v, from) == Some(i),
        (forall|j: int| from <= j < v.len() ==> !holds((#[trigger] v[j]).0, "cpu"@)) ==> first_cpu(
            v,
            from,
        ) is None,
    decreases v.len() - from,
{
    if from < v.len() {
        lemma_labels(v[from].0);
        lemma_first_cpu_from(v, from + 1, i);
    }
}

proof fn lemma_first_reading_from(v: Seq<(Seq<char>, Option<u8>)>, from: int, i: int)
    requires
        0 <= from <= v.len(),
    ensures
        from <= i < v.len() && v[i].1 is Some && (forall|j: int|
            from <= j < i ==> (#[trigger] v[j]).1 is None) ==> first_reading(v, from) == Some(i),
        (forall|j: int| from <= j < v.len() ==> (#[trigger] v[j]).1 is None) ==> first_reading(
            v,
            from,
        ) is None,
    decreases v.len() - from,
{
    if from < v.len() {
        lemma_first_reading_from(v, from + 1, i);
    }
}

/// The temperature of the single-stat screen is that of the first sensor whose
/// label, in lower case, holds "cpu", or zero where that does not read. Where
/// no label does, it is that of the first sensor that reads anything, or zero.
pub proof fn law_the_processors_temperature(v: Seq<(Seq<char>, Option<u8>)>, i: int)
    ensures
        0 <= i < v.len() && holds(v[i].0, "cpu"@) && (forall|j: int|
            0 <= j < i ==> !holds((#[trigger] v[j]).0, "cpu"@)) ==> soc_temperature(v) == (if v[i].1 is Some {
            v[i].1->0
        } else {
            0
        }),
        0 <= i < v.len() && v[i].1 is Some && (forall|j: int|
            0 <= j < v.len() ==> !holds((#[trigger] v[j]).0, "cpu"@)) && (forall|j: int|
            0 <= j < i ==> (#[trigger] v[j]).1 is None) ==> soc_temperature(v) == v[i].1->0,
        (forall|j: int| 0 <= j < v.len() ==> (#[trigger] v[j]).1 is None) ==> soc_temperature(v)
            == 0,
{
    lemma_first_cpu_from(v, 0, i);
    lemma_first_reading_from(v, 0, i);
    if forall|j: int| 0 <= j < v.len() ==> (#[trigger] v[j]).1 is None {
        lemma_found(v, 0);
    }
}

proof fn lemma_found(v: Seq<(Seq<char>, Option<u8>)>, from: int)
    requires
        0 <= from <= v.len(),
    ensures
        first_cpu(v, from) matches Some(i) ==> 0 <= i < v.len(),
        first_reading(v, from) matches Some(i) ==> 0 <= i < v.len(),
    decreases v.len() - from,
{
    if from < v.len() {
        lemma_found(v, from + 1);
    }
}

} // verus!
