use std::collections::VecDeque;

use rack_panel::history::{
    percent_of, push_capped, push_capped_u32, sample_interval, sampler_config, FirstReadings,
    History, Sampler, SamplerConfig, HISTORY_CAP, STORAGE_INTERVAL,
};

const SEC: u128 = 1_000_000_000;

fn config() -> SamplerConfig {
    SamplerConfig { cpu: SEC, temp: 30 * SEC, mem: 20 * SEC, io: 2 * SEC, net: 3 * SEC }
}

fn readings() -> FirstReadings {
    FirstReadings {
        cpu_temp: Some(48),
        nvme_temp: Some(39),
        mem_used: 1,
        mem_total: 3,
        vm_storage: Some(("tank".to_string(), 5, 10)),
        disk_ops: Some(100),
        net: (1000, 2000),
    }
}

#[test]
fn series_keep_the_newest_samples() {
    let mut s: VecDeque<u8> = VecDeque::new();
    let mut c: VecDeque<u32> = VecDeque::new();
    for i in 0..400u32 {
        push_capped(&mut s, (i % 251) as u8);
        push_capped_u32(&mut c, i);
    }
    assert_eq!(s.len(), HISTORY_CAP);
    assert_eq!(c.len(), 160);
    assert_eq!(c.front(), Some(&240));
    assert_eq!(c.back(), Some(&399));
    assert_eq!(s.back(), Some(&148));
}

#[test]
fn percentages() {
    assert_eq!(percent_of(1, 3), 33);
    assert_eq!(percent_of(3, 3), 100);
    assert_eq!(percent_of(0, 0), 0);
    assert_eq!(percent_of(5, 0), 0);
    assert_eq!(percent_of(3, 1), 44);
}

#[test]
fn intervals_span_the_window() {
    assert_eq!(sample_interval(120, 118), 1016);
    assert_eq!(sample_interval(3600, 82), 43_902);
    assert_eq!(sample_interval(0, 118), 100);
    assert_eq!(sample_interval(1, 5), 200);
    let c = sampler_config(120, 3600, 3600, 300, 10);
    assert_eq!(c.cpu, 1_016_000_000);
    assert_eq!(c.temp, 43_902_000_000);
    assert_eq!(c.mem, 34_285_000_000);
    assert_eq!(c.io, 2_459_000_000);
    assert_eq!(c.net, 2_419_000_000);
    assert_eq!(sampler_config(1, 1, 1, 1, 600).net, 4_838_000_000);
}

#[test]
fn an_empty_history() {
    let h = History::default();
    assert!(h.total.is_empty() && h.cores.is_empty() && h.temps.is_empty());
    assert!(h.vm_storage.is_none());
}

#[test]
fn a_sampler_starts_with_first_readings() {
    let s = Sampler::start(config(), readings(), 0);
    let h = s.snapshot();
    assert_eq!(h.mem, VecDeque::from([33]));
    assert_eq!(h.temps.len(), 2);
    assert_eq!(h.temps[0].label, "CPU");
    assert_eq!(h.temps[0].samples, VecDeque::from([48]));
    assert_eq!(h.temps[1].label, "NVME");
    assert_eq!(h.temps[1].samples, VecDeque::from([39]));
    assert_eq!(h.vm_storage, Some(("tank".to_string(), 5, 10)));
    assert!(h.total.is_empty());
    let bare = FirstReadings { cpu_temp: None, nvme_temp: None, ..readings() };
    assert!(Sampler::start(config(), bare, 0).snapshot().temps.is_empty());
}

#[test]
fn series_come_due_on_their_own_intervals() {
    let mut s = Sampler::start(config(), readings(), 10);
    assert_eq!(s.wait(10), SEC);
    assert_eq!(s.wait(10 + 2 * SEC), 0);
    let d = s.due(10 + SEC);
    assert!(d.cpu && !d.temp && !d.mem && !d.io && !d.net && !d.storage);
    let d = s.due(10 + 60 * SEC);
    assert!(d.cpu && d.temp && d.mem && d.io && d.net && d.storage);
    assert_eq!(STORAGE_INTERVAL, 60 * SEC);
    s.record_cpu(12, &vec![1, 2], 50, 10 + SEC);
    assert_eq!(s.wait(10 + SEC), SEC);
    s.record_cpu(13, &vec![3, 4, 5], 60, 10 + 10 * SEC);
    assert!(!s.due(10 + 10 * SEC + SEC - 1).cpu);
    assert!(s.due(10 + 11 * SEC).cpu);
    let h = s.snapshot();
    assert_eq!(h.total, VecDeque::from([12, 13]));
    assert_eq!(h.load, VecDeque::from([50, 60]));
    assert_eq!(h.cores, vec![VecDeque::from([1, 3]), VecDeque::from([2, 4]), VecDeque::from([5])]);
    s.record_cpu(1, &vec![9], 0, 10 + 20 * SEC);
    assert_eq!(s.snapshot().cores, vec![VecDeque::from([1, 3, 9])]);
}

#[test]
fn dropped_temperature_readings_repeat() {
    let mut s = Sampler::start(config(), readings(), 0);
    s.record_temps(Some(50), None, 30 * SEC);
    s.record_temps(None, Some(41), 60 * SEC);
    let h = s.snapshot();
    assert_eq!(h.temps[0].samples, VecDeque::from([48, 50, 50]));
    assert_eq!(h.temps[1].samples, VecDeque::from([39, 39, 41]));
}

#[test]
fn counters_become_differences() {
    let mut s = Sampler::start(config(), readings(), 0);
    assert_eq!(s.io_delta(Some(150)), 50);
    assert_eq!(s.io_delta(Some(50)), 0);
    assert_eq!(s.io_delta(None), 0);
    s.record_io(None, 25, 2 * SEC);
    assert_eq!(s.io_delta(Some(150)), 0);
    assert_eq!(s.net_delta((1500, 1999)), (500, 0));
    s.record_net((1500, 1999), 167, 0, 3 * SEC);
    assert_eq!(s.net_delta((1600, 2999)), (100, 1000));
    s.record_mem(2, 3, 20 * SEC);
    s.record_storage(None, 60 * SEC);
    let h = s.snapshot();
    assert_eq!(h.iops, VecDeque::from([25]));
    assert_eq!(h.net_rx, VecDeque::from([167]));
    assert_eq!(h.net_tx, VecDeque::from([0]));
    assert_eq!(h.mem, VecDeque::from([33, 66]));
    assert!(h.vm_storage.is_none());
}
