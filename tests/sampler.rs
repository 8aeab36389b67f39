use sysmon_core::{display_window, heat_level, normalize_temp, Heat, Telemetry, TickInput};

fn quiet_tick(n_freq: usize, n_temp: usize) -> TickInput {
    TickInput {
        core_usage: vec![50_000, 30_000],
        mem_used: 4,
        mem_total: 16,
        freq_khz: vec![None; n_freq],
        temps_raw: vec![None; n_temp],
        gpu_metrics: None,
        gpu_clocks: None,
    }
}

#[test]
fn three_ticks_stamp_one_period_apart() {
    let mut t = Telemetry::new(300, 1000, 1, 1, None);
    for i in 0..3u64 {
        let mut input = quiet_tick(1, 1);
        input.temps_raw = vec![Some(40_000 + i as i64)];
        t.tick(&input);
    }
    let temps: Vec<u64> = t.temp_series(0).points_after(0).iter().map(|p| p.t).collect();
    assert_eq!(temps, vec![1000, 2000, 3000]);
    assert_eq!(t.ticks(), 3);
    assert_eq!(t.now_ms(), 3000);
    let gpu = t.gpu_util().points_after(0);
    assert_eq!(gpu.len(), 3);
    assert!(gpu.iter().all(|p| p.value.is_none()));
    assert_eq!(t.gpu_util().last_y(), None);
    assert_eq!(t.vram_util().last_y(), None);
}

#[test]
fn cpu_mean_and_memory_share() {
    let mut t = Telemetry::new(10, 500, 0, 0, None);
    t.tick(&quiet_tick(0, 0));
    assert_eq!(t.cpu_util().last_y(), Some(40_000));
    assert_eq!(t.ram_util().last_y(), Some(25_000));
    assert_eq!(t.now_ms(), 500);
}

#[test]
fn memory_use_is_capped_and_zero_total_is_zero() {
    let mut t = Telemetry::new(10, 1000, 0, 0, None);
    let mut input = quiet_tick(0, 0);
    input.mem_used = 20;
    input.mem_total = 16;
    t.tick(&input);
    assert_eq!(t.ram_util().last_y(), Some(100_000));
    input.mem_total = 0;
    t.tick(&input);
    assert_eq!(t.ram_util().last_y(), Some(0));
}

#[test]
fn no_cores_gives_no_data() {
    let mut t = Telemetry::new(10, 1000, 0, 0, None);
    let mut input = quiet_tick(0, 0);
    input.core_usage = vec![];
    t.tick(&input);
    assert_eq!(t.cpu_util().len(), 1);
    assert_eq!(t.cpu_util().last_y(), None);
}

#[test]
fn failed_reads_leave_channel_alone() {
    let mut t = Telemetry::new(10, 1000, 2, 1, None);
    let mut input = quiet_tick(2, 1);
    input.freq_khz = vec![Some(3_400_000), Some(2_000_000)];
    input.temps_raw = vec![Some(45_500)];
    t.tick(&input);
    input.freq_khz = vec![None, Some(2_100_000)];
    input.temps_raw = vec![None];
    t.tick(&input);
    assert_eq!(t.freq_series(0).len(), 1);
    assert_eq!(t.freq_series(0).last_y(), Some(3_400_000));
    assert_eq!(t.freq_series(1).len(), 2);
    assert_eq!(t.freq_series(1).last_y(), Some(2_100_000));
    assert_eq!(t.temp_series(0).len(), 1);
    assert_eq!(t.temp_series(0).last_y(), Some(45_500));
}

#[test]
fn missing_inputs_count_as_failed_reads() {
    let mut t = Telemetry::new(10, 1000, 2, 2, None);
    t.tick(&quiet_tick(0, 0));
    assert_eq!(t.freq_series(1).len(), 0);
    assert_eq!(t.temp_series(1).len(), 0);
}

#[test]
fn accelerator_readings_are_pushed() {
    let mut t = Telemetry::new(10, 1000, 0, 2, Some(1));
    let mut input = quiet_tick(0, 2);
    input.gpu_metrics = Some((55_000, 20_000, 61_000));
    input.gpu_clocks = Some((1800, 1750, 7000, 1500));
    t.tick(&input);
    assert_eq!(t.gpu_util().last_y(), Some(55_000));
    assert_eq!(t.vram_util().last_y(), Some(20_000));
    assert_eq!(t.gpu_temp_index(), Some(1));
    assert_eq!(t.temp_series(1).last_y(), Some(61_000));
    assert_eq!(t.temp_series(0).len(), 0);
    assert_eq!(t.gpu_clock(0).last_y(), Some(1800));
    assert_eq!(t.gpu_clock(1).last_y(), Some(1750));
    assert_eq!(t.gpu_clock(2).last_y(), Some(7000));
    assert_eq!(t.gpu_clock(3).last_y(), Some(1500));
    input.gpu_metrics = None;
    input.gpu_clocks = None;
    t.tick(&input);
    assert_eq!(t.gpu_util().len(), 2);
    assert_eq!(t.gpu_util().last_y(), None);
    assert_eq!(t.temp_series(1).len(), 1);
    assert_eq!(t.gpu_clock(0).len(), 1);
}

#[test]
fn series_capacity_bounds_history() {
    let mut t = Telemetry::new(2, 1000, 0, 0, None);
    for _ in 0..5 {
        t.tick(&quiet_tick(0, 0));
    }
    let times: Vec<u64> = t.cpu_util().points_after(0).iter().map(|p| p.t).collect();
    assert_eq!(times, vec![4000, 5000]);
    assert!(t.can_tick());
}

#[test]
fn temperature_normalization() {
    assert_eq!(normalize_temp(45_500), Some(45_500));
    assert_eq!(normalize_temp(45), Some(45_000));
    assert_eq!(normalize_temp(1000), Some(1_000_000));
    assert_eq!(normalize_temp(1001), Some(1001));
    assert_eq!(normalize_temp(i64::MIN), None);
}

#[test]
fn heat_against_thresholds() {
    assert_eq!(heat_level(Some(100_000), 90, 100), Heat::Hot);
    assert_eq!(heat_level(Some(95_000), 90, 100), Heat::Warm);
    assert_eq!(heat_level(Some(89_999), 90, 100), Heat::Normal);
    assert_eq!(heat_level(None, 90, 100), Heat::Normal);
}

#[test]
fn window_slides_after_it_fills() {
    assert_eq!(display_window(50_000, 120_000), (0, 120_000));
    assert_eq!(display_window(200_000, 120_000), (80_000, 200_000));
}

#[test]
fn accelerator_temperature_follows_sensor_reading() {
    let mut t = Telemetry::new(10, 1000, 0, 1, Some(0));
    let mut input = quiet_tick(0, 1);
    input.temps_raw = vec![Some(50)];
    input.gpu_metrics = Some((1, 2, 52_000));
    t.tick(&input);
    let vals: Vec<Option<i64>> = t.temp_series(0).points_after(0).iter().map(|p| p.value).collect();
    assert_eq!(vals, vec![Some(50_000), Some(52_000)]);
}

#[test]
fn accelerator_channel_out_of_range_is_ignored() {
    let mut t = Telemetry::new(10, 1000, 0, 1, Some(5));
    let mut input = quiet_tick(0, 1);
    input.gpu_metrics = Some((1, 2, 52_000));
    t.tick(&input);
    assert_eq!(t.temp_series(0).len(), 0);
}
