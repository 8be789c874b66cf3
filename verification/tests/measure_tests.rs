use measurement_program::measure::MeasureState;
use measurement_program::serial::csv2_record;

/// One period-`p` sample: above the baseline (within the noise margin) at
/// every multiple of `p`, below it elsewhere.
fn wave_sample(i: u32, p: u32) -> u16 {
    if i % p == 0 {
        530
    } else {
        480
    }
}

#[test]
fn periodic_stream_counts() {
    let mut st = MeasureState::new();
    let p: u32 = 12;
    let k: u32 = 5;
    for i in 0..(k * p + 1) {
        st.on_sample(wave_sample(i, p), 512);
    }
    assert_eq!(st.rised_count, 5);
    assert_eq!(st.elapsed_count, 61);
    assert_eq!(st.measured_count, 60);
}

#[test]
fn single_cycle_measures_its_period() {
    let mut st = MeasureState::new();
    let p: u32 = 240;
    for i in 0..(p + 1) {
        st.on_sample(wave_sample(i, p), 512);
    }
    assert_eq!(st.rised_count, 1);
    assert_eq!(st.measured_count, 240);
}

#[test]
fn rising_edge_requires_noise_margin() {
    let mut st = MeasureState::new();
    // Far above the baseline: suppressed as noise, no measurement starts.
    let out = st.on_sample(600, 512);
    assert!(!out.rising);
    assert_eq!(st.rised_count, -1);
    // Back below, then a crossing within the margin: accepted.
    st.on_sample(400, 512);
    let out2 = st.on_sample(520, 512);
    assert!(out2.rising);
    assert!(out2.started);
    assert_eq!(st.rised_count, 0);
}

#[test]
fn fold_reports_running_sums() {
    let mut st = MeasureState::new();
    let first = st.on_sample(520, 512);
    assert!(first.rising && first.started && !first.fold_cycle);
    // The starting edge resets the running sum; its own sample is dropped.
    assert_eq!(st.cycle_val_sum, 0);
    let mut low_sum: u32 = 0;
    for _ in 0..9 {
        let out = st.on_sample(500, 512);
        assert!(!out.rising);
        low_sum += 500;
    }
    let edge = st.on_sample(520, 512);
    assert!(edge.rising && !edge.started && edge.fold_cycle);
    assert_eq!(edge.epoch_sample_count, 10);
    assert_eq!(edge.epoch_val_sum, low_sum + 520);
    // The sum keeps running across the fold: the next fold divides the
    // cumulative sum by the cumulative count, the epoch's true average.
    assert_eq!(st.cycle_val_sum, low_sum + 520);
    for _ in 0..9 {
        st.on_sample(500, 512);
    }
    let second = st.on_sample(520, 512);
    assert!(second.fold_cycle);
    assert_eq!(second.epoch_sample_count, 20);
    assert_eq!(second.epoch_val_sum, 2 * (low_sum + 520));
}

#[test]
fn epoch_tick_rollover() {
    let mut st = MeasureState::new();
    let mut ticks: u32 = 0;
    loop {
        ticks += 1;
        if st.on_tick() {
            break;
        }
    }
    assert_eq!(ticks, 1000);
    assert_eq!(st.tick_counter, 0);
    assert_eq!(st.outer_counter, 1);
}

#[test]
fn outer_window_counts_seconds_and_wraps() {
    let mut st = MeasureState::new();
    let mut seconds: u32 = 0;
    while seconds < 61 {
        if st.on_tick() {
            seconds += 1;
            if seconds <= 60 {
                assert_eq!(st.outer_counter as u32, seconds);
            }
        }
    }
    assert_eq!(st.outer_counter, 0);
    assert!(st.outer_window_wrapped());
}

#[test]
fn csv2_window_opens_at_its_threshold() {
    let mut st = MeasureState::new();
    let mut seconds: u32 = 0;
    while seconds < 3 {
        assert!(!st.csv2_window_reached());
        if st.on_tick() {
            seconds += 1;
        }
    }
    assert!(st.csv2_window_reached());
}

#[test]
fn reset_measurement_returns_to_idle() {
    let mut st = MeasureState::new();
    st.on_sample(520, 512);
    assert_eq!(st.rised_count, 0);
    st.reset_measurement();
    assert_eq!(st.rised_count, -1);
    // The next crossing restarts measurement from scratch.
    st.on_sample(400, 512);
    let out = st.on_sample(520, 512);
    assert!(out.started);
    assert_eq!(st.rised_count, 0);
}

#[test]
fn capture_takes_first_cycle_of_capture_window() {
    let mut st = MeasureState::new();
    while st.outer_counter < 1 {
        st.on_tick();
    }
    let mut captured: u32 = 0;
    for i in 0..25 {
        let out = st.on_sample(wave_sample(i, 10), 512);
        if out.captured {
            captured += 1;
        }
    }
    // Edges fell at samples 0, 10 and 20: only the first cycle's ten
    // samples were captured.
    assert_eq!(captured, 10);
    assert_eq!(st.waveform_len(), 10);
    assert_eq!(st.rised_count, 2);
}

#[test]
fn no_capture_outside_capture_window() {
    let mut st = MeasureState::new();
    assert_eq!(st.outer_counter, 0);
    for i in 0..25 {
        let out = st.on_sample(wave_sample(i, 10), 512);
        assert!(!out.captured);
    }
    assert_eq!(st.waveform_len(), 0);
}

#[test]
fn capture_stops_when_buffer_fills() {
    let mut st = MeasureState::new();
    while st.outer_counter < 1 {
        st.on_tick();
    }
    // One starting edge, then a long flat stretch: the first cycle never
    // ends, and capture runs until one slot is left.
    st.on_sample(520, 512);
    for _ in 0..600 {
        st.on_sample(500, 512);
    }
    assert_eq!(st.waveform_len(), 511);
}

#[test]
fn waveform_drain_emits_one_record_per_sample() {
    let mut st = MeasureState::new();
    while st.outer_counter < 1 {
        st.on_tick();
    }
    for i in 0..25 {
        st.on_sample(wave_sample(i, 10), 512);
    }
    while !st.csv2_window_reached() {
        st.on_tick();
    }
    let mut records: Vec<Vec<u8>> = Vec::new();
    while !st.waveform_is_empty() {
        let remaining = st.waveform_len() as u32;
        let sample = st.waveform_dequeue();
        records.push(csv2_record(remaining, sample));
    }
    // Exactly one full cycle was captured: one record per sample of it.
    assert_eq!(records.len(), 10);
    assert_eq!(records[0], b"csv-2,10,530\n".to_vec());
    assert_eq!(records[1], b"csv-2,9,480\n".to_vec());
    assert_eq!(records[9], b"csv-2,1,480\n".to_vec());
    assert!(st.waveform_is_empty());
}
