use audioscan::SilenceTracker;

const SAMPLE_RATE: u32 = 48_000;

fn sine_sample(frame: u32, freq_hz: f32, amplitude: f32) -> f32 {
    let phase = 2.0 * std::f32::consts::PI * freq_hz * frame as f32 / SAMPLE_RATE as f32;
    amplitude * phase.sin()
}

/// Quantizes as a 16-bit PCM file would, then back to float as a decoder does.
fn pcm16(sample: f32) -> f32 {
    let q = (sample.clamp(-1.0, 1.0) * i16::MAX as f32).round() as i16;
    q as f32 / 32768.0
}

fn silent(power_sum: f64, filled: u64, threshold_db: f64) -> bool {
    let rms = (power_sum / filled as f64).sqrt();
    let db = if rms > 1e-12 { 20.0 * rms.log10() } else { -200.0 };
    db < threshold_db
}

/// Runs the tracker over mono samples with per-window RMS verdicts against
/// `threshold_db`, and returns the silences in seconds.
fn silences(samples: &[f32], rate: u32, threshold_db: f64, min_gap_sec: f64) -> Vec<(f64, f64)> {
    let gap = (min_gap_sec * rate as f64).ceil() as u64;
    let mut t = SilenceTracker::new(rate, gap);
    let mut sum = 0.0f64;
    for s in samples {
        let x = *s as f64;
        sum += x * x;
        if t.push_frame() {
            let v = silent(sum, t.window_filled(), threshold_db);
            t.close_window(v);
            sum = 0.0;
        }
    }
    let last = t.window_filled() > 0 && silent(sum, t.window_filled(), threshold_db);
    t.finish(last)
        .into_iter()
        .map(|(a, b)| (a as f64 / rate as f64, b as f64 / rate as f64))
        .collect()
}

#[test]
fn window_is_thirty_milliseconds_and_at_least_one_frame() {
    assert_eq!(SilenceTracker::new(48_000, 0).window_frames(), 1440);
    assert_eq!(SilenceTracker::new(44_100, 0).window_frames(), 1323);
    assert_eq!(SilenceTracker::new(8_000, 0).window_frames(), 240);
    assert_eq!(SilenceTracker::new(10, 0).window_frames(), 1);
    assert_eq!(SilenceTracker::new(0, 0).window_frames(), 1);
}

#[test]
fn tone_gap_tone_reports_one_window_around_the_gap() {
    let tone = SAMPLE_RATE;
    let gap = (SAMPLE_RATE as f32 * 6.2) as u32;
    let mut samples: Vec<f32> = (0..tone).map(|f| pcm16(sine_sample(f, 1_000.0, 0.5))).collect();
    samples.extend((0..gap).map(|_| 0.0));
    samples.extend((0..tone).map(|f| pcm16(sine_sample(f, 1_000.0, 0.5))));

    let found = silences(&samples, SAMPLE_RATE, -30.0, 5.0);
    assert_eq!(found.len(), 1);
    assert!((found[0].0 - 1.02).abs() <= 0.1, "start {}", found[0].0);
    assert!((found[0].1 - 7.2).abs() <= 0.1, "end {}", found[0].1);
}

#[test]
fn all_zero_stream_is_one_window_to_the_end() {
    let frames = (SAMPLE_RATE as f32 * 6.25) as usize;
    let samples = vec![0.0f32; frames];
    let found = silences(&samples, SAMPLE_RATE, -30.0, 5.0);
    assert_eq!(found, vec![(0.0, 6.25)]);
}

#[test]
fn short_tone_has_no_silence() {
    let frames = (SAMPLE_RATE as f32 * 0.35) as u32;
    let samples: Vec<f32> = (0..frames).map(|f| pcm16(sine_sample(f, 440.0, 0.4))).collect();
    assert!(silences(&samples, SAMPLE_RATE, -30.0, 5.0).is_empty());
}

#[test]
fn silence_shorter_than_min_gap_is_not_reported() {
    // window of 3 frames at 100 Hz; gap of 4 frames, silence of 3 windows = 9 frames
    let mut t = SilenceTracker::new(100, 10);
    let verdicts = [false, true, true, true, false];
    for v in verdicts {
        for _ in 0..3 {
            t.push_frame();
        }
        t.close_window(v);
    }
    assert!(t.finish(false).is_empty());
}

#[test]
fn runs_map_to_frame_ranges_with_min_gap() {
    // windows of 3 frames; verdicts: S S L S L S S S, then 2 frames silent
    let mut t = SilenceTracker::new(100, 6);
    let verdicts = [true, true, false, true, false, true, true, true];
    for v in verdicts {
        for k in 0..3 {
            let full = t.push_frame();
            assert_eq!(full, k == 2);
        }
        t.close_window(v);
    }
    t.push_frame();
    t.push_frame();
    assert_eq!(t.frames_seen(), 26);
    assert_eq!(t.window_filled(), 2);
    // runs: [0,6) spans 6 >= 6; [9,12) spans 3 < 6; [15,26) open to the end
    assert_eq!(t.finish(true), vec![(0, 6), (15, 26)]);
}

#[test]
fn trailing_partial_loud_window_closes_the_run_at_its_start() {
    let mut t = SilenceTracker::new(100, 0);
    for _ in 0..3 {
        t.push_frame();
    }
    t.close_window(true);
    t.push_frame();
    assert_eq!(t.finish(false), vec![(0, 3)]);
}

#[test]
fn zero_min_gap_reports_every_silent_run() {
    let mut t = SilenceTracker::new(100, 0);
    for v in [true, false, true] {
        for _ in 0..3 {
            t.push_frame();
        }
        t.close_window(v);
    }
    assert_eq!(t.finish(true), vec![(0, 3), (6, 9)]);
}

#[test]
fn empty_stream_has_no_silence() {
    let t = SilenceTracker::new(48_000, 0);
    assert!(t.finish(true).is_empty());
}
