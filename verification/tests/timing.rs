use std::time::{Duration, Instant};

use glide::timing::{round_trip, Samples, Summary, SAMPLE_WINDOW};

fn line(summary: Summary) -> String {
    let ms = |nanos: u64| format!("{:.2}", nanos as f64 / 1_000_000.0);
    summary.line(&ms(summary.p50), &ms(summary.p99), &ms(summary.min), &ms(summary.max))
}

#[test]
fn round_trip_counts_from_the_send_time() {
    let started = Instant::now();
    while started.elapsed() < Duration::from_millis(5) {}
    let now = started.elapsed().as_nanos() as u64;
    assert!(round_trip(0, now) as f64 / 1_000_000.0 >= 5.0);
}

#[test]
fn a_probe_from_the_future_took_no_time() {
    assert_eq!(round_trip(100, 350), 250);
    assert_eq!(round_trip(350, 100), 0);
    assert_eq!(round_trip(7, 7), 0);
}

#[test]
fn percentiles_and_window() {
    let mut s = Samples::new();
    assert!(s.summary().is_none());
    for i in 0..SAMPLE_WINDOW + 50 {
        s.push(i as u64);
    }
    assert_eq!(s.values.len(), SAMPLE_WINDOW);
    assert_eq!(s.values[0], 50);
    assert!(line(s.summary().unwrap()).contains("p50"));
}

#[test]
fn figures_of_a_few_samples() {
    let mut s = Samples::new();
    assert_eq!(s.p50(), None);
    for nanos in [30, 10, 40, 20] {
        s.push(nanos);
    }
    assert_eq!(s.p50(), Some(20), "of two in the middle, the lower");
    assert_eq!(s.summary(), Some(Summary { p50: 30, p99: 40, min: 10, max: 40, n: 4 }));
    s.push(20);
    assert_eq!(s.p50(), Some(20));
    assert_eq!(s.summary(), Some(Summary { p50: 20, p99: 40, min: 10, max: 40, n: 5 }));
    assert_eq!(s.values, [30, 10, 40, 20, 20], "samples stay in the order they came");
}

#[test]
fn one_sample_is_all_figures() {
    let mut s = Samples::new();
    s.push(2_371_000);
    let summary = s.summary().unwrap();
    assert_eq!(summary, Summary { p50: 2_371_000, p99: 2_371_000, min: 2_371_000, max: 2_371_000, n: 1 });
    assert_eq!(line(summary), "rtt p50 2.37ms  p99 2.37ms  min 2.37ms  max 2.37ms  n=1");
}

#[test]
fn percentiles_stand_where_rounding_puts_them() {
    let mut s = Samples::new();
    for n in 1..=SAMPLE_WINDOW {
        s.push((n - 1) as u64);
        let at = |q: f64| ((n - 1) as f64 * q).round() as u64;
        let summary = s.summary().unwrap();
        assert_eq!(summary.p50, at(0.5), "p50 of {n}");
        assert_eq!(summary.p99, at(0.99), "p99 of {n}");
        assert_eq!(s.p50(), Some((n as u64 - 1) / 2));
    }
}
