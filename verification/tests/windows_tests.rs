use satvis::{find_visibility_windows, ObservationSample};

fn sample(time_s: i64, elevation_cdeg: i64) -> ObservationSample {
    ObservationSample {
        time_s,
        azimuth_cdeg: 12000,
        elevation_cdeg,
        range_ckm: 100000,
        range_rate_mps: -500,
        altitude_ckm: 55000,
    }
}

fn series(elevations_cdeg: &[i64]) -> Vec<ObservationSample> {
    let mut v = Vec::new();
    for (i, e) in elevations_cdeg.iter().enumerate() {
        v.push(sample(i as i64 * 10, *e));
    }
    v
}

#[test]
fn two_windows_scenario() {
    // elevations -10, 2, 15, 30, 12, -5, 40, 41, -1 degrees at threshold 10
    let s = series(&[-1000, 200, 1500, 3000, 1200, -500, 4000, 4100, -100]);
    let ws = find_visibility_windows(&s, 1000);
    assert_eq!(ws.len(), 2);

    assert_eq!(ws[0].start_s, 20);
    assert_eq!(ws[0].end_s, 40);
    assert_eq!(ws[0].duration_s, 20);
    assert_eq!(ws[0].max_elevation_cdeg, 3000);
    assert_eq!(ws[0].max_elevation_time_s, 30);
    assert_eq!(ws[0].samples.len(), 3);
    assert_eq!(ws[0].samples[0].elevation_cdeg, 1500);
    assert_eq!(ws[0].samples[1].elevation_cdeg, 3000);
    assert_eq!(ws[0].samples[2].elevation_cdeg, 1200);

    assert_eq!(ws[1].start_s, 60);
    assert_eq!(ws[1].end_s, 70);
    assert_eq!(ws[1].duration_s, 10);
    assert_eq!(ws[1].max_elevation_cdeg, 4100);
    assert_eq!(ws[1].max_elevation_time_s, 70);
    assert_eq!(ws[1].samples.len(), 2);
}

#[test]
fn never_visible_yields_no_window() {
    let s = series(&[-1000, -200, 900, 999]);
    let ws = find_visibility_windows(&s, 1000);
    assert_eq!(ws.len(), 0);
}

#[test]
fn always_visible_yields_one_full_window() {
    let s = series(&[1000, 2500, 1700]);
    let ws = find_visibility_windows(&s, 1000);
    assert_eq!(ws.len(), 1);
    assert_eq!(ws[0].start_s, 0);
    assert_eq!(ws[0].end_s, 20);
    assert_eq!(ws[0].duration_s, 20);
    assert_eq!(ws[0].samples.len(), 3);
}

#[test]
fn window_open_at_truncation_ends_on_last_sample() {
    let s = series(&[-100, 1000, 5000]);
    let ws = find_visibility_windows(&s, 1000);
    assert_eq!(ws.len(), 1);
    assert_eq!(ws[0].start_s, 10);
    assert_eq!(ws[0].end_s, 20);
    assert_eq!(ws[0].max_elevation_cdeg, 5000);
    assert_eq!(ws[0].max_elevation_time_s, 20);
}

#[test]
fn window_closes_on_previous_sample() {
    let s = series(&[2000, -100, -100]);
    let ws = find_visibility_windows(&s, 1000);
    assert_eq!(ws.len(), 1);
    assert_eq!(ws[0].start_s, 0);
    assert_eq!(ws[0].end_s, 0);
    assert_eq!(ws[0].duration_s, 0);
    assert_eq!(ws[0].samples.len(), 1);
}

#[test]
fn max_elevation_tie_keeps_first_time() {
    let s = series(&[3000, 2000, 3000]);
    let ws = find_visibility_windows(&s, 1000);
    assert_eq!(ws.len(), 1);
    assert_eq!(ws[0].max_elevation_cdeg, 3000);
    assert_eq!(ws[0].max_elevation_time_s, 0);
}

#[test]
fn threshold_is_inclusive() {
    let s = series(&[999, 1000, 1001]);
    let ws = find_visibility_windows(&s, 1000);
    assert_eq!(ws.len(), 1);
    assert_eq!(ws[0].start_s, 10);
    assert_eq!(ws[0].samples.len(), 2);
}

#[test]
fn empty_series_yields_no_window() {
    let s: Vec<ObservationSample> = Vec::new();
    let ws = find_visibility_windows(&s, 1000);
    assert_eq!(ws.len(), 0);
}
