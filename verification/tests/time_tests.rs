use satvis::{
    format_utc_timestamp, generate_times, parse_time_window, render_windows, run_pipeline,
    Measurement, PipelineError,
};

#[test]
fn series_spans_inclusive_window() {
    let ts = generate_times(0, 60, 30);
    assert_eq!(ts, vec![0, 30, 60]);
}

#[test]
fn series_stops_before_off_grid_end() {
    let ts = generate_times(0, 65, 30);
    assert_eq!(ts, vec![0, 30, 60]);
}

#[test]
fn series_with_single_instant() {
    let ts = generate_times(100, 100, 60);
    assert_eq!(ts, vec![100]);
}

#[test]
fn series_empty_when_start_after_end() {
    let ts = generate_times(100, 40, 60);
    assert!(ts.is_empty());
}

#[test]
fn parse_time_window_accepts_utc_texts() {
    let w = parse_time_window("2015-05-15T00:00:00Z", "2015-05-15T01:00:00Z", 60).unwrap();
    assert_eq!(w.start_s, 1431648000);
    assert_eq!(w.end_s, 1431648000 + 3600);
    assert_eq!(w.step_s, 60);
}

#[test]
fn parse_time_window_accepts_offsets() {
    let w = parse_time_window("2015-05-15T02:00:00+02:00", "2015-05-15T01:00:00Z", 60).unwrap();
    assert_eq!(w.start_s, 1431648000);
}

#[test]
fn parse_time_window_rejects_bad_text() {
    let r = parse_time_window("2015-05-15 00:00:00", "2015-05-15T01:00:00Z", 60);
    assert_eq!(r.unwrap_err(), PipelineError::Input);
    let r = parse_time_window("2015-05-15T00:00:00Z", "not a time", 60);
    assert_eq!(r.unwrap_err(), PipelineError::Input);
}

#[test]
fn parse_time_window_rejects_bad_step() {
    let r = parse_time_window("2015-05-15T00:00:00Z", "2015-05-15T01:00:00Z", 0);
    assert_eq!(r.unwrap_err(), PipelineError::Input);
    let r = parse_time_window("2015-05-15T00:00:00Z", "2015-05-15T01:00:00Z", -60);
    assert_eq!(r.unwrap_err(), PipelineError::Input);
}

#[test]
fn format_writes_utc_second_text() {
    assert_eq!(format_utc_timestamp(0), "1970-01-01T00:00:00Z");
    assert_eq!(format_utc_timestamp(1431648000), "2015-05-15T00:00:00Z");
    assert_eq!(format_utc_timestamp(-1), "1969-12-31T23:59:59Z");
}

#[test]
fn parse_and_format_round_trip() {
    let w = parse_time_window("2024-02-29T12:34:56Z", "2024-02-29T12:34:56Z", 1).unwrap();
    assert_eq!(format_utc_timestamp(w.start_s), "2024-02-29T12:34:56Z");
}

#[test]
fn rendered_windows_carry_formatted_times() {
    let times = generate_times(1431648000, 1431648000 + 120, 60);
    let meas = vec![
        Measurement { azimuth_raw_cdeg: -4500, elevation_cdeg: 1500, range_m: 1_000_000, altitude_ckm: 40000 },
        Measurement { azimuth_raw_cdeg: 0, elevation_cdeg: 2500, range_m: 900_000, altitude_ckm: 40000 },
        Measurement { azimuth_raw_cdeg: 4500, elevation_cdeg: -100, range_m: 1_100_000, altitude_ckm: 40000 },
    ];
    let ws = run_pipeline(&times, &meas, 1000);
    let reports = render_windows(&ws);
    assert_eq!(reports.len(), 1);
    let r = &reports[0];
    assert_eq!(r.start, "2015-05-15T00:00:00Z");
    assert_eq!(r.end, "2015-05-15T00:01:00Z");
    assert_eq!(r.max_elevation_time, "2015-05-15T00:01:00Z");
    assert_eq!(r.max_elevation_cdeg, 2500);
    assert_eq!(r.duration_s, 60);
    assert_eq!(r.points.len(), 2);
    assert_eq!(r.points[0].time, "2015-05-15T00:00:00Z");
    assert_eq!(r.points[0].azimuth_cdeg, 31500);
    assert_eq!(r.points[0].range_ckm, 100000);
    // (900000 - 1000000) / 60 = -1666.67, rounded to the nearest
    assert_eq!(r.points[0].range_rate_mps, -1667);
    // the window's last sample is not the series' last: (1100000 - 900000) / 60
    assert_eq!(r.points[1].range_rate_mps, 3333);
}
