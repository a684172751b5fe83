//! Satellite visibility computation over a fixed-point model.
//!
//! Angles are carried in centidegrees, ranges in metres and centi-kilometres,
//! range rates in metres per second, and instants in whole seconds since the
//! Unix epoch, so that every quantity the pipeline reasons about is an exact
//! integer at the precision of the output contract.

mod errors;
mod instant;
mod look_angles;
mod pipeline;
mod results;
mod series;
mod timestamp;
mod windows;

pub use errors::PipelineError;
pub use instant::{generate_times, STEP_MAX, TIME_MAX, TIME_MIN};
pub use look_angles::{normalize_azimuth_cdeg, FULL_TURN_CDEG, HALF_TURN_CDEG};
pub use series::{build_samples, Measurement, ObservationSample, ELEVATION_MAX_CDEG, RANGE_M_MAX};
pub use pipeline::{collect_propagated, render_windows, run_pipeline, PointReport, WindowReport};
pub use results::{bytes_lex_gt, count_matching_counts, result_case_of_filename};
pub use timestamp::{format_utc_timestamp, parse_time_window, TimeWindow};
pub use windows::{find_visibility_windows, VisibilityWindow};
