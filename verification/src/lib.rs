//! Time-of-day brightness scheduling.
//!
//! A `Schedule` is a ring of control points over a repeating 24-hour cycle;
//! lookups wrap past midnight. A `TransitionCurve` computes the brightness
//! that should hold between two control points, and the easing step moves a
//! device's current value toward that target a bounded amount per tick
//! without overshooting. `tick` combines the three into the per-device
//! control decision; the surrounding process does the device and clock I/O.

mod clock;
mod easing;
mod schedule;
mod scheduler;
mod transition;

pub use clock::now_time_of_day;
pub use scheduler::ConfigurationError;
pub use scheduler::DeviceSettings;
pub use scheduler::TickAction;
pub use scheduler::effective_curve;
pub use scheduler::target_spec;
pub use scheduler::lemma_segment_duration;

pub use schedule::ControlPoint;
pub use schedule::Schedule;
pub use schedule::ScheduleInvariantError;
pub use schedule::DAY_MS;
pub use schedule::wrap_dur;
pub use schedule::wrap_duration;
pub use schedule::all_wf;
pub use schedule::sorted;
pub use schedule::is_prev_index;
pub use schedule::is_next_index;
pub use schedule::ring_pred;
pub use schedule::prev_index_of;
pub use schedule::next_index_of;
pub use schedule::lemma_prev_index_unique;
pub use schedule::lemma_next_index_unique;
pub use schedule::lemma_lookup_indices_exist;
pub use schedule::lemma_lookup_wraparound;
pub use schedule::lemma_previous_nearest_behind;
pub use schedule::lemma_next_nearest_ahead;
pub use transition::TransitionCurve;
pub use transition::linear_value;
pub use transition::curve_value;
pub use transition::lemma_linear_boundaries;
pub use transition::lemma_instant_holds;
pub use easing::easing;
pub use easing::easing_spec;
pub use easing::dist;
pub use easing::sign;
pub use easing::EasingPolicy;
pub use easing::lemma_easing_idempotent;
pub use easing::lemma_easing_bounded;
pub use easing::lemma_easing_directed;
