//! The verified cores of two audio-visual sketches.
//!
//! The first tracks the pitch of a live signal. Samples arrive through a
//! bounded [`channel::SampleChannel`], filled by [`capture::capture`]. A
//! [`tracker::Tracker`] gathers them into fixed-size blocks, estimates the
//! pitch of every completed block ([`pitch::detect_pitch`]), names the note
//! ([`note::frequency_to_note`], [`note::note_to_label`]) and extends a bounded
//! trail of points ([`trajectory::TrajectoryBuffer`]) that a smoothed camera
//! follows ([`camera::Camera`]).
//!
//! The second, [`mosaic::Mosaic`], lights a random handful of the tiles of a
//! grid every few frames.
//!
//! All quantities are integers. Amplitudes, clarity scores and coordinates are
//! fixed-point numbers and frequencies are counted in millihertz; the unit of
//! each is documented where it is defined. Whoever holds the signal as
//! floating-point numbers converts at the boundary.
//!
//! The channel is a plain value: the producer and the consumer each reach it
//! through an exclusive borrow, so the two can never run its operations at
//! the same moment, and neither operation ever waits.

pub mod camera;
pub mod capture;
pub mod channel;
pub mod mosaic;
pub mod note;
pub mod pitch;
pub mod tracker;
pub mod trajectory;
