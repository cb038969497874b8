//! A GPS speedometer for mobile Linux.
//!
//! The library holds everything that the application decides and computes:
//!
//! - [`window`]: the state behind the window. Every fix sets the speed, the motion
//!   sensors carry it on in between, and a damped spring moves the needle.
//! - [`layout`], [`dial`], [`gforce`], [`gps_status`] and [`info`]: what a frame
//!   shows and where, as a list of commands for a [`canvas`].
//! - [`location`], [`imu`] and [`accelerometer`]: the courses of the threads that
//!   watch the position and the sensors, as state machines that say what to do
//!   next and are told how it ended. [`sensor`] says what readings mean.
//! - [`application`]: keeping the screen on.
//! - [`double`]: double-precision numbers, with their arithmetic proved to round
//!   correctly, so that all of the above is exact to the last bit.
//! - [`laws`]: what holds of all of it.
//!
//! What is left to the caller is drawing, time, the bus, the digits of a number,
//! and the functions of a real number that have no correctly rounded definition
//! here: cosine, sine and the power by which a change of speed fades.

pub mod accelerometer;
pub mod application;
pub mod canvas;
pub mod dial;
pub mod double;
pub mod gforce;
pub mod gps_status;
pub mod imu;
pub mod info;
pub mod laws;
pub mod layout;
pub mod location;
pub mod sensor;
pub mod window;
