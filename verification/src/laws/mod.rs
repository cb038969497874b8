//! What holds of the speedometer as a whole.
pub mod application;
pub mod arrangement;
pub mod bearings;
pub mod courses;
pub mod dial;
pub mod digits;
pub mod drawing;
pub mod fixes;
pub mod fusion;
pub mod gforce;
pub mod gravity;
pub mod integration;
pub mod layout;
pub mod mirror;
pub mod motion;
pub mod needle;
pub mod pixels;
pub mod places;
pub mod readings;
pub mod runs;
pub mod status;
pub mod styles;
pub mod texts;
pub mod turning;
pub mod updates;
pub mod watchers;
pub mod window;
