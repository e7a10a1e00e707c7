//! Two-channel real-time audio analyzer: capture, windowing, session control and
//! display state, independent of any audio device and of any window system.
pub mod audio;
pub mod capture;
pub mod controller;
pub mod dsp;
pub mod level;
pub mod model;
pub mod pipeline;
pub mod queue;
pub mod shared;
pub mod source;
pub mod text;
pub mod ui;
