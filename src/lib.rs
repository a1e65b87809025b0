//! Verified core of an audio-reactive visualizer: the sample channel that
//! carries captured audio to the frame loop, and the scenes driven by the
//! latest spectrum.

pub mod channel;
pub mod particles;
pub mod scene;
