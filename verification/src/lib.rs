//! Core of a push-to-talk voice capture client: a fixed-capacity circular
//! sample buffer bridging a real-time audio callback to a transcription
//! path and a live waveform display, together with the sample-rate
//! converter, the braille dot-grid rasterizer, the focus-history stack,
//! and the prompt/context string builders around them.

pub mod audio;
pub mod focus;
pub mod text;
pub mod transport;
pub mod viz;
