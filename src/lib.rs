//! Keyframe animation of a scene hierarchy: clips, playback and cross-fades.
pub mod clip;
pub mod driver;
pub mod playback;
pub mod sampler;
pub mod scene;
