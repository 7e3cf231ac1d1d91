//! A real-time audio subsystem for an interactive multimedia application.
//!
//! The crate validates encoded audio buffers ([`AudioSource`]), plays any
//! number of independently controllable instances of them ([`Audio`]), and
//! propagates a global volume change live to every playing instance through
//! a non-owning registry owned by [`AudioContext`].
//!
//! Volumes are fixed-point values in thousandths of full scale: `0` is
//! silence and [`VOLUME_UNIT`] (`1000`) is full volume. The gain applied to
//! an active voice is the product of the instance volume and the global
//! volume, in millionths of full scale.

pub mod audio;
pub mod color;
pub mod context;
pub mod resources;
pub mod volume;

pub use audio::AudioSource;
pub use audio::DecodeError;
pub use context::Audio;
pub use context::AudioContext;
pub use context::DeviceError;
pub use context::PlayEffect;
pub use context::PlaybackState;
pub use context::Sink;
pub use color::hex_to_string;
pub use resources::HorizontalAlign;
pub use resources::Resource;
pub use resources::TextAlign;
pub use resources::TextureFilter;
pub use resources::TextureFormat;
pub use resources::VerticalAlign;
pub use volume::VOLUME_UNIT;
