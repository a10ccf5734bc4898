//! Ducking of application sounds under the one that speaks: what is heard,
//! how sessions rank, which volumes to apply, and the settings behind them.

pub mod text;
pub mod platform;
pub mod sound_mode;
pub mod constants;
pub mod sound_type;
pub mod classification;
pub mod priority;
pub mod settings;
pub mod activity_tracker;
pub mod control;
pub mod window;

pub use sound_mode::SoundMode;
pub use sound_type::{SoundType, AppSession, SoundTypeBuffer};
pub use priority::effective_priority;
pub use settings::{Settings, AppConfig, RuntimeSettings};
pub use activity_tracker::ActivityTracker;
