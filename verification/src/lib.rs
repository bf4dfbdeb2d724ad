//! The rules behind the portable build of the video client.
//!
//! [`winrender`] decides what the render thread does and how the frames that mpv draws are laid
//! out, [`platform`] sets the environment up for the libraries that the package ships,
//! [`language`] chooses the locale, [`frame`] holds the types that frames travel in, and [`text`]
//! what the others need of strings. Whatever reaches the outside is asked for and answered through
//! plain values.

pub mod frame;
pub mod language;
pub mod platform;
pub mod text;
pub mod winrender;
