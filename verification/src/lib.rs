//! Speech dictation for a compositor: what is said reaches the focused
//! application as text.
//!
//! [`dictation`] holds the session and everything on the way from captured audio
//! to typed text, [`ui`] the indicator that shows that the microphone is open,
//! and [`config`] the settings. None of it talks to a device, a server or a
//! screen: each step says in its contract what it makes of what came in and what
//! it asks its surroundings to do.
//!
//! Functions named `law_..` state what holds of the whole: over all inputs, and
//! over more than one step.
pub mod config;
pub mod dictation;
pub mod text;
pub mod ui;
