//! What is shown on the screen.
pub mod dictation_indicator;
