pub mod action;
pub mod line;
pub mod buffer;
pub mod editor;
pub mod editor_prompt;
pub mod laws;
pub mod prompt;
pub mod render_config;
