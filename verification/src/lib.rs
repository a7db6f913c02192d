//! Progress bars with templated, verified layout and formatting logic.
pub mod text;
pub mod format;
pub mod external;
pub mod template;
pub mod style;
pub mod render;
pub mod hierarchy;
pub mod state;
pub mod target;
pub mod render_laws;
