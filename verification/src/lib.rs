//! Renders a diagnostic and the source text it points into.
//!
//! The resolution layer turns byte offsets into lines, character columns and excerpts; the
//! renderers draw them. Every function below carries its contract, and the laws that relate
//! several of them are stated as proof functions beside the code they are about.

pub mod diagnostic;
pub mod elide;
pub mod html;
pub mod escape;
mod input;
mod text;
pub mod source;
pub mod style;
pub mod terminal;
pub mod tokora;

pub use diagnostic::{Diagnostic, Label, Location, PathSegment, Severity, Span};
pub use input::Input;
pub use source::{Line, LineBreak, Lines, Position, Region, RegionLine, RegionLines, Source};
pub use source::{Opening, Walk};
pub use style::{Ansi16, Color, Palette, Role, Style, Theme};
