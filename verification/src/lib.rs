//! Terminal-output formatting: styled text, width measurement and a
//! region-splitting layout engine that renders a tree of panes into a grid of
//! exact width and height.
pub mod ansi;
pub mod cells;
pub mod demo_showcase;
pub mod emoji;
pub mod filesize;
pub mod highlighter;
pub mod measure;
pub mod protocol;
pub mod renderables;
pub mod segment;
pub mod strings;
pub mod style;
pub mod sync;
pub mod text;
pub mod theme;
