//! Helpers of the showcase program: markup snippets, key handling and the
//! traceback scene.
pub mod keys;
pub mod theme;
pub mod traceback_scene;
pub mod typography;
