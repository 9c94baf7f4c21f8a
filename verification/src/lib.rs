//! A miniature document renderer.
//!
//! Given an already-parsed document tree and stylesheet, the crate resolves
//! the effective style of every node (`style`), builds a tree of layout boxes
//! with absolute positions and sizes (`layout`), and rasterizes that tree into
//! an RGBA pixel canvas (`painting`). Tokenizing the inputs and encoding the
//! canvas into a file format are left to the caller.
//!
//! All measurements are integer device-independent pixel units.

pub mod css;
pub mod dom;
pub mod style;
pub mod layout;
pub mod painting;
