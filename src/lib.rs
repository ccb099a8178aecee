//! Static analysis and autofix engine for HTML mixed with Twig templates.
//!
//! The library parses source text (as bytes) into a tree whose nodes carry
//! exact byte ranges, runs lint rules over that tree, and drives the autofix
//! loop that splices rule suggestions into the text until nothing changes.

pub mod error;
pub mod html;
pub mod position;
pub mod process;
pub mod suggestion;
