//! Shell completion scripts and installation help for the `onomedit`
//! command line, with the text operations they are built from.

pub mod completion;
pub mod text;
