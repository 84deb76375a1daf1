//! A batch file organizer, as a verified library.
//!
//! The library holds every decision of the four stages of a run: discovery
//! ([`scanner`]), fingerprinting and path derivation ([`meta`]), duplicate
//! classification ([`store`]) and placement ([`mover`]). It never touches the
//! file system itself. A stage that needs the disk hands out what is to be read
//! or written as plain values, and is told what came back.

pub mod actions;
pub mod args;
pub mod digest;
pub mod meta;
pub mod mover;
pub mod paths;
pub mod scanner;
pub mod store;
pub mod text;
pub mod yee_file;
