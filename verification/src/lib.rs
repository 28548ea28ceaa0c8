//! Switching the default PHP version of a machine that has several versions installed side
//! by side.
//!
//! The heart of the crate is the resolution of a version constraint, such as `^8.1 || ^8.2`,
//! against the installed versions: see `resolver::resolve`, and `guarantees` for what is
//! proved of it. Around it stand the reading of the constraint out of a project manifest, the
//! reading of the installed versions out of a listing, and the choice of the backend that
//! makes the selected version the default.
//!
//! Nothing in this crate reads a file or runs a command. The caller does, and hands over what
//! it has read.

pub mod activation;
pub mod constraint;
pub mod discovery;
pub mod guarantees;
pub mod manifest;
pub mod resolver;
pub mod text;
